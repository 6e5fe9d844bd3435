use autopulsed::config::{Config, DeviceConfig, DeviceMatchConfig, Properties, RemapConfig};
use autopulsed::matching::{check_device_match, DeviceMatchContext};
use autopulsed::module_args::build_remap_module_args;
use autopulsed::state::{Action, AudioDevice, DeviceInfo, DeviceKind, State};
use autopulsed::table::NamedMap;

fn create_test_proplist(properties: &[(&str, &str)]) -> Properties {
    let mut proplist = Properties::new();
    for (key, value) in properties {
        proplist.insert(key.to_string(), value.to_string());
    }
    proplist
}

fn plain_remap(master: &str) -> RemapConfig {
    RemapConfig {
        master: master.to_string(),
        device_name: None,
        device_properties: None,
        format: None,
        rate: None,
        channels: None,
        channel_map: None,
        master_channel_map: None,
        resample_method: None,
        remix: None,
    }
}

#[test]
fn test_check_device_match_with_matching_properties() {
    let proplist = create_test_proplist(&[("device.api", "alsa"), ("device.bus", "usb")]);
    let mut detect = Properties::new();
    detect.insert("device.api".to_string(), "alsa".to_string());
    detect.insert("device.bus".to_string(), "usb".to_string());
    let config = DeviceConfig { priority: Some(1), match_config: DeviceMatchConfig::Detect(detect) };
    let empty_map = NamedMap::new();
    let context = DeviceMatchContext {
        device_config: &config,
        proplist: &proplist,
        owner_module: None,
        remap_module_indices: &empty_map,
        config_name: "test",
    };
    assert!(check_device_match(&context));
}

#[test]
fn test_check_device_match_with_non_matching_properties() {
    let proplist = create_test_proplist(&[("device.api", "alsa"), ("device.bus", "pci")]);
    let mut detect = Properties::new();
    detect.insert("device.api".to_string(), "alsa".to_string());
    detect.insert("device.bus".to_string(), "usb".to_string());
    let config = DeviceConfig { priority: Some(1), match_config: DeviceMatchConfig::Detect(detect) };
    let empty_map = NamedMap::new();
    let context = DeviceMatchContext {
        device_config: &config,
        proplist: &proplist,
        owner_module: None,
        remap_module_indices: &empty_map,
        config_name: "test",
    };
    assert!(!check_device_match(&context));
}

#[test]
fn test_check_device_match_with_missing_property() {
    let proplist = create_test_proplist(&[("device.api", "alsa")]);
    let mut detect = Properties::new();
    detect.insert("device.api".to_string(), "alsa".to_string());
    detect.insert("device.bus".to_string(), "usb".to_string());
    let config = DeviceConfig { priority: Some(1), match_config: DeviceMatchConfig::Detect(detect) };
    let empty_map = NamedMap::new();
    let context = DeviceMatchContext {
        device_config: &config,
        proplist: &proplist,
        owner_module: None,
        remap_module_indices: &empty_map,
        config_name: "test",
    };
    assert!(!check_device_match(&context));
}

#[test]
fn test_check_device_match_with_empty_detect() {
    let proplist = create_test_proplist(&[]);
    let config = DeviceConfig {
        priority: Some(1),
        match_config: DeviceMatchConfig::Detect(Properties::new()),
    };
    let empty_map = NamedMap::new();
    let context = DeviceMatchContext {
        device_config: &config,
        proplist: &proplist,
        owner_module: None,
        remap_module_indices: &empty_map,
        config_name: "test",
    };
    assert!(check_device_match(&context));
}

#[test]
fn test_check_device_match_with_remap() {
    let proplist = create_test_proplist(&[]);
    let config = DeviceConfig {
        priority: Some(1),
        match_config: DeviceMatchConfig::Remap(plain_remap("test")),
    };
    let empty_map = NamedMap::new();
    let context = DeviceMatchContext {
        device_config: &config,
        proplist: &proplist,
        owner_module: None,
        remap_module_indices: &empty_map,
        config_name: "test",
    };
    assert!(!check_device_match(&context));
}

#[test]
fn test_check_device_match_with_remap_and_owner_module() {
    let mut remap = plain_remap("master_device");
    remap.device_name = Some("remap_device".to_string());
    let config = DeviceConfig { priority: Some(1), match_config: DeviceMatchConfig::Remap(remap) };
    let proplist = create_test_proplist(&[]);
    let mut remap_module_indices = NamedMap::new();
    remap_module_indices.insert("remap_config".to_string(), 42u32);

    let context = DeviceMatchContext {
        device_config: &config,
        proplist: &proplist,
        owner_module: Some(42),
        remap_module_indices: &remap_module_indices,
        config_name: "remap_config",
    };
    assert!(check_device_match(&context));

    let context = DeviceMatchContext {
        device_config: &config,
        proplist: &proplist,
        owner_module: Some(43),
        remap_module_indices: &remap_module_indices,
        config_name: "remap_config",
    };
    assert!(!check_device_match(&context));

    let context = DeviceMatchContext {
        device_config: &config,
        proplist: &proplist,
        owner_module: None,
        remap_module_indices: &remap_module_indices,
        config_name: "remap_config",
    };
    assert!(!check_device_match(&context));
}

#[test]
fn remap_match_is_tied_to_the_rule_name() {
    let config = DeviceConfig {
        priority: Some(1),
        match_config: DeviceMatchConfig::Remap(plain_remap("m")),
    };
    let proplist = create_test_proplist(&[]);
    let mut registry = NamedMap::new();
    registry.insert("other_rule".to_string(), 42u32);
    let context = DeviceMatchContext {
        device_config: &config,
        proplist: &proplist,
        owner_module: Some(42),
        remap_module_indices: &registry,
        config_name: "this_rule",
    };
    assert!(!check_device_match(&context));
}

fn detect_rule(priority: Option<u32>) -> DeviceConfig {
    DeviceConfig { priority, match_config: DeviceMatchConfig::Detect(Properties::new()) }
}

#[test]
fn test_find_default_device_with_priorities() {
    let devices = vec![
        AudioDevice {
            index: 1,
            original_name: "device1".to_string(),
            recognized_as: vec!["high_priority".to_string(), "low_priority".to_string()],
        },
        AudioDevice {
            index: 2,
            original_name: "device2".to_string(),
            recognized_as: vec!["medium_priority".to_string()],
        },
    ];
    let mut configs = NamedMap::new();
    configs.insert("high_priority".to_string(), detect_rule(Some(1)));
    configs.insert("medium_priority".to_string(), detect_rule(Some(5)));
    configs.insert("low_priority".to_string(), detect_rule(Some(10)));

    let result = State::find_default_device(&devices, &configs);

    assert!(result.is_some());
    let (config_name, device_index) = result.unwrap();
    assert_eq!(config_name, "high_priority");
    assert_eq!(device_index, 1);
}

#[test]
fn test_find_default_device_with_no_priority() {
    let devices = vec![AudioDevice {
        index: 1,
        original_name: "device1".to_string(),
        recognized_as: vec!["config1".to_string()],
    }];
    let mut configs = NamedMap::new();
    configs.insert("config1".to_string(), detect_rule(None));

    let result = State::find_default_device(&devices, &configs);

    assert!(result.is_none());
}

#[test]
fn test_find_default_device_with_empty_devices() {
    let devices: Vec<AudioDevice> = Vec::new();
    let configs = NamedMap::new();

    let result = State::find_default_device(&devices, &configs);

    assert!(result.is_none());
}

#[test]
fn find_best_prefers_priority_one_over_five() {
    // E1 matches a rule of priority 1, E2 one of priority 5; E2 is listed first.
    let devices = vec![
        AudioDevice {
            index: 7,
            original_name: "e2".to_string(),
            recognized_as: vec!["five".to_string()],
        },
        AudioDevice {
            index: 9,
            original_name: "e1".to_string(),
            recognized_as: vec!["one".to_string()],
        },
    ];
    let mut configs = NamedMap::new();
    configs.insert("five".to_string(), detect_rule(Some(5)));
    configs.insert("one".to_string(), detect_rule(Some(1)));
    assert_eq!(State::find_default_device(&devices, &configs), Some(("one".to_string(), 9)));
}

#[test]
fn find_best_breaks_ties_by_lowest_index() {
    let devices = vec![
        AudioDevice { index: 5, original_name: "b".to_string(), recognized_as: vec!["r".to_string()] },
        AudioDevice { index: 3, original_name: "a".to_string(), recognized_as: vec!["r".to_string()] },
    ];
    let mut configs = NamedMap::new();
    configs.insert("r".to_string(), detect_rule(Some(2)));
    assert_eq!(State::find_default_device(&devices, &configs), Some(("r".to_string(), 3)));
}

#[test]
fn find_best_ignores_rules_that_are_gone() {
    let devices = vec![AudioDevice {
        index: 1,
        original_name: "a".to_string(),
        recognized_as: vec!["vanished".to_string()],
    }];
    let configs = NamedMap::new();
    assert_eq!(State::find_default_device(&devices, &configs), None);
}

#[test]
fn module_args_with_every_option() {
    let mut props = Properties::new();
    props.insert("device.description".to_string(), "it's".to_string());
    props.insert("x".to_string(), "y".to_string());
    let remap = RemapConfig {
        master: "m".to_string(),
        device_name: Some("virt".to_string()),
        device_properties: Some(props),
        format: Some("s16le".to_string()),
        rate: Some(48000),
        channels: Some(2),
        channel_map: Some("front-left,front-right".to_string()),
        master_channel_map: Some("front-right,front-left".to_string()),
        resample_method: Some("speex-float-1".to_string()),
        remix: Some(false),
    };
    assert_eq!(
        build_remap_module_args(DeviceKind::Sink, &remap, 12),
        "master=12 sink_name=virt sink_properties=\"device.description='it'\\''\\'s' x='y'\" \
format=s16le rate=48000 channels=2 channel_map=front-left,front-right \
master_channel_map=front-right,front-left resample_method=speex-float-1 remix=no"
    );
}

#[test]
fn module_args_with_no_options() {
    let remap = plain_remap("m");
    assert_eq!(build_remap_module_args(DeviceKind::Source, &remap, 0), "master=0");
    assert_eq!(
        build_remap_module_args(DeviceKind::Source, &remap, u32::MAX),
        "master=4294967295"
    );
}

#[test]
fn module_args_name_by_kind() {
    let mut remap = plain_remap("m");
    remap.device_name = Some("n".to_string());
    remap.remix = Some(true);
    assert_eq!(build_remap_module_args(DeviceKind::Source, &remap, 3), "master=3 source_name=n remix=yes");
}

fn info(index: u32, name: &str, props: &[(&str, &str)], owner: Option<u32>) -> DeviceInfo {
    DeviceInfo {
        index,
        name: Some(name.to_string()),
        description: None,
        proplist: create_test_proplist(props),
        owner_module: owner,
    }
}

fn bus_rule(bus: &str, priority: Option<u32>) -> DeviceConfig {
    let mut detect = Properties::new();
    detect.insert("device.bus".to_string(), bus.to_string());
    DeviceConfig { priority, match_config: DeviceMatchConfig::Detect(detect) }
}

fn set_default(a: &Action) -> Option<(u32, String)> {
    match a {
        Action::SetDefault { index, name, .. } => Some((*index, name.clone())),
        _ => None,
    }
}

#[test]
fn add_device_counts_matches_and_replaces_by_index() {
    let mut config = Config::default();
    config.sinks.insert("usb".to_string(), bus_rule("usb", Some(1)));
    config.sinks.insert("any".to_string(), detect_rule(None));
    let mut state = State::new(config);
    assert_eq!(state.add_device(DeviceKind::Sink, &info(4, "card", &[("device.bus", "usb")], None)), 2);
    assert_eq!(state.add_device(DeviceKind::Sink, &info(4, "card2", &[("device.bus", "pci")], None)), 1);
    assert_eq!(state.all_devices.sinks.found_devices.len(), 1);
    assert_eq!(state.all_devices.sinks.found_devices[0].original_name, "card2");
    assert_eq!(state.all_devices.sinks.found_devices[0].recognized_as, vec!["any".to_string()]);
    assert_eq!(state.all_devices.sources.found_devices.len(), 0);
}

#[test]
fn no_prioritized_match_goes_idle_without_request() {
    let mut config = Config::default();
    config.sinks.insert("usb".to_string(), bus_rule("usb", Some(1)));
    let mut state = State::new(config);
    state.add_device(DeviceKind::Sink, &info(1, "a", &[("device.bus", "usb")], None));
    assert!(state.update_default_device(DeviceKind::Sink).is_some());
    // The matching device goes away: nothing is left to promote.
    let actions = state.handle_device_removed(DeviceKind::Sink, 1);
    assert!(actions.is_empty());
    assert_eq!(state.all_devices.sinks.pending_default_index, None);
    assert!(state.all_devices.sinks.deferred_default.is_none());
}

#[test]
fn second_target_is_deferred_until_success() {
    let mut config = Config::default();
    config.sinks.insert("usb".to_string(), bus_rule("usb", Some(5)));
    config.sinks.insert("pci".to_string(), bus_rule("pci", Some(1)));
    let mut state = State::new(config);
    state.add_device(DeviceKind::Sink, &info(1, "usb-card", &[("device.bus", "usb")], None));
    let first = state.update_default_device(DeviceKind::Sink).unwrap();
    assert_eq!(set_default(&first), Some((1, "usb-card".to_string())));

    state.add_device(DeviceKind::Sink, &info(2, "pci-card", &[("device.bus", "pci")], None));
    assert!(state.update_default_device(DeviceKind::Sink).is_none());
    assert_eq!(state.all_devices.sinks.pending_default_index, Some(2));
    assert_eq!(state.all_devices.sinks.deferred_default.as_deref(), Some("pci"));

    let next = state.handle_set_default_result(DeviceKind::Sink, true).unwrap();
    assert_eq!(set_default(&next), Some((2, "pci-card".to_string())));
    assert!(state.all_devices.sinks.deferred_default.is_none());

    assert!(state.handle_set_default_result(DeviceKind::Sink, true).is_none());
    assert_eq!(state.all_devices.sinks.pending_default_index, None);
}

#[test]
fn failure_drops_deferred_target() {
    let mut config = Config::default();
    config.sources.insert("any".to_string(), detect_rule(Some(1)));
    let mut state = State::new(config);
    state.add_device(DeviceKind::Source, &info(1, "a", &[], None));
    assert!(state.update_default_device(DeviceKind::Source).is_some());
    assert!(state.update_default_device(DeviceKind::Source).is_none());
    assert!(state.handle_set_default_result(DeviceKind::Source, false).is_none());
    assert_eq!(state.all_devices.sources.pending_default_index, None);
    assert!(state.all_devices.sources.deferred_default.is_none());
}

fn remap_config_with_master() -> Config {
    let mut config = Config::default();
    config.sinks.insert("master_sink".to_string(), bus_rule("usb", Some(10)));
    config.sinks.insert(
        "remap_sink".to_string(),
        DeviceConfig {
            priority: Some(1),
            match_config: DeviceMatchConfig::Remap(plain_remap("master_sink")),
        },
    );
    config
}

fn loads(actions: &[Action]) -> Vec<(String, String)> {
    actions
        .iter()
        .filter_map(|a| match a {
            Action::LoadModule { config_name, argument, .. } => Some((config_name.clone(), argument.clone())),
            _ => None,
        })
        .collect()
}

fn unloads(actions: &[Action]) -> Vec<(String, u32)> {
    actions
        .iter()
        .filter_map(|a| match a {
            Action::UnloadModule { config_name, module_index, .. } => Some((config_name.clone(), *module_index)),
            _ => None,
        })
        .collect()
}

#[test]
fn no_create_without_master_device() {
    let mut state = State::new(remap_config_with_master());
    state.add_device(DeviceKind::Sink, &info(1, "other", &[("device.bus", "pci")], None));
    let actions = state.reevaluate(DeviceKind::Sink);
    assert!(loads(&actions).is_empty());
}

#[test]
fn created_device_is_not_created_again() {
    let mut state = State::new(remap_config_with_master());
    state.add_device(DeviceKind::Sink, &info(1, "card", &[("device.bus", "usb")], None));
    assert_eq!(loads(&state.reevaluate(DeviceKind::Sink)).len(), 1);
    state.on_remap_loaded(DeviceKind::Sink, "remap_sink".to_string(), Some(30));
    assert!(loads(&state.reevaluate(DeviceKind::Sink)).is_empty());
    assert!(loads(&state.check_and_load_remaps(DeviceKind::Sink)).is_empty());
}

#[test]
fn failed_create_is_retried() {
    let mut state = State::new(remap_config_with_master());
    state.add_device(DeviceKind::Sink, &info(1, "card", &[("device.bus", "usb")], None));
    assert_eq!(loads(&state.reevaluate(DeviceKind::Sink)).len(), 1);
    state.on_remap_loaded(DeviceKind::Sink, "remap_sink".to_string(), None);
    assert_eq!(loads(&state.check_and_load_remaps(DeviceKind::Sink)).len(), 1);
}

#[test]
fn master_removal_destroys_derived_device() {
    let mut state = State::new(remap_config_with_master());
    state.add_device(DeviceKind::Sink, &info(1, "card", &[("device.bus", "usb")], None));
    state.reevaluate(DeviceKind::Sink);
    state.on_remap_loaded(DeviceKind::Sink, "remap_sink".to_string(), Some(30));
    let actions = state.handle_device_removed(DeviceKind::Sink, 1);
    assert_eq!(unloads(&actions), vec![("remap_sink".to_string(), 30)]);
    // Failure keeps the entry for a later attempt; success forgets it.
    state.on_remap_unloaded(DeviceKind::Sink, "remap_sink", false);
    assert_eq!(state.all_devices.sinks.remap_module_indices.len(), 1);
    state.on_remap_unloaded(DeviceKind::Sink, "remap_sink", true);
    assert_eq!(state.all_devices.sinks.remap_module_indices.len(), 0);
}

#[test]
fn unknown_tracked_rule_is_destroyed() {
    let mut state = State::new(Config::default());
    state.on_remap_loaded(DeviceKind::Source, "gone".to_string(), Some(8));
    assert_eq!(unloads(&state.check_and_unload_remaps(DeviceKind::Source)), vec![("gone".to_string(), 8)]);
}

#[test]
fn shutdown_destroys_every_tracked_device_and_drains() {
    let mut state = State::new(Config::default());
    state.on_remap_loaded(DeviceKind::Sink, "a".to_string(), Some(1));
    state.on_remap_loaded(DeviceKind::Sink, "b".to_string(), Some(2));
    state.on_remap_loaded(DeviceKind::Source, "c".to_string(), Some(3));
    state.begin_shutdown();
    assert!(!state.has_pending_unloads());
    let actions = state.cleanup_remap_modules();
    assert_eq!(actions.len(), 3);
    assert!(actions.iter().all(|a| matches!(a, Action::CleanupModule { .. })));
    assert!(state.has_pending_unloads());
    state.on_cleanup_unloaded();
    state.on_cleanup_unloaded();
    assert!(state.has_pending_unloads());
    state.on_cleanup_unloaded();
    assert!(!state.has_pending_unloads());
}

#[test]
fn shutdown_with_nothing_tracked_needs_no_wait() {
    let mut state = State::new(Config::default());
    state.begin_shutdown();
    assert!(state.cleanup_remap_modules().is_empty());
    assert!(!state.has_pending_unloads());
}

#[test]
fn no_create_during_shutdown() {
    let mut state = State::new(remap_config_with_master());
    state.add_device(DeviceKind::Sink, &info(1, "card", &[("device.bus", "usb")], None));
    state.begin_shutdown();
    assert!(loads(&state.reevaluate(DeviceKind::Sink)).is_empty());
}

#[test]
fn master_and_remap_end_to_end() {
    let mut state = State::new(remap_config_with_master());

    // Discovery reports the master device.
    assert_eq!(state.add_device(DeviceKind::Sink, &info(5, "usb-card", &[("device.bus", "usb")], None)), 1);
    let actions = state.reevaluate(DeviceKind::Sink);
    assert_eq!(actions.len(), 2);
    assert_eq!(set_default(&actions[0]), Some((5, "usb-card".to_string())));
    assert_eq!(loads(&actions), vec![("remap_sink".to_string(), "master=5".to_string())]);

    // The set-default request completes; the derived device is created.
    assert!(state.handle_set_default_result(DeviceKind::Sink, true).is_none());
    state.on_remap_loaded(DeviceKind::Sink, "remap_sink".to_string(), Some(77));

    // The new device appears, owned by the created module.
    assert_eq!(state.add_device(DeviceKind::Sink, &info(6, "remapped", &[], Some(77))), 1);
    assert_eq!(
        state.all_devices.sinks.found_devices[1].recognized_as,
        vec!["remap_sink".to_string()]
    );
    let actions = state.reevaluate(DeviceKind::Sink);
    assert_eq!(actions.len(), 1);
    assert_eq!(set_default(&actions[0]), Some((6, "remapped".to_string())));
}
