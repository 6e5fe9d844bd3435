use autopulsed::config::{Config, DeviceConfig, DeviceMatchConfig, Properties, RemapConfig};

fn remap_to(master: &str) -> DeviceMatchConfig {
    DeviceMatchConfig::Remap(RemapConfig {
        master: master.to_string(),
        device_name: None,
        device_properties: None,
        format: None,
        rate: None,
        channels: None,
        channel_map: None,
        master_channel_map: None,
        resample_method: None,
        remix: None,
    })
}

#[test]
fn config_test_circular_reference_detection() {
    let mut config = Config::default();

    // a -> b -> c -> a
    config.sinks.insert(
        "a".to_string(),
        DeviceConfig { priority: Some(1), match_config: remap_to("b") },
    );
    config.sinks.insert(
        "b".to_string(),
        DeviceConfig { priority: Some(2), match_config: remap_to("c") },
    );
    config.sinks.insert(
        "c".to_string(),
        DeviceConfig { priority: Some(3), match_config: remap_to("a") },
    );

    let result = config.validate();
    assert!(result.is_err());
    let err = result.unwrap_err();
    assert!(err.contains("Circular reference detected"), "Error message: {err}");
    assert!(
        err.contains("a -> b -> c -> a")
            || err.contains("b -> c -> a -> b")
            || err.contains("c -> a -> b -> c"),
        "Error message: {err}"
    );
}

#[test]
fn test_no_circular_reference() {
    let mut config = Config::default();

    // a -> b -> c, where c is a property rule
    config.sinks.insert(
        "a".to_string(),
        DeviceConfig { priority: Some(1), match_config: remap_to("b") },
    );
    config.sinks.insert(
        "b".to_string(),
        DeviceConfig { priority: Some(2), match_config: remap_to("c") },
    );
    config.sinks.insert(
        "c".to_string(),
        DeviceConfig {
            priority: Some(3),
            match_config: DeviceMatchConfig::Detect(Properties::new()),
        },
    );

    assert!(config.validate().is_ok());
}

#[test]
fn test_self_reference() {
    let mut config = Config::default();

    config.sources.insert(
        "a".to_string(),
        DeviceConfig { priority: Some(1), match_config: remap_to("a") },
    );

    let result = config.validate();
    assert!(result.is_err());
    let err = result.unwrap_err();
    assert!(err.contains("Circular reference detected"));
    assert!(err.contains("sources"));
}

#[test]
fn test_reference_to_nonexistent_device() {
    let mut config = Config::default();

    config.sinks.insert(
        "a".to_string(),
        DeviceConfig { priority: Some(1), match_config: remap_to("nonexistent") },
    );

    assert!(config.validate().is_ok());
}

#[test]
fn self_reference_message_is_exact() {
    let mut config = Config::default();
    config.sources.insert(
        "a".to_string(),
        DeviceConfig { priority: None, match_config: remap_to("a") },
    );
    assert_eq!(
        config.validate(),
        Err("Circular reference detected in sources: a -> a".to_string())
    );
}

#[test]
fn cycle_message_starts_at_first_repetition() {
    // x -> a -> b -> a: the walk from x reports only the cycle a -> b -> a.
    let mut config = Config::default();
    config.sinks.insert("x".to_string(), DeviceConfig { priority: None, match_config: remap_to("a") });
    config.sinks.insert("a".to_string(), DeviceConfig { priority: None, match_config: remap_to("b") });
    config.sinks.insert("b".to_string(), DeviceConfig { priority: None, match_config: remap_to("a") });
    assert_eq!(
        config.validate(),
        Err("Circular reference detected in sinks: a -> b -> a".to_string())
    );
}

#[test]
fn sinks_are_checked_before_sources() {
    let mut config = Config::default();
    config.sources.insert("s".to_string(), DeviceConfig { priority: None, match_config: remap_to("s") });
    config.sinks.insert("k".to_string(), DeviceConfig { priority: None, match_config: remap_to("k") });
    assert_eq!(
        config.validate(),
        Err("Circular reference detected in sinks: k -> k".to_string())
    );
}

#[test]
fn kinds_are_checked_separately() {
    // A sink rule naming a source rule as master is a dangling reference, not a cycle.
    let mut config = Config::default();
    config.sinks.insert("a".to_string(), DeviceConfig { priority: None, match_config: remap_to("b") });
    config.sources.insert("b".to_string(), DeviceConfig { priority: None, match_config: remap_to("a") });
    assert!(config.validate().is_ok());
}

#[test]
fn empty_config_is_valid() {
    assert!(Config::default().validate().is_ok());
}

#[test]
fn insert_replaces_rule_in_place() {
    let mut config = Config::default();
    config.sinks.insert("a".to_string(), DeviceConfig { priority: None, match_config: remap_to("a") });
    config.sinks.insert(
        "a".to_string(),
        DeviceConfig { priority: None, match_config: DeviceMatchConfig::Detect(Properties::new()) },
    );
    assert_eq!(config.sinks.len(), 1);
    assert!(config.validate().is_ok());
}

#[test]
fn remove_drops_only_the_named_entry() {
    let mut props = Properties::new();
    props.insert("a".to_string(), "1".to_string());
    props.insert("b".to_string(), "2".to_string());
    props.insert("c".to_string(), "3".to_string());
    props.remove("b");
    assert_eq!(props.len(), 2);
    assert_eq!(props.name_at(0).as_str(), "a");
    assert_eq!(props.name_at(1).as_str(), "c");
    assert!(props.get("b").is_none());
    assert_eq!(props.get("c").map(|v| v.as_str()), Some("3"));
}
