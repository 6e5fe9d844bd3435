use vstd::prelude::*;

use crate::config::{DeviceConfig, DeviceMatchConfig, Properties};
use crate::table::NamedMap;

verus! {

/// Every expected (name, value) entry is present in `actual` with an equal value.
pub open spec fn props_match(expected: Properties, actual: Properties) -> bool {
    forall|i: int|
        0 <= i < expected.pairs().len() ==> {
            let e = #[trigger] expected.pairs()[i];
            actual.contains(e.0) && actual.value_of(e.0)@ == e.1@
        }
}

/// The device created under handle `owner` was created for rule `name`.
pub open spec fn owned_by_rule(owner: Option<u32>, registry: NamedMap<u32>, name: Seq<char>) -> bool {
    match owner {
        Some(o) => registry.contains(name) && registry.value_of(name) == o,
        None => false,
    }
}

/// Whether a device with properties `props`, created under handle `owner` (if any),
/// satisfies rule `name`, whose clause is `cfg`; `registry` maps derived-device
/// rules to the handles that created their devices.
pub open spec fn rule_matches(
    cfg: DeviceConfig,
    props: Properties,
    owner: Option<u32>,
    registry: NamedMap<u32>,
    name: Seq<char>,
) -> bool {
    match cfg.match_config {
        DeviceMatchConfig::Detect(expected) => props_match(expected, props),
        DeviceMatchConfig::Remap(_) => owned_by_rule(owner, registry, name),
    }
}

/// What a device is checked against one rule with.
pub struct DeviceMatchContext<'a> {
    pub device_config: &'a DeviceConfig,
    pub proplist: &'a Properties,
    pub owner_module: Option<u32>,
    pub remap_module_indices: &'a NamedMap<u32>,
    pub config_name: &'a str,
}

/// Whether the device described by `context` satisfies the rule in it.
pub fn check_device_match(context: &DeviceMatchContext<'_>) -> (r: bool)
    ensures
        r == rule_matches(
            *context.device_config,
            *context.proplist,
            context.owner_module,
            *context.remap_module_indices,
            context.config_name@,
        ),
{
    match &context.device_config.match_config {
        DeviceMatchConfig::Detect(detect) => {
            let mut i: usize = 0;
            while i < detect.len()
                invariant
                    context.device_config.match_config == DeviceMatchConfig::Detect(*detect),
                    i <= detect.pairs().len(),
                    forall|j: int|
                        0 <= j < i ==> {
                            let e = #[trigger] detect.pairs()[j];
                            context.proplist.contains(e.0) && context.proplist.value_of(e.0)@
                                == e.1@
                        },
                decreases detect.pairs().len() - i,
            {
                let key = detect.name_at(i);
                let expected_value = detect.value_at(i);
                let ghost e = detect.pairs()[i as int];
                match context.proplist.get(key.as_str()) {
                    Some(actual_value) => {
                        if !(*actual_value == *expected_value) {
                            assert(!(context.proplist.value_of(e.0)@ == e.1@));
                            assert(!props_match(*detect, *context.proplist));
                            return false;
                        }
                    },
                    None => {
                        assert(!context.proplist.contains(e.0));
                        assert(!props_match(*detect, *context.proplist));
                        return false;
                    },
                }
                i = i + 1;
            }
            true
        },
        DeviceMatchConfig::Remap(_) => {
            match (context.owner_module, context.remap_module_indices.get(context.config_name)) {
                (Some(owner), Some(module)) => owner == *module,
                _ => false,
            }
        },
    }
}

} // verus!
