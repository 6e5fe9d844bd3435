use vstd::prelude::*;

use crate::config::{string_views, Config, DeviceConfig, DeviceMatchConfig, Properties};
use crate::matching::{check_device_match, rule_matches, DeviceMatchContext};
use crate::module_args::{build_remap_module_args, remap_args};
use crate::table::NamedMap;

verus! {

/// The two kinds of audio device that rules are written for.
#[derive(Clone, Copy, PartialEq, Eq, Structural, Debug)]
pub enum DeviceKind {
    Sink,
    Source,
}

pub open spec fn kind_lower(kind: DeviceKind) -> Seq<char> {
    match kind {
        DeviceKind::Sink => "sink"@,
        DeviceKind::Source => "source"@,
    }
}

impl DeviceKind {
    pub fn name_lower_case(&self) -> (r: &'static str)
        ensures
            r@ == kind_lower(*self),
    {
        match self {
            DeviceKind::Sink => "sink",
            DeviceKind::Source => "source",
        }
    }

    /// The server module that creates a derived device of this kind.
    pub fn module_name(&self) -> &'static str {
        match self {
            DeviceKind::Sink => "module-remap-sink",
            DeviceKind::Source => "module-remap-source",
        }
    }
}

/// A device the server has reported, with the rules it satisfies.
pub struct AudioDevice {
    pub index: u32,
    pub original_name: String,
    /// Names of the satisfied rules, in rule order.
    pub recognized_as: Vec<String>,
}

/// What the server reports about one device.
pub struct DeviceInfo {
    pub index: u32,
    pub name: Option<String>,
    pub description: Option<String>,
    pub proplist: Properties,
    pub owner_module: Option<u32>,
}

/// The known devices of one kind and the state kept for them.
pub struct AudioDeviceGroup {
    /// Devices in the order they were (last) reported; one per server index.
    pub found_devices: Vec<AudioDevice>,
    /// Derived-device rule name to the handle of the module that created its device.
    pub remap_module_indices: NamedMap<u32>,
    /// The device targeted as default while a set-default request is outstanding.
    pub pending_default_index: Option<u32>,
    /// The rule of a newer target that waits for the outstanding request to finish.
    pub deferred_default: Option<String>,
}

pub struct AudioDeviceRoot {
    pub sinks: AudioDeviceGroup,
    pub sources: AudioDeviceGroup,
}

/// A request for the audio server that the reconciliation has decided on.
pub enum Action {
    /// Make the device named `name` (at server index `index`) the default of `kind`.
    SetDefault { kind: DeviceKind, index: u32, name: String },
    /// Create the derived device of rule `config_name` with module argument `argument`.
    LoadModule { kind: DeviceKind, config_name: String, argument: String },
    /// Destroy the derived device of rule `config_name`, created by module `module_index`.
    UnloadModule { kind: DeviceKind, config_name: String, module_index: u32 },
    /// As `UnloadModule`, issued at shutdown and counted until answered.
    CleanupModule { kind: DeviceKind, config_name: String, module_index: u32 },
}

pub enum ActionView {
    SetDefault { kind: DeviceKind, index: u32, name: Seq<char> },
    LoadModule { kind: DeviceKind, config_name: Seq<char>, argument: Seq<char> },
    UnloadModule { kind: DeviceKind, config_name: Seq<char>, module_index: u32 },
    CleanupModule { kind: DeviceKind, config_name: Seq<char>, module_index: u32 },
}

impl View for Action {
    type V = ActionView;

    open spec fn view(&self) -> ActionView {
        match self {
            Action::SetDefault { kind, index, name } => ActionView::SetDefault {
                kind: *kind,
                index: *index,
                name: name@,
            },
            Action::LoadModule { kind, config_name, argument } => ActionView::LoadModule {
                kind: *kind,
                config_name: config_name@,
                argument: argument@,
            },
            Action::UnloadModule { kind, config_name, module_index } => ActionView::UnloadModule {
                kind: *kind,
                config_name: config_name@,
                module_index: *module_index,
            },
            Action::CleanupModule { kind, config_name, module_index } => ActionView::CleanupModule {
                kind: *kind,
                config_name: config_name@,
                module_index: *module_index,
            },
        }
    }
}

pub open spec fn actions_view(v: Seq<Action>) -> Seq<ActionView> {
    v.map_values(|a: Action| a@)
}

pub open spec fn opt_action_view(a: Option<Action>) -> Option<ActionView> {
    match a {
        Some(x) => Some(x@),
        None => None,
    }
}

pub open spec fn opt_view(o: Option<String>) -> Option<Seq<char>> {
    match o {
        Some(s) => Some(s@),
        None => None,
    }
}

/// The name in the latest record of `devs` at server index `index`.
pub open spec fn name_for_index(devs: Seq<AudioDevice>, index: u32) -> Option<Seq<char>>
    decreases devs.len(),
{
    if devs.len() == 0 {
        None
    } else if devs.last().index == index {
        Some(devs.last().original_name@)
    } else {
        name_for_index(devs.drop_last(), index)
    }
}

pub proof fn lemma_name_for_known_index(devs: Seq<AudioDevice>, p: int)
    requires
        0 <= p < devs.len(),
    ensures
        name_for_index(devs, devs[p].index) is Some,
    decreases devs.len(),
{
    if p < devs.len() - 1 && devs.last().index != devs[p].index {
        assert(devs.drop_last()[p] == devs[p]);
        lemma_name_for_known_index(devs.drop_last(), p);
    }
}

/// How default selection moves from `old` to `new` on a re-evaluation whose best
/// target is `best`, issuing `r`.
pub open spec fn default_update_step(
    kind: DeviceKind,
    old: AudioDeviceGroup,
    new: AudioDeviceGroup,
    best: Option<(Seq<char>, u32)>,
    r: Option<ActionView>,
) -> bool {
    match best {
        None => new.pending_default_index is None && new.deferred_default is None && r is None,
        Some((rule, index)) => {
            &&& new.pending_default_index == Some(index)
            &&& if old.pending_default_index is Some {
                opt_view(new.deferred_default) == Some(rule) && r is None
            } else {
                &&& new.deferred_default == old.deferred_default
                &&& r == Some(
                    ActionView::SetDefault {
                        kind,
                        index,
                        name: name_for_index(old.found_devices@, index)->Some_0,
                    },
                )
            }
        },
    }
}

/// How default selection moves from `old` to `new` when the outstanding
/// set-default request completes with `success`, issuing `r`.
pub open spec fn default_result_step(
    kind: DeviceKind,
    old: AudioDeviceGroup,
    new: AudioDeviceGroup,
    success: bool,
    r: Option<ActionView>,
) -> bool {
    if success && old.deferred_default is Some && old.pending_default_index is Some
        && name_for_index(old.found_devices@, old.pending_default_index->Some_0) is Some {
        &&& new.pending_default_index == old.pending_default_index
        &&& new.deferred_default is None
        &&& r == Some(
            ActionView::SetDefault {
                kind,
                index: old.pending_default_index->Some_0,
                name: name_for_index(old.found_devices@, old.pending_default_index->Some_0)->Some_0,
            },
        )
    } else {
        new.pending_default_index is None && new.deferred_default is None && r is None
    }
}

/// The create requests a load pass issues for the rules `rules` of `kind`: one
/// for each derived-device rule that is not yet created and whose master rule
/// some device satisfies, built on the latest such device, in rule order.
pub open spec fn load_plan(
    kind: DeviceKind,
    rules: Seq<(Seq<char>, DeviceConfig)>,
    g: AudioDeviceGroup,
) -> Seq<ActionView>
    decreases rules.len(),
{
    if rules.len() == 0 {
        Seq::empty()
    } else {
        let rest = load_plan(kind, rules.drop_last(), g);
        let name = rules.last().0;
        match rules.last().1.match_config {
            DeviceMatchConfig::Remap(r) => if has_match(g.found_devices@, r.master@)
                && !g.remap_module_indices.contains(name) {
                rest.push(
                    ActionView::LoadModule {
                        kind,
                        config_name: name,
                        argument: remap_args(
                            kind,
                            r,
                            device_for_rule(g.found_devices@, r.master@)->Some_0,
                        ),
                    },
                )
            } else {
                rest
            },
            DeviceMatchConfig::Detect(_) => rest,
        }
    }
}

/// The derived device of rule `name` should no longer exist: the rule is gone,
/// is no longer a derived-device rule, or no device satisfies its master rule.
pub open spec fn should_unload(
    rules: NamedMap<DeviceConfig>,
    devs: Seq<AudioDevice>,
    name: Seq<char>,
) -> bool {
    if rules.contains(name) {
        match rules.value_of(name).match_config {
            DeviceMatchConfig::Remap(r) => !has_match(devs, r.master@),
            DeviceMatchConfig::Detect(_) => true,
        }
    } else {
        true
    }
}

/// The destroy requests an unload pass issues for the created devices `created`
/// of `kind`, in registry order.
pub open spec fn unload_plan(
    kind: DeviceKind,
    created: Seq<(Seq<char>, u32)>,
    rules: NamedMap<DeviceConfig>,
    devs: Seq<AudioDevice>,
) -> Seq<ActionView>
    decreases created.len(),
{
    if created.len() == 0 {
        Seq::empty()
    } else {
        let rest = unload_plan(kind, created.drop_last(), rules, devs);
        if should_unload(rules, devs, created.last().0) {
            rest.push(
                ActionView::UnloadModule {
                    kind,
                    config_name: created.last().0,
                    module_index: created.last().1,
                },
            )
        } else {
            rest
        }
    }
}

/// The destroy requests issued at shutdown for the created devices `created` of `kind`.
pub open spec fn cleanup_plan(kind: DeviceKind, created: Seq<(Seq<char>, u32)>) -> Seq<ActionView> {
    created.map_values(
        |e: (Seq<char>, u32)| ActionView::CleanupModule { kind, config_name: e.0, module_index: e.1 },
    )
}

pub open spec fn opt_seq(a: Option<ActionView>) -> Seq<ActionView> {
    match a {
        Some(x) => seq![x],
        None => Seq::empty(),
    }
}

/// A load pass depends only on the devices and the created-device registry.
pub proof fn lemma_load_plan_depends(
    kind: DeviceKind,
    rules: Seq<(Seq<char>, DeviceConfig)>,
    g1: AudioDeviceGroup,
    g2: AudioDeviceGroup,
)
    requires
        g1.found_devices@ == g2.found_devices@,
        g1.remap_module_indices == g2.remap_module_indices,
    ensures
        load_plan(kind, rules, g1) == load_plan(kind, rules, g2),
    decreases rules.len(),
{
    if rules.len() > 0 {
        lemma_load_plan_depends(kind, rules.drop_last(), g1, g2);
    }
}

/// Removing the device at one index leaves the name at every index still present.
pub proof fn lemma_other_devices_keep_names(devs: Seq<AudioDevice>, removed: u32, kept: u32, p: int)
    requires
        0 <= p < other_devices(devs, removed).len(),
        other_devices(devs, removed)[p].index == kept,
    ensures
        kept != removed,
        name_for_index(other_devices(devs, removed), kept) == name_for_index(devs, kept),
    decreases devs.len(),
{
    let rest = other_devices(devs.drop_last(), removed);
    if devs.last().index == removed {
        lemma_other_devices_keep_names(devs.drop_last(), removed, kept, p);
    } else if p < rest.len() {
        assert(other_devices(devs, removed) == rest.push(devs.last()));
        assert(other_devices(devs, removed)[p] == rest[p]);
        assert(other_devices(devs, removed).drop_last() =~= rest);
        lemma_other_devices_keep_names(devs.drop_last(), removed, kept, p);
    } else {
        assert(other_devices(devs, removed) == rest.push(devs.last()));
        assert(other_devices(devs, removed).last() == devs.last());
    }
}

pub open spec fn recognizes(d: AudioDevice, rule: Seq<char>) -> bool {
    string_views(d.recognized_as@).contains(rule)
}

/// Some device of `devs` satisfies `rule`.
pub open spec fn has_match(devs: Seq<AudioDevice>, rule: Seq<char>) -> bool {
    exists|p: int| 0 <= p < devs.len() && recognizes(#[trigger] devs[p], rule)
}

/// The index of the latest-reported device of `devs` that satisfies `rule`.
pub open spec fn device_for_rule(devs: Seq<AudioDevice>, rule: Seq<char>) -> Option<u32>
    decreases devs.len(),
{
    if devs.len() == 0 {
        None
    } else if recognizes(devs.last(), rule) {
        Some(devs.last().index)
    } else {
        device_for_rule(devs.drop_last(), rule)
    }
}

/// The priority of rule `name`, where it exists and has one.
pub open spec fn rule_priority(configs: NamedMap<DeviceConfig>, name: Seq<char>) -> Option<u32> {
    if configs.contains(name) {
        configs.value_of(name).priority
    } else {
        None
    }
}

/// Device `p` of `devs` satisfies its `q`-th rule, which has a priority.
pub open spec fn is_candidate(
    devs: Seq<AudioDevice>,
    configs: NamedMap<DeviceConfig>,
    p: int,
    q: int,
) -> bool {
    &&& 0 <= p < devs.len()
    &&& 0 <= q < devs[p].recognized_as@.len()
    &&& rule_priority(configs, devs[p].recognized_as@[q]@) is Some
}

pub open spec fn candidate_priority(
    devs: Seq<AudioDevice>,
    configs: NamedMap<DeviceConfig>,
    p: int,
    q: int,
) -> u32 {
    rule_priority(configs, devs[p].recognized_as@[q]@)->Some_0
}

/// `r` is the best default: the (rule, device) pair of least priority, and among
/// those the one of least device index; `None` exactly when no device satisfies a
/// rule that has a priority.
pub open spec fn is_best_default(
    devs: Seq<AudioDevice>,
    configs: NamedMap<DeviceConfig>,
    r: Option<(Seq<char>, u32)>,
) -> bool {
    match r {
        None => forall|p: int, q: int| !is_candidate(devs, configs, p, q),
        Some((rule, index)) => exists|p: int, q: int|
            {
                &&& #[trigger] is_candidate(devs, configs, p, q)
                &&& devs[p].index == index
                &&& devs[p].recognized_as@[q]@ == rule
                &&& forall|p2: int, q2: int| #[trigger]
                    is_candidate(devs, configs, p2, q2) ==> candidate_priority(devs, configs, p, q)
                        <= candidate_priority(devs, configs, p2, q2) && (candidate_priority(
                        devs,
                        configs,
                        p,
                        q,
                    ) == candidate_priority(devs, configs, p2, q2) ==> index <= devs[p2].index)
            },
    }
}

/// The names of the rules among `rules` that a device satisfies, in rule order.
pub open spec fn matched_rules(
    rules: Seq<(Seq<char>, DeviceConfig)>,
    props: Properties,
    owner: Option<u32>,
    registry: NamedMap<u32>,
) -> Seq<Seq<char>>
    decreases rules.len(),
{
    if rules.len() == 0 {
        Seq::empty()
    } else {
        let rest = matched_rules(rules.drop_last(), props, owner, registry);
        if rule_matches(rules.last().1, props, owner, registry, rules.last().0) {
            rest.push(rules.last().0)
        } else {
            rest
        }
    }
}

/// The devices of `devs` other than the one at server index `index`.
pub open spec fn other_devices(devs: Seq<AudioDevice>, index: u32) -> Seq<AudioDevice>
    decreases devs.len(),
{
    if devs.len() == 0 {
        devs
    } else if devs.last().index == index {
        other_devices(devs.drop_last(), index)
    } else {
        other_devices(devs.drop_last(), index).push(devs.last())
    }
}

impl AudioDeviceGroup {
    pub fn new() -> (r: Self)
        ensures
            r.found_devices@.len() == 0,
            r.remap_module_indices@ == Map::<Seq<char>, u32>::empty(),
            r.remap_module_indices.pairs().len() == 0,
            r.pending_default_index is None,
            r.deferred_default is None,
    {
        AudioDeviceGroup {
            found_devices: Vec::new(),
            remap_module_indices: NamedMap::new(),
            pending_default_index: None,
            deferred_default: None,
        }
    }

    /// Drops the device at server index `index`, if known.
    pub fn remove_device(&mut self, index: u32)
        ensures
            final(self).found_devices@ == other_devices(old(self).found_devices@, index),
            final(self).remap_module_indices == old(self).remap_module_indices,
            final(self).pending_default_index == old(self).pending_default_index,
            final(self).deferred_default == old(self).deferred_default,
    {
        let ghost old_devs = self.found_devices@;
        let ghost total = old_devs.len();
        let ghost mut done: int = 0;
        let mut i: usize = 0;
        while i < self.found_devices.len()
            invariant
                0 <= done <= total,
                total == old_devs.len(),
                i == other_devices(old_devs.subrange(0, done), index).len(),
                self.found_devices@ == other_devices(old_devs.subrange(0, done), index)
                    + old_devs.subrange(done, total as int),
                self.remap_module_indices == old(self).remap_module_indices,
                self.pending_default_index == old(self).pending_default_index,
                self.deferred_default == old(self).deferred_default,
            decreases total - done,
        {
            let ghost before = self.found_devices@;
            let ghost w = other_devices(old_devs.subrange(0, done), index);
            assert(before[i as int] == old_devs[done]);
            assert(old_devs.subrange(0, done + 1).drop_last() =~= old_devs.subrange(0, done));
            assert(old_devs.subrange(0, done + 1).last() == old_devs[done]);
            if self.found_devices[i].index == index {
                self.found_devices.remove(i);
                assert(before =~= w + old_devs.subrange(done, total as int));
                assert(self.found_devices@ =~= w + old_devs.subrange(done + 1, total as int));
            } else {
                i = i + 1;
                assert(self.found_devices@ =~= w.push(old_devs[done]) + old_devs.subrange(
                    done + 1,
                    total as int,
                ));
            }
            proof {
                done = done + 1;
            }
        }
        assert(old_devs.subrange(0, total as int) =~= old_devs);
        assert(self.found_devices@ =~= other_devices(old_devs, index));
    }

    /// Records `device`, replacing what was known at its server index.
    pub fn insert_device(&mut self, device: AudioDevice)
        ensures
            final(self).found_devices@ == other_devices(old(self).found_devices@, device.index).push(
                device,
            ),
            final(self).remap_module_indices == old(self).remap_module_indices,
            final(self).pending_default_index == old(self).pending_default_index,
            final(self).deferred_default == old(self).deferred_default,
    {
        self.remove_device(device.index);
        self.found_devices.push(device);
    }

    /// The name in the latest record at server index `index`.
    pub fn name_of_index(&self, index: u32) -> (r: Option<String>)
        ensures
            opt_view(r) == name_for_index(self.found_devices@, index),
    {
        let devs = &self.found_devices;
        let mut found: Option<String> = None;
        let mut i: usize = 0;
        while i < devs.len()
            invariant
                i <= devs@.len(),
                opt_view(found) == name_for_index(devs@.subrange(0, i as int), index),
            decreases devs@.len() - i,
        {
            let ghost next = devs@.subrange(0, i as int + 1);
            assert(next.drop_last() =~= devs@.subrange(0, i as int));
            assert(next.last() == devs@[i as int]);
            if devs[i].index == index {
                found = Some(devs[i].original_name.clone());
            }
            i = i + 1;
        }
        assert(devs@.subrange(0, devs@.len() as int) =~= devs@);
        found
    }

    /// Re-targets default selection at `best`: issues a request when none is
    /// outstanding, else defers `best` until the outstanding one completes.
    fn retarget_default(&mut self, kind: DeviceKind, best: Option<(String, u32)>) -> (r: Option<
        Action,
    >)
        requires
            match best {
                Some((_, index)) => exists|p: int|
                    0 <= p < old(self).found_devices@.len() && old(self).found_devices@[p].index
                        == index,
                None => true,
            },
        ensures
            default_update_step(
                kind,
                *old(self),
                *final(self),
                match best {
                    Some(x) => Some((x.0@, x.1)),
                    None => None,
                },
                opt_action_view(r),
            ),
            final(self).found_devices == old(self).found_devices,
            final(self).remap_module_indices == old(self).remap_module_indices,
    {
        match best {
            Some((config_name, device_index)) => {
                let pending = self.pending_default_index.is_some();
                self.pending_default_index = Some(device_index);
                if pending {
                    self.deferred_default = Some(config_name);
                    None
                } else {
                    proof {
                        let p = choose|p: int|
                            0 <= p < self.found_devices@.len() && self.found_devices@[p].index
                                == device_index;
                        lemma_name_for_known_index(self.found_devices@, p);
                    }
                    match self.name_of_index(device_index) {
                        Some(name) => Some(
                            Action::SetDefault { kind, index: device_index, name },
                        ),
                        None => None,
                    }
                }
            },
            None => {
                self.pending_default_index = None;
                self.deferred_default = None;
                None
            },
        }
    }

    /// Applies the completion of the outstanding set-default request: on success
    /// the deferred target, if any, is requested next; otherwise selection goes idle.
    pub fn handle_set_default_result(&mut self, kind: DeviceKind, success: bool) -> (r: Option<
        Action,
    >)
        ensures
            default_result_step(kind, *old(self), *final(self), success, opt_action_view(r)),
            final(self).found_devices == old(self).found_devices,
            final(self).remap_module_indices == old(self).remap_module_indices,
    {
        let deferred = self.deferred_default.take();
        if success && deferred.is_some() {
            if let Some(new_device_index) = self.pending_default_index {
                if let Some(name) = self.name_of_index(new_device_index) {
                    return Some(Action::SetDefault { kind, index: new_device_index, name });
                }
            }
        }
        self.pending_default_index = None;
        None
    }

    /// Whether some known device satisfies rule `config_name`.
    pub fn has_device_with_config_name(&self, config_name: &str) -> (r: bool)
        ensures
            r == has_match(self.found_devices@, config_name@),
    {
        self.find_device_index_by_config_name(config_name).is_some()
    }

    /// The latest-reported device that satisfies rule `config_name`.
    pub fn find_device_index_by_config_name(&self, config_name: &str) -> (r: Option<u32>)
        ensures
            r == device_for_rule(self.found_devices@, config_name@),
            r is Some <==> has_match(self.found_devices@, config_name@),
    {
        let devs = &self.found_devices;
        let mut found: Option<u32> = None;
        let mut i: usize = 0;
        while i < devs.len()
            invariant
                i <= devs@.len(),
                found == device_for_rule(devs@.subrange(0, i as int), config_name@),
                found is Some <==> has_match(devs@.subrange(0, i as int), config_name@),
            decreases devs@.len() - i,
        {
            let ghost pre = devs@.subrange(0, i as int);
            let ghost next = devs@.subrange(0, i as int + 1);
            assert(next.drop_last() =~= pre);
            assert(next.last() == devs@[i as int]);
            let hit = recognizes_rule(&devs[i], config_name);
            if hit {
                found = Some(devs[i].index);
                assert(recognizes(next[i as int], config_name@));
            }
            proof {
                if has_match(next, config_name@) && !hit {
                    let p = choose|p: int| 0 <= p < next.len() && recognizes(next[p], config_name@);
                    assert(p < i);
                    assert(pre[p] == next[p]);
                }
                if has_match(pre, config_name@) {
                    let p = choose|p: int| 0 <= p < pre.len() && recognizes(pre[p], config_name@);
                    assert(next[p] == pre[p]);
                }
            }
            i = i + 1;
        }
        assert(devs@.subrange(0, devs@.len() as int) =~= devs@);
        found
    }
}

/// Whether device `d` satisfies rule `rule`.
fn recognizes_rule(d: &AudioDevice, rule: &str) -> (r: bool)
    ensures
        r == recognizes(*d, rule@),
{
    let key = rule.to_owned();
    let mut i: usize = 0;
    while i < d.recognized_as.len()
        invariant
            key@ == rule@,
            i <= d.recognized_as@.len(),
            forall|j: int| 0 <= j < i ==> d.recognized_as@[j]@ != rule@,
        decreases d.recognized_as@.len() - i,
    {
        if d.recognized_as[i] == key {
            assert(string_views(d.recognized_as@)[i as int] == rule@);
            return true;
        }
        i = i + 1;
    }
    assert(!string_views(d.recognized_as@).contains(rule@)) by {
        if string_views(d.recognized_as@).contains(rule@) {
            let j = choose|j: int|
                0 <= j < string_views(d.recognized_as@).len() && string_views(
                    d.recognized_as@,
                )[j] == rule@;
            assert(d.recognized_as@[j]@ == rule@);
        }
    }
    false
}

impl AudioDeviceRoot {
    pub fn new() -> (r: Self)
        ensures
            r.sinks.found_devices@.len() == 0 && r.sources.found_devices@.len() == 0,
            r.sinks.remap_module_indices.pairs().len() == 0,
            r.sources.remap_module_indices.pairs().len() == 0,
            r.sinks.pending_default_index is None && r.sinks.deferred_default is None,
            r.sources.pending_default_index is None && r.sources.deferred_default is None,
    {
        AudioDeviceRoot { sinks: AudioDeviceGroup::new(), sources: AudioDeviceGroup::new() }
    }
}

/// The reconciliation state: the rules, what is known of each kind of device,
/// and the progress of shutdown.
pub struct State {
    pub config: Config,
    pub all_devices: AudioDeviceRoot,
    pub shutting_down: bool,
    /// Destroy requests issued at shutdown and not yet answered.
    pub num_pending_unloads: u32,
}

impl State {
    pub open spec fn group(&self, kind: DeviceKind) -> AudioDeviceGroup {
        match kind {
            DeviceKind::Sink => self.all_devices.sinks,
            DeviceKind::Source => self.all_devices.sources,
        }
    }

    pub open spec fn rules(&self, kind: DeviceKind) -> NamedMap<DeviceConfig> {
        match kind {
            DeviceKind::Sink => self.config.sinks,
            DeviceKind::Source => self.config.sources,
        }
    }

    /// `self` and `other` differ at most in the group of `kind`.
    pub open spec fn same_except(&self, other: &State, kind: DeviceKind) -> bool {
        &&& self.config == other.config
        &&& self.shutting_down == other.shutting_down
        &&& self.num_pending_unloads == other.num_pending_unloads
        &&& match kind {
            DeviceKind::Sink => self.all_devices.sources == other.all_devices.sources,
            DeviceKind::Source => self.all_devices.sinks == other.all_devices.sinks,
        }
    }

    pub fn new(config: Config) -> (r: Self)
        ensures
            r.config == config,
            !r.shutting_down,
            r.num_pending_unloads == 0,
            r.all_devices.sinks.found_devices@.len() == 0,
            r.all_devices.sources.found_devices@.len() == 0,
            r.all_devices.sinks.remap_module_indices.pairs().len() == 0,
            r.all_devices.sources.remap_module_indices.pairs().len() == 0,
            r.all_devices.sinks.pending_default_index is None,
            r.all_devices.sinks.deferred_default is None,
            r.all_devices.sources.pending_default_index is None,
            r.all_devices.sources.deferred_default is None,
    {
        State {
            config,
            all_devices: AudioDeviceRoot::new(),
            shutting_down: false,
            num_pending_unloads: 0,
        }
    }

    /// The priority of rule `name` of `configs`, where it exists and has one.
    fn priority_of(configs: &NamedMap<DeviceConfig>, name: &String) -> (r: Option<u32>)
        ensures
            r == rule_priority(*configs, name@),
    {
        match configs.get(name.as_str()) {
            Some(config) => config.priority,
            None => None,
        }
    }

    /// The rule and device to make the default: least priority first, then least
    /// device index, then the earliest of the device's rules.
    pub fn find_default_device(
        devices: &Vec<AudioDevice>,
        configs: &NamedMap<DeviceConfig>,
    ) -> (r: Option<(String, u32)>)
        ensures
            is_best_default(
                devices@,
                *configs,
                match r {
                    Some(x) => Some((x.0@, x.1)),
                    None => None,
                },
            ),
    {
        let ghost devs = devices@;
        let mut best: Option<(usize, usize, u32)> = None;
        let mut p: usize = 0;
        while p < devices.len()
            invariant
                devs == devices@,
                p <= devs.len(),
                match best {
                    None => forall|p2: int, q2: int|
                        p2 < p ==> !is_candidate(devs, *configs, p2, q2),
                    Some((bp, bq, bprio)) => {
                        &&& is_candidate(devs, *configs, bp as int, bq as int)
                        &&& bprio == candidate_priority(devs, *configs, bp as int, bq as int)
                        &&& bp < p
                        &&& forall|p2: int, q2: int|
                            p2 < p && #[trigger] is_candidate(devs, *configs, p2, q2) ==> bprio
                                <= candidate_priority(devs, *configs, p2, q2) && (bprio
                                == candidate_priority(devs, *configs, p2, q2) ==> devs[bp as int].index
                                <= devs[p2].index)
                    },
                },
            decreases devs.len() - p,
        {
            let device = &devices[p];
            let mut q: usize = 0;
            while q < device.recognized_as.len()
                invariant
                    devs == devices@,
                    p < devs.len(),
                    *device == devs[p as int],
                    q <= device.recognized_as@.len(),
                    match best {
                        None => forall|p2: int, q2: int|
                            (p2 < p || (p2 == p && q2 < q)) ==> !is_candidate(
                                devs,
                                *configs,
                                p2,
                                q2,
                            ),
                        Some((bp, bq, bprio)) => {
                            &&& is_candidate(devs, *configs, bp as int, bq as int)
                            &&& bprio == candidate_priority(devs, *configs, bp as int, bq as int)
                            &&& bp <= p
                            &&& forall|p2: int, q2: int|
                                (p2 < p || (p2 == p && q2 < q)) && #[trigger] is_candidate(
                                    devs,
                                    *configs,
                                    p2,
                                    q2,
                                ) ==> bprio <= candidate_priority(devs, *configs, p2, q2) && (
                                bprio == candidate_priority(devs, *configs, p2, q2)
                                    ==> devs[bp as int].index <= devs[p2].index)
                        },
                    },
                decreases device.recognized_as@.len() - q,
            {
                match Self::priority_of(configs, &device.recognized_as[q]) {
                    Some(prio) => {
                        assert(is_candidate(devs, *configs, p as int, q as int));
                        let better = match best {
                            None => true,
                            Some((bp, _, bprio)) => prio < bprio || (prio == bprio
                                && device.index < devices[bp].index),
                        };
                        if better {
                            best = Some((p, q, prio));
                        }
                    },
                    None => {},
                }
                q = q + 1;
            }
            p = p + 1;
        }
        match best {
            Some((bp, bq, _)) => {
                let name = devices[bp].recognized_as[bq].clone();
                Some((name, devices[bp].index))
            },
            None => None,
        }
    }

    /// Re-evaluates which device of `kind` should be the default and drives the
    /// set-default request for it.
    pub fn update_default_device(&mut self, kind: DeviceKind) -> (r: Option<Action>)
        ensures
            final(self).same_except(old(self), kind),
            final(self).group(kind).found_devices == old(self).group(kind).found_devices,
            final(self).group(kind).remap_module_indices == old(self).group(
                kind,
            ).remap_module_indices,
            exists|best: Option<(Seq<char>, u32)>|
                is_best_default(old(self).group(kind).found_devices@, old(self).rules(kind), best)
                    && default_update_step(
                    kind,
                    old(self).group(kind),
                    final(self).group(kind),
                    best,
                    opt_action_view(r),
                ),
    {
        let best = Self::find_default_device(
            &self.select(kind).found_devices,
            self.get_definitions(kind),
        );
        let ghost bv = match best {
            Some(ref x) => Some((x.0@, x.1)),
            None => None,
        };
        proof {
            if let Some((_, idx)) = bv {
                let devs = self.group(kind).found_devices@;
                let configs = self.rules(kind);
                let (p, q) = choose|p: int, q: int|
                    {
                        &&& #[trigger] is_candidate(devs, configs, p, q)
                        &&& devs[p].index == idx
                        &&& devs[p].recognized_as@[q]@ == bv->Some_0.0
                        &&& forall|p2: int, q2: int| #[trigger]
                            is_candidate(devs, configs, p2, q2) ==> candidate_priority(
                                devs,
                                configs,
                                p,
                                q,
                            ) <= candidate_priority(devs, configs, p2, q2) && (candidate_priority(
                                devs,
                                configs,
                                p,
                                q,
                            ) == candidate_priority(devs, configs, p2, q2) ==> idx
                                <= devs[p2].index)
                    };
                assert(0 <= p < devs.len() && devs[p].index == idx);
            }
        }
        let r = match kind {
            DeviceKind::Sink => self.all_devices.sinks.retarget_default(kind, best),
            DeviceKind::Source => self.all_devices.sources.retarget_default(kind, best),
        };
        r
    }

    /// Applies the completion of the outstanding set-default request of `kind`.
    pub fn handle_set_default_result(&mut self, kind: DeviceKind, success: bool) -> (r: Option<
        Action,
    >)
        ensures
            final(self).same_except(old(self), kind),
            default_result_step(
                kind,
                old(self).group(kind),
                final(self).group(kind),
                success,
                opt_action_view(r),
            ),
            final(self).group(kind).found_devices == old(self).group(kind).found_devices,
            final(self).group(kind).remap_module_indices == old(self).group(
                kind,
            ).remap_module_indices,
    {
        match kind {
            DeviceKind::Sink => self.all_devices.sinks.handle_set_default_result(kind, success),
            DeviceKind::Source => self.all_devices.sources.handle_set_default_result(kind, success),
        }
    }

    /// The create requests for the derived devices of `kind` that should exist
    /// and do not; none once shutdown has begun.
    pub fn check_and_load_remaps(&self, kind: DeviceKind) -> (r: Vec<Action>)
        ensures
            self.shutting_down ==> r@.len() == 0,
            !self.shutting_down ==> actions_view(r@) == load_plan(
                kind,
                self.rules(kind).pairs(),
                self.group(kind),
            ),
    {
        let mut remaps_to_load: Vec<Action> = Vec::new();
        if self.shutting_down {
            return remaps_to_load;
        }
        let configs = self.get_definitions(kind);
        let devices = self.select(kind);
        let mut i: usize = 0;
        while i < configs.len()
            invariant
                *configs == self.rules(kind),
                *devices == self.group(kind),
                i <= configs.pairs().len(),
                actions_view(remaps_to_load@) == load_plan(
                    kind,
                    configs.pairs().subrange(0, i as int),
                    *devices,
                ),
            decreases configs.pairs().len() - i,
        {
            let ghost next = configs.pairs().subrange(0, i as int + 1);
            assert(next.drop_last() =~= configs.pairs().subrange(0, i as int));
            assert(next.last() == configs.pairs()[i as int]);
            let ghost before = actions_view(remaps_to_load@);
            let config_name = configs.name_at(i);
            if let DeviceMatchConfig::Remap(remap) = &configs.value_at(i).match_config {
                let master_exists = devices.has_device_with_config_name(remap.master.as_str());
                if master_exists && !devices.remap_module_indices.contains_key(
                    config_name.as_str(),
                ) {
                    if let Some(master_index) = devices.find_device_index_by_config_name(
                        remap.master.as_str(),
                    ) {
                        let argument = build_remap_module_args(kind, remap, master_index);
                        remaps_to_load.push(
                            Action::LoadModule { kind, config_name: config_name.clone(), argument },
                        );
                        assert(actions_view(remaps_to_load@) =~= before.push(
                            remaps_to_load@.last()@,
                        ));
                    }
                }
            }
            i = i + 1;
        }
        assert(configs.pairs().subrange(0, configs.pairs().len() as int) =~= configs.pairs());
        remaps_to_load
    }

    /// Whether the derived device of rule `config_name` of `kind` should be destroyed.
    fn should_unload(&self, kind: DeviceKind, config_name: &str) -> (r: bool)
        ensures
            r == should_unload(self.rules(kind), self.group(kind).found_devices@, config_name@),
    {
        match self.get_definitions(kind).get(config_name) {
            Some(config) => match &config.match_config {
                DeviceMatchConfig::Remap(remap) => !self.select(
                    kind,
                ).has_device_with_config_name(remap.master.as_str()),
                DeviceMatchConfig::Detect(_) => true,
            },
            None => true,
        }
    }

    /// The destroy requests for the derived devices of `kind` that should no longer exist.
    pub fn check_and_unload_remaps(&self, kind: DeviceKind) -> (r: Vec<Action>)
        ensures
            actions_view(r@) == unload_plan(
                kind,
                self.group(kind).remap_module_indices.pairs(),
                self.rules(kind),
                self.group(kind).found_devices@,
            ),
    {
        let created = &self.select(kind).remap_module_indices;
        let mut remaps_to_unload: Vec<Action> = Vec::new();
        let mut i: usize = 0;
        while i < created.len()
            invariant
                *created == self.group(kind).remap_module_indices,
                i <= created.pairs().len(),
                actions_view(remaps_to_unload@) == unload_plan(
                    kind,
                    created.pairs().subrange(0, i as int),
                    self.rules(kind),
                    self.group(kind).found_devices@,
                ),
            decreases created.pairs().len() - i,
        {
            let ghost next = created.pairs().subrange(0, i as int + 1);
            assert(next.drop_last() =~= created.pairs().subrange(0, i as int));
            assert(next.last() == created.pairs()[i as int]);
            let ghost before = actions_view(remaps_to_unload@);
            let config_name = created.name_at(i);
            if self.should_unload(kind, config_name.as_str()) {
                remaps_to_unload.push(
                    Action::UnloadModule {
                        kind,
                        config_name: config_name.clone(),
                        module_index: *created.value_at(i),
                    },
                );
                assert(actions_view(remaps_to_unload@) =~= before.push(remaps_to_unload@.last()@));
            }
            i = i + 1;
        }
        assert(created.pairs().subrange(0, created.pairs().len() as int) =~= created.pairs());
        remaps_to_unload
    }

    /// Re-evaluates `kind` after its devices changed: default selection first,
    /// then the create requests (none during shutdown), then the destroy requests.
    pub fn reevaluate(&mut self, kind: DeviceKind) -> (r: Vec<Action>)
        ensures
            final(self).same_except(old(self), kind),
            final(self).group(kind).found_devices == old(self).group(kind).found_devices,
            final(self).group(kind).remap_module_indices == old(self).group(
                kind,
            ).remap_module_indices,
            exists|best: Option<(Seq<char>, u32)>, first: Option<ActionView>|
                {
                    &&& is_best_default(
                        old(self).group(kind).found_devices@,
                        old(self).rules(kind),
                        best,
                    )
                    &&& default_update_step(
                        kind,
                        old(self).group(kind),
                        final(self).group(kind),
                        best,
                        first,
                    )
                    &&& actions_view(r@) == opt_seq(first) + (if old(self).shutting_down {
                        Seq::empty()
                    } else {
                        load_plan(kind, old(self).rules(kind).pairs(), old(self).group(kind))
                    }) + unload_plan(
                        kind,
                        old(self).group(kind).remap_module_indices.pairs(),
                        old(self).rules(kind),
                        old(self).group(kind).found_devices@,
                    )
                },
    {
        let first = self.update_default_device(kind);
        let ghost fv = opt_action_view(first);
        let mut actions: Vec<Action> = Vec::new();
        if let Some(a) = first {
            actions.push(a);
        }
        assert(actions_view(actions@) =~= opt_seq(fv));
        let ghost after_default = actions_view(actions@);
        let mut loads = self.check_and_load_remaps(kind);
        let ghost lv = actions_view(loads@);
        assert(self.group(kind).found_devices@ == old(self).group(kind).found_devices@);
        assert(lv == (if old(self).shutting_down {
            Seq::<ActionView>::empty()
        } else {
            load_plan(kind, old(self).rules(kind).pairs(), old(self).group(kind))
        })) by {
            if !old(self).shutting_down {
                assert(self.group(kind).remap_module_indices == old(self).group(kind).remap_module_indices);
                lemma_load_plan_depends(kind, old(self).rules(kind).pairs(), self.group(kind), old(self).group(kind));
            } else {
                assert(lv =~= Seq::<ActionView>::empty());
            }
        }
        actions.append(&mut loads);
        assert(actions_view(actions@) =~= after_default + lv);
        let ghost after_loads = actions_view(actions@);
        let mut unloads = self.check_and_unload_remaps(kind);
        let ghost uv = actions_view(unloads@);
        actions.append(&mut unloads);
        assert(actions_view(actions@) =~= after_loads + uv);
        actions
    }

    /// Handles the server's notice that the device of `kind` at `index` is gone.
    pub fn handle_device_removed(&mut self, kind: DeviceKind, index: u32) -> (r: Vec<Action>)
        ensures
            final(self).same_except(old(self), kind),
            final(self).group(kind).found_devices@ == other_devices(
                old(self).group(kind).found_devices@,
                index,
            ),
            final(self).group(kind).remap_module_indices == old(self).group(
                kind,
            ).remap_module_indices,
            exists|best: Option<(Seq<char>, u32)>, first: Option<ActionView>|
                {
                    &&& is_best_default(
                        final(self).group(kind).found_devices@,
                        old(self).rules(kind),
                        best,
                    )
                    &&& default_update_step(
                        kind,
                        old(self).group(kind),
                        final(self).group(kind),
                        best,
                        first,
                    )
                    &&& actions_view(r@) == opt_seq(first) + (if old(self).shutting_down {
                        Seq::empty()
                    } else {
                        load_plan(kind, old(self).rules(kind).pairs(), final(self).group(kind))
                    }) + unload_plan(
                        kind,
                        old(self).group(kind).remap_module_indices.pairs(),
                        old(self).rules(kind),
                        final(self).group(kind).found_devices@,
                    )
                },
    {
        self.remove_device(kind, index);
        let ghost mid = *self;
        let r = self.reevaluate(kind);
        proof {
            let (best, first) = choose|best: Option<(Seq<char>, u32)>, first: Option<ActionView>|
                {
                    &&& is_best_default(mid.group(kind).found_devices@, mid.rules(kind), best)
                    &&& default_update_step(kind, mid.group(kind), self.group(kind), best, first)
                    &&& actions_view(r@) == opt_seq(first) + (if mid.shutting_down {
                        Seq::empty()
                    } else {
                        load_plan(kind, mid.rules(kind).pairs(), mid.group(kind))
                    }) + unload_plan(
                        kind,
                        mid.group(kind).remap_module_indices.pairs(),
                        mid.rules(kind),
                        mid.group(kind).found_devices@,
                    )
                };
            if !mid.shutting_down {
                lemma_load_plan_depends(kind, mid.rules(kind).pairs(), mid.group(kind), self.group(kind));
            }
            assert(mid.rules(kind) == old(self).rules(kind));
            assert(mid.shutting_down == old(self).shutting_down);
            assert(mid.group(kind).found_devices@ == self.group(kind).found_devices@);
            assert(is_best_default(self.group(kind).found_devices@, old(self).rules(kind), best));
            if let Some((rule, idx)) = best {
                let devs = mid.group(kind).found_devices@;
                let configs = mid.rules(kind);
                let (p, q) = choose|p: int, q: int|
                    {
                        &&& #[trigger] is_candidate(devs, configs, p, q)
                        &&& devs[p].index == idx
                        &&& devs[p].recognized_as@[q]@ == rule
                        &&& forall|p2: int, q2: int| #[trigger]
                            is_candidate(devs, configs, p2, q2) ==> candidate_priority(
                                devs,
                                configs,
                                p,
                                q,
                            ) <= candidate_priority(devs, configs, p2, q2) && (candidate_priority(
                                devs,
                                configs,
                                p,
                                q,
                            ) == candidate_priority(devs, configs, p2, q2) ==> idx
                                <= devs[p2].index)
                    };
                lemma_other_devices_keep_names(old(self).group(kind).found_devices@, index, idx, p);
            }
            assert(default_update_step(kind, old(self).group(kind), self.group(kind), best, first));
        }
        r
    }

    /// Records that the derived device of rule `config_name` of `kind` was created
    /// by module `module_index`; `None` reports a failed creation, which records nothing.
    pub fn on_remap_loaded(&mut self, kind: DeviceKind, config_name: String, module_index: Option<u32>)
        ensures
            final(self).same_except(old(self), kind),
            final(self).group(kind).found_devices == old(self).group(kind).found_devices,
            final(self).group(kind).pending_default_index == old(self).group(kind).pending_default_index,
            final(self).group(kind).deferred_default == old(self).group(kind).deferred_default,
            final(self).group(kind).remap_module_indices@ == match module_index {
                Some(m) => old(self).group(kind).remap_module_indices@.insert(config_name@, m),
                None => old(self).group(kind).remap_module_indices@,
            },
    {
        if let Some(m) = module_index {
            match kind {
                DeviceKind::Sink => self.all_devices.sinks.remap_module_indices.insert(config_name, m),
                DeviceKind::Source => self.all_devices.sources.remap_module_indices.insert(config_name, m),
            }
        }
    }

    /// Records the outcome of destroying the derived device of rule `config_name`
    /// of `kind`: on success the rule is no longer tracked; on failure nothing changes.
    pub fn on_remap_unloaded(&mut self, kind: DeviceKind, config_name: &str, success: bool)
        ensures
            final(self).same_except(old(self), kind),
            final(self).group(kind).found_devices == old(self).group(kind).found_devices,
            final(self).group(kind).pending_default_index == old(self).group(kind).pending_default_index,
            final(self).group(kind).deferred_default == old(self).group(kind).deferred_default,
            success ==> final(self).group(kind).remap_module_indices@ == old(self).group(
                kind,
            ).remap_module_indices@.remove(config_name@),
            !success ==> final(self).group(kind).remap_module_indices == old(self).group(
                kind,
            ).remap_module_indices,
    {
        if success {
            match kind {
                DeviceKind::Sink => self.all_devices.sinks.remap_module_indices.remove(config_name),
                DeviceKind::Source => self.all_devices.sources.remap_module_indices.remove(config_name),
            }
        }
    }

    /// Stops all future create requests.
    pub fn begin_shutdown(&mut self)
        ensures
            final(self).shutting_down,
            final(self).config == old(self).config,
            final(self).all_devices == old(self).all_devices,
            final(self).num_pending_unloads == old(self).num_pending_unloads,
    {
        self.shutting_down = true;
    }

    /// Whether destroy requests issued at shutdown are still unanswered.
    pub fn has_pending_unloads(&self) -> (r: bool)
        ensures
            r == (self.num_pending_unloads > 0),
    {
        self.num_pending_unloads > 0
    }

    /// A destroy request for every derived device of `kind` still tracked, each
    /// counted as pending.
    pub fn cleanup_device_type_modules(&mut self, kind: DeviceKind) -> (r: Vec<Action>)
        requires
            old(self).num_pending_unloads + old(self).group(kind).remap_module_indices.pairs().len()
                <= u32::MAX,
        ensures
            actions_view(r@) == cleanup_plan(kind, old(self).group(kind).remap_module_indices.pairs()),
            final(self).num_pending_unloads == old(self).num_pending_unloads + r@.len(),
            final(self).config == old(self).config,
            final(self).all_devices == old(self).all_devices,
            final(self).shutting_down == old(self).shutting_down,
    {
        let mut actions: Vec<Action> = Vec::new();
        let created = &self.select(kind).remap_module_indices;
        let ghost start = self.num_pending_unloads;
        let mut count: u32 = 0;
        let mut i: usize = 0;
        while i < created.len()
            invariant
                *created == old(self).group(kind).remap_module_indices,
                start + created.pairs().len() <= u32::MAX,
                i <= created.pairs().len(),
                count == i,
                actions_view(actions@) == cleanup_plan(kind, created.pairs().subrange(0, i as int)),
            decreases created.pairs().len() - i,
        {
            let ghost before = actions_view(actions@);
            assert(created.pairs().subrange(0, i as int + 1) =~= created.pairs().subrange(
                0,
                i as int,
            ).push(created.pairs()[i as int]));
            actions.push(
                Action::CleanupModule {
                    kind,
                    config_name: created.name_at(i).clone(),
                    module_index: *created.value_at(i),
                },
            );
            let ghost e = created.pairs()[i as int];
            assert(actions@.last()@ == ActionView::CleanupModule {
                kind,
                config_name: e.0,
                module_index: e.1,
            });
            assert(actions_view(actions@) =~= before.push(actions@.last()@));
            assert(cleanup_plan(kind, created.pairs().subrange(0, i as int + 1)) =~= cleanup_plan(
                kind,
                created.pairs().subrange(0, i as int),
            ).push(ActionView::CleanupModule { kind, config_name: e.0, module_index: e.1 }));
            count = count + 1;
            i = i + 1;
        }
        assert(created.pairs().subrange(0, created.pairs().len() as int) =~= created.pairs());
        self.num_pending_unloads = self.num_pending_unloads + count;
        actions
    }

    /// At shutdown: a destroy request for every tracked derived device, sinks
    /// first, each counted as pending.
    pub fn cleanup_remap_modules(&mut self) -> (r: Vec<Action>)
        requires
            old(self).num_pending_unloads + old(self).all_devices.sinks.remap_module_indices.pairs().len()
                + old(self).all_devices.sources.remap_module_indices.pairs().len() <= u32::MAX,
        ensures
            actions_view(r@) == cleanup_plan(
                DeviceKind::Sink,
                old(self).all_devices.sinks.remap_module_indices.pairs(),
            ) + cleanup_plan(
                DeviceKind::Source,
                old(self).all_devices.sources.remap_module_indices.pairs(),
            ),
            final(self).num_pending_unloads == old(self).num_pending_unloads + r@.len(),
            final(self).config == old(self).config,
            final(self).all_devices == old(self).all_devices,
            final(self).shutting_down == old(self).shutting_down,
    {
        let mut actions = self.cleanup_device_type_modules(DeviceKind::Sink);
        assert(actions@.len() == actions_view(actions@).len());
        let mut more = self.cleanup_device_type_modules(DeviceKind::Source);
        let ghost a = actions_view(actions@);
        let ghost b = actions_view(more@);
        assert(more@.len() == b.len());
        actions.append(&mut more);
        assert(actions_view(actions@) =~= a + b);
        actions
    }

    /// Accounts for the answer to one destroy request issued at shutdown,
    /// whether it succeeded or failed.
    pub fn on_cleanup_unloaded(&mut self)
        ensures
            final(self).num_pending_unloads == if old(self).num_pending_unloads > 0 {
                old(self).num_pending_unloads - 1
            } else {
                0
            },
            final(self).config == old(self).config,
            final(self).all_devices == old(self).all_devices,
            final(self).shutting_down == old(self).shutting_down,
    {
        if self.num_pending_unloads > 0 {
            self.num_pending_unloads = self.num_pending_unloads - 1;
        }
    }

    /// The rules of `rules` that a device with the given properties and owner satisfies.
    fn recognize(
        rules: &NamedMap<DeviceConfig>,
        proplist: &Properties,
        owner_module: Option<u32>,
        registry: &NamedMap<u32>,
    ) -> (r: Vec<String>)
        ensures
            string_views(r@) == matched_rules(rules.pairs(), *proplist, owner_module, *registry),
    {
        let mut recognized_as: Vec<String> = Vec::new();
        let mut i: usize = 0;
        while i < rules.len()
            invariant
                i <= rules.pairs().len(),
                string_views(recognized_as@) == matched_rules(
                    rules.pairs().subrange(0, i as int),
                    *proplist,
                    owner_module,
                    *registry,
                ),
            decreases rules.pairs().len() - i,
        {
            let name = rules.name_at(i);
            let match_context = DeviceMatchContext {
                device_config: rules.value_at(i),
                proplist,
                owner_module,
                remap_module_indices: registry,
                config_name: name.as_str(),
            };
            let ghost pre = rules.pairs().subrange(0, i as int);
            let ghost next = rules.pairs().subrange(0, i as int + 1);
            assert(next.drop_last() =~= pre);
            assert(next.last() == rules.pairs()[i as int]);
            let ghost before = string_views(recognized_as@);
            if check_device_match(&match_context) {
                recognized_as.push(name.clone());
                assert(string_views(recognized_as@) =~= before.push(name@));
            }
            i = i + 1;
        }
        assert(rules.pairs().subrange(0, rules.pairs().len() as int) =~= rules.pairs());
        recognized_as
    }

    /// Records a reported device with the rules of its kind that it satisfies,
    /// replacing what was known at its index; returns how many rules it satisfies.
    pub fn add_device(&mut self, kind: DeviceKind, info: &DeviceInfo) -> (r: usize)
        ensures
            final(self).same_except(old(self), kind),
            final(self).group(kind).found_devices@.len() >= 1,
            final(self).group(kind).found_devices@.drop_last() == other_devices(
                old(self).group(kind).found_devices@,
                info.index,
            ),
            ({
                let d = final(self).group(kind).found_devices@.last();
                &&& d.index == info.index
                &&& d.original_name@ == match info.name {
                    Some(n) => n@,
                    None => Seq::<char>::empty(),
                }
                &&& string_views(d.recognized_as@) == matched_rules(
                    old(self).rules(kind).pairs(),
                    info.proplist,
                    info.owner_module,
                    old(self).group(kind).remap_module_indices,
                )
                &&& r == d.recognized_as@.len()
            }),
            final(self).group(kind).remap_module_indices == old(self).group(kind).remap_module_indices,
            final(self).group(kind).pending_default_index == old(self).group(
                kind,
            ).pending_default_index,
            final(self).group(kind).deferred_default == old(self).group(kind).deferred_default,
    {
        let recognized_as = Self::recognize(
            self.get_definitions(kind),
            &info.proplist,
            info.owner_module,
            &self.select(kind).remap_module_indices,
        );
        let original_name = match &info.name {
            Some(n) => n.clone(),
            None => String::new(),
        };
        let match_count = recognized_as.len();
        let device = AudioDevice { index: info.index, original_name, recognized_as };
        let ghost d = device;
        match kind {
            DeviceKind::Sink => self.all_devices.sinks.insert_device(device),
            DeviceKind::Source => self.all_devices.sources.insert_device(device),
        }
        assert(self.group(kind).found_devices@.last() == d);
        assert(self.group(kind).found_devices@.drop_last() =~= other_devices(
            old(self).group(kind).found_devices@,
            info.index,
        ));
        match_count
    }

    /// Forgets the device of `kind` at server index `index`, if known.
    pub fn remove_device(&mut self, kind: DeviceKind, index: u32)
        ensures
            final(self).same_except(old(self), kind),
            final(self).group(kind).found_devices@ == other_devices(
                old(self).group(kind).found_devices@,
                index,
            ),
            final(self).group(kind).remap_module_indices == old(self).group(kind).remap_module_indices,
            final(self).group(kind).pending_default_index == old(self).group(
                kind,
            ).pending_default_index,
            final(self).group(kind).deferred_default == old(self).group(kind).deferred_default,
    {
        match kind {
            DeviceKind::Sink => self.all_devices.sinks.remove_device(index),
            DeviceKind::Source => self.all_devices.sources.remove_device(index),
        }
    }

    fn select(&self, kind: DeviceKind) -> (r: &AudioDeviceGroup)
        ensures
            *r == self.group(kind),
    {
        match kind {
            DeviceKind::Sink => &self.all_devices.sinks,
            DeviceKind::Source => &self.all_devices.sources,
        }
    }

    fn get_definitions(&self, kind: DeviceKind) -> (r: &NamedMap<DeviceConfig>)
        ensures
            *r == self.rules(kind),
    {
        match kind {
            DeviceKind::Sink => &self.config.sinks,
            DeviceKind::Source => &self.config.sources,
        }
    }
}

} // verus!
