use vstd::prelude::*;

use crate::config::{
    has_remap_cycle, is_cycle_path, master_of, on_cycle, walk, DeviceConfig, DeviceMatchConfig,
    Properties,
};
use crate::matching::rule_matches;
use crate::state::{
    cleanup_plan, default_result_step, default_update_step, has_match, is_best_default,
    is_candidate, load_plan, name_for_index, opt_view, should_unload, unload_plan, ActionView,
    AudioDeviceGroup, DeviceKind,
};
use crate::table::NamedMap;

verus! {

/// A rule that names itself as its master forms a cycle of one, reported as `a -> a`.
pub proof fn law_self_reference_is_cycle(t: NamedMap<DeviceConfig>, n: Seq<char>)
    requires
        master_of(t, n) == Some(n),
    ensures
        has_remap_cycle(t),
        is_cycle_path(t, seq![n, n]),
{
    assert(walk(t, n, 0) == Some(n));
    assert(walk(t, n, 1) == Some(n));
    assert(on_cycle(t, n));
    let c = seq![n, n];
    assert(c.drop_last() =~= seq![n]);
}

/// Rules whose masters never name a rule of the table form no cycle: a master
/// that does not exist ends the chain.
pub proof fn law_dangling_masters_are_acyclic(t: NamedMap<DeviceConfig>)
    requires
        forall|n: Seq<char>| #[trigger] master_of(t, n) matches Some(m) ==> !t.contains(m),
    ensures
        !has_remap_cycle(t),
{
    assert forall|n: Seq<char>| !on_cycle(t, n) by {
        if on_cycle(t, n) {
            let k = choose|k: nat| k >= 1 && walk(t, n, k) == Some(n);
            lemma_walk_never_returns(t, n, k);
        }
    }
}

proof fn lemma_walk_never_returns(t: NamedMap<DeviceConfig>, n: Seq<char>, k: nat)
    requires
        forall|x: Seq<char>| #[trigger] master_of(t, x) matches Some(m) ==> !t.contains(m),
        k >= 1,
    ensures
        walk(t, n, k) != Some(n),
    decreases k,
{
    assert(walk(t, n, 0) == Some(n));
    if k == 1 {
        if walk(t, n, 1) == Some(n) {
            assert(master_of(t, n) == Some(n));
            assert(!t.contains(n));
        }
    } else {
        lemma_walk_never_returns(t, n, (k - 1) as nat);
        match walk(t, n, (k - 1) as nat) {
            Some(m) => {
                if walk(t, n, k) == Some(n) {
                    assert(master_of(t, m) == Some(n));
                    assert(!t.contains(n));
                    // `n` stepped somewhere, so `n` is a rule of the table
                    assert(walk(t, n, 1) == master_of(t, n));
                    lemma_first_step_from_rule(t, n, (k - 1) as nat);
                }
            },
            None => {},
        }
    }
}

proof fn lemma_first_step_from_rule(t: NamedMap<DeviceConfig>, n: Seq<char>, k: nat)
    requires
        k >= 1,
        walk(t, n, k) is Some,
    ensures
        t.contains(n),
    decreases k,
{
    if k > 1 {
        lemma_first_step_from_rule(t, n, (k - 1) as nat);
    } else {
        assert(walk(t, n, 0) == Some(n));
    }
}

/// A property-equality rule with no expected properties matches every device,
/// whatever its properties (none included) and owner.
pub proof fn law_empty_detect_matches_all(
    cfg: DeviceConfig,
    props: Properties,
    owner: Option<u32>,
    registry: NamedMap<u32>,
    name: Seq<char>,
)
    requires
        cfg.match_config matches DeviceMatchConfig::Detect(e) && e.pairs().len() == 0,
    ensures
        rule_matches(cfg, props, owner, registry, name),
{
}

/// A derived-device rule never matches a device without an owner, nor one whose
/// owner differs from the handle recorded for exactly that rule (or when none is).
pub proof fn law_remap_needs_recorded_owner(
    cfg: DeviceConfig,
    props: Properties,
    owner: Option<u32>,
    registry: NamedMap<u32>,
    name: Seq<char>,
)
    requires
        cfg.match_config is Remap,
        owner is None || !registry.contains(name) || registry@[name] != owner->Some_0,
    ensures
        !rule_matches(cfg, props, owner, registry, name),
{
}

/// When no device satisfies a rule that has a priority, there is no best default,
/// and re-evaluation leaves default selection idle without issuing a request.
pub proof fn law_no_candidate_goes_idle(
    kind: DeviceKind,
    old: AudioDeviceGroup,
    new: AudioDeviceGroup,
    rules: NamedMap<DeviceConfig>,
    best: Option<(Seq<char>, u32)>,
    issued: Option<ActionView>,
)
    requires
        forall|p: int, q: int| !is_candidate(old.found_devices@, rules, p, q),
        is_best_default(old.found_devices@, rules, best),
        default_update_step(kind, old, new, best, issued),
    ensures
        best is None,
        new.pending_default_index is None,
        new.deferred_default is None,
        issued is None,
{
    if let Some((rule, index)) = best {
        let (p, q) = choose|p: int, q: int|
            {
                &&& #[trigger] is_candidate(old.found_devices@, rules, p, q)
                &&& old.found_devices@[p].index == index
                &&& old.found_devices@[p].recognized_as@[q]@ == rule
                &&& forall|p2: int, q2: int| #[trigger]
                    is_candidate(old.found_devices@, rules, p2, q2) ==> crate::state::candidate_priority(
                        old.found_devices@,
                        rules,
                        p,
                        q,
                    ) <= crate::state::candidate_priority(old.found_devices@, rules, p2, q2) && (
                    crate::state::candidate_priority(old.found_devices@, rules, p, q)
                        == crate::state::candidate_priority(old.found_devices@, rules, p2, q2)
                        ==> index <= old.found_devices@[p2].index)
            };
        assert(!is_candidate(old.found_devices@, rules, p, q));
    }
}

/// A new target that arrives while a set-default request is outstanding issues no
/// second request and is deferred; when the outstanding request succeeds, exactly
/// one request follows, for the latest target.
pub proof fn law_deferred_target_follows_success(
    kind: DeviceKind,
    g0: AudioDeviceGroup,
    g1: AudioDeviceGroup,
    g2: AudioDeviceGroup,
    rule: Seq<char>,
    index: u32,
    issued_on_update: Option<ActionView>,
    issued_on_success: Option<ActionView>,
)
    requires
        g0.pending_default_index is Some,
        default_update_step(kind, g0, g1, Some((rule, index)), issued_on_update),
        g1.found_devices == g0.found_devices,
        name_for_index(g0.found_devices@, index) is Some,
        default_result_step(kind, g1, g2, true, issued_on_success),
    ensures
        issued_on_update is None,
        opt_view(g1.deferred_default) == Some(rule),
        g1.pending_default_index == Some(index),
        issued_on_success == Some(
            ActionView::SetDefault {
                kind,
                index,
                name: name_for_index(g0.found_devices@, index)->Some_0,
            },
        ),
        g2.pending_default_index == Some(index),
        g2.deferred_default is None,
{
}

/// Every create request of a load pass is for a derived-device rule that is not
/// yet created and whose master rule some device satisfies: a rule whose master
/// has no device, or whose device exists already, is never created.
pub proof fn law_load_only_missing_with_master(
    kind: DeviceKind,
    rules: Seq<(Seq<char>, DeviceConfig)>,
    g: AudioDeviceGroup,
    j: int,
)
    requires
        0 <= j < load_plan(kind, rules, g).len(),
    ensures
        load_plan(kind, rules, g)[j] matches ActionView::LoadModule { kind: k, config_name: n, .. }
            && k == kind && !g.remap_module_indices.contains(n) && exists|i: int|
            0 <= i < rules.len() && rules[i].0 == n && (
            #[trigger] rules[i].1.match_config matches DeviceMatchConfig::Remap(r) && has_match(
                g.found_devices@,
                r.master@,
            )),
    decreases rules.len(),
{
    let rest = load_plan(kind, rules.drop_last(), g);
    if j < rest.len() {
        law_load_only_missing_with_master(kind, rules.drop_last(), g, j);
        if let ActionView::LoadModule { config_name: n, .. } = load_plan(kind, rules, g)[j] {
            let i = choose|i: int|
                0 <= i < rules.drop_last().len() && rules.drop_last()[i].0 == n && (
                #[trigger] rules.drop_last()[i].1.match_config matches DeviceMatchConfig::Remap(r)
                    && has_match(g.found_devices@, r.master@));
            assert(rules[i] == rules.drop_last()[i]);
        }
    } else {
        let i = rules.len() - 1;
        assert(rules[i] == rules.last());
    }
}

/// Once no device satisfies the master rule of a created derived device, the
/// next unload pass issues the destroy request for it.
pub proof fn law_unload_when_master_gone(
    kind: DeviceKind,
    created: Seq<(Seq<char>, u32)>,
    rules: NamedMap<DeviceConfig>,
    devs: Seq<crate::state::AudioDevice>,
    i: int,
)
    requires
        0 <= i < created.len(),
        rules.contains(created[i].0),
        rules@[created[i].0].match_config matches DeviceMatchConfig::Remap(r) && !has_match(
            devs,
            r.master@,
        ),
    ensures
        unload_plan(kind, created, rules, devs).contains(
            ActionView::UnloadModule { kind, config_name: created[i].0, module_index: created[i].1 },
        ),
    decreases created.len(),
{
    assert(should_unload(rules, devs, created[i].0));
    let a = ActionView::UnloadModule {
        kind,
        config_name: created[i].0,
        module_index: created[i].1,
    };
    let plan = unload_plan(kind, created, rules, devs);
    let rest = unload_plan(kind, created.drop_last(), rules, devs);
    if i == created.len() - 1 {
        assert(plan.last() == a);
        assert(plan[plan.len() - 1] == a);
    } else {
        assert(created.drop_last()[i] == created[i]);
        law_unload_when_master_gone(kind, created.drop_last(), rules, devs, i);
        let w = choose|w: int| 0 <= w < rest.len() && rest[w] == a;
        assert(plan[w] == a);
    }
}

/// What is still pending after `k` answers to shutdown destroy requests, from `c`.
pub open spec fn pending_after(c: nat, k: nat) -> nat
    decreases k,
{
    if k == 0 {
        c
    } else if pending_after(c, (k - 1) as nat) > 0 {
        (pending_after(c, (k - 1) as nat) - 1) as nat
    } else {
        0
    }
}

/// Shutdown issues one destroy request per tracked derived device, and once as
/// many answers have arrived, successes and failures alike, none is pending.
pub proof fn law_shutdown_drains(
    sinks: Seq<(Seq<char>, u32)>,
    sources: Seq<(Seq<char>, u32)>,
)
    ensures
        (cleanup_plan(DeviceKind::Sink, sinks) + cleanup_plan(DeviceKind::Source, sources)).len()
            == sinks.len() + sources.len(),
        pending_after(sinks.len() + sources.len(), sinks.len() + sources.len()) == 0,
{
    lemma_pending_after(sinks.len() + sources.len(), sinks.len() + sources.len());
}

proof fn lemma_pending_after(c: nat, k: nat)
    requires
        k <= c,
    ensures
        pending_after(c, k) == c - k,
    decreases k,
{
    if k > 0 {
        lemma_pending_after(c, (k - 1) as nat);
    }
}

} // verus!
