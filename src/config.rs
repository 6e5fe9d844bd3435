use vstd::prelude::*;

use crate::table::NamedMap;

verus! {

/// Expected property values, keyed by property name.
pub type Properties = NamedMap<String>;

/// How a derived ("remap") device is created from its master device.
pub struct RemapConfig {
    /// The rule whose device the derived device is built on.
    pub master: String,
    pub device_name: Option<String>,
    pub device_properties: Option<Properties>,
    pub format: Option<String>,
    pub rate: Option<u32>,
    pub channels: Option<u32>,
    pub channel_map: Option<String>,
    pub master_channel_map: Option<String>,
    pub resample_method: Option<String>,
    pub remix: Option<bool>,
}

/// What a device must satisfy to be recognized by a rule.
pub enum DeviceMatchConfig {
    /// Every listed property is present with exactly the given value.
    Detect(Properties),
    /// The device was created by this daemon for the rule.
    Remap(RemapConfig),
}

/// A rule: an optional priority (lower wins; none means never a default) and a match clause.
pub struct DeviceConfig {
    pub priority: Option<u32>,
    pub match_config: DeviceMatchConfig,
}

/// The rules for each kind of device, keyed by rule name.
pub struct Config {
    pub sinks: NamedMap<DeviceConfig>,
    pub sources: NamedMap<DeviceConfig>,
}

/// The master named by rule `n`, where `n` is a derived-device rule of `t`.
pub open spec fn master_of(t: NamedMap<DeviceConfig>, n: Seq<char>) -> Option<Seq<char>> {
    if t.contains(n) {
        match t.value_of(n).match_config {
            DeviceMatchConfig::Remap(r) => Some(r.master@),
            DeviceMatchConfig::Detect(_) => None,
        }
    } else {
        None
    }
}

/// Where `k` steps along the master chain from `n` lead, if the chain is that long.
pub open spec fn walk(t: NamedMap<DeviceConfig>, n: Seq<char>, k: nat) -> Option<Seq<char>>
    decreases k,
{
    if k == 0 {
        Some(n)
    } else {
        match walk(t, n, (k - 1) as nat) {
            Some(m) => master_of(t, m),
            None => None,
        }
    }
}

/// Following masters from `n` comes back to `n`.
pub open spec fn on_cycle(t: NamedMap<DeviceConfig>, n: Seq<char>) -> bool {
    exists|k: nat| k >= 1 && walk(t, n, k) == Some(n)
}

/// Some chain of derived-device rules of `t` is circular (self-reference included).
pub open spec fn has_remap_cycle(t: NamedMap<DeviceConfig>) -> bool {
    exists|n: Seq<char>| on_cycle(t, n)
}

/// `c` is a cycle of `t` in traversal order, closed by repeating its first name,
/// with no name repeated before that.
pub open spec fn is_cycle_path(t: NamedMap<DeviceConfig>, c: Seq<Seq<char>>) -> bool {
    &&& c.len() >= 2
    &&& c[0] == c.last()
    &&& c.drop_last().no_duplicates()
    &&& forall|i: int| 0 <= i < c.len() - 1 ==> master_of(t, c[i]) == Some(c[i + 1])
}

/// The names of `c` joined with `" -> "`.
pub open spec fn arrow_join(c: Seq<Seq<char>>) -> Seq<char>
    decreases c.len(),
{
    if c.len() == 0 {
        Seq::empty()
    } else if c.len() == 1 {
        c[0]
    } else {
        arrow_join(c.drop_last()) + " -> "@ + c.last()
    }
}

/// The report of cycle `c` among the rules labelled `label`.
pub open spec fn cycle_message(label: Seq<char>, c: Seq<Seq<char>>) -> Seq<char> {
    "Circular reference detected in "@ + label + ": "@ + arrow_join(c)
}

pub open spec fn string_views(v: Seq<String>) -> Seq<Seq<char>> {
    v.map_values(|s: String| s@)
}

/// What `validate_remap_references` reports for the rules `t` labelled `label`.
pub open spec fn remap_check_result(
    t: NamedMap<DeviceConfig>,
    label: Seq<char>,
    r: Result<(), String>,
) -> bool {
    &&& r is Ok <==> !has_remap_cycle(t)
    &&& r is Err ==> exists|c: Seq<Seq<char>>|
        is_cycle_path(t, c) && r->Err_0@ == cycle_message(label, c)
}

proof fn lemma_walk_none_persists(t: NamedMap<DeviceConfig>, n: Seq<char>, a: nat, b: nat)
    requires
        a <= b,
        walk(t, n, a) is None,
    ensures
        walk(t, n, b) is None,
    decreases b - a,
{
    if a < b {
        lemma_walk_none_persists(t, n, a, (b - 1) as nat);
    }
}

/// Along a cycle path, `i` steps from its start reach its `i`-th name.
proof fn lemma_cycle_path_walk(t: NamedMap<DeviceConfig>, c: Seq<Seq<char>>, i: nat)
    requires
        is_cycle_path(t, c),
        i < c.len(),
    ensures
        walk(t, c[0], i) == Some(c[i as int]),
    decreases i,
{
    if i > 0 {
        lemma_cycle_path_walk(t, c, (i - 1) as nat);
    }
}

/// A cycle path is a walk that returns to its start.
proof fn lemma_cycle_path_on_cycle(t: NamedMap<DeviceConfig>, c: Seq<Seq<char>>)
    requires
        is_cycle_path(t, c),
    ensures
        on_cycle(t, c[0]),
        has_remap_cycle(t),
{
    let k = (c.len() - 1) as nat;
    lemma_cycle_path_walk(t, c, k);
    assert(walk(t, c[0], k) == Some(c[0]));
    assert(on_cycle(t, c[0]));
}

/// A repetition-free sequence of names that all occur in `b` is no longer than `b`.
proof fn lemma_distinct_within(a: Seq<Seq<char>>, b: Seq<Seq<char>>)
    requires
        a.no_duplicates(),
        forall|i: int| 0 <= i < a.len() ==> b.contains(#[trigger] a[i]),
    ensures
        a.len() <= b.len(),
{
    a.unique_seq_to_set();
    b.lemma_cardinality_of_set();
    assert(a.to_set().subset_of(b.to_set())) by {
        assert forall|x: Seq<char>| a.to_set().contains(x) implies b.to_set().contains(x) by {
            let i = choose|i: int| 0 <= i < a.len() && a[i] == x;
            assert(b.contains(a[i]));
        }
    }
    vstd::set_lib::lemma_len_subset(a.to_set(), b.to_set());
}

/// Follows masters from `start`: the cycle met on the way, if any, else `None`.
#[verifier::loop_isolation(false)]
fn find_cycle_from(devices: &NamedMap<DeviceConfig>, start: &String) -> (r: Option<Vec<String>>)
    ensures
        match r {
            None => !on_cycle(*devices, start@),
            Some(c) => is_cycle_path(*devices, string_views(c@)) && string_views(c@)[0]
                == string_views(c@).last(),
        },
{
    let ghost t = *devices;
    let mut path: Vec<String> = Vec::new();
    path.push(start.clone());
    assert(string_views(path@)[0] == start@);
    loop
        invariant
            path@.len() >= 1,
            path@.len() <= devices.pairs().len() + 1,
            string_views(path@)[0] == start@,
            string_views(path@).no_duplicates(),
            forall|i: int|
                0 <= i < path@.len() ==> walk(t, start@, i as nat) == Some(
                    #[trigger] string_views(path@)[i],
                ),
            forall|i: int|
                0 <= i < path@.len() - 1 ==> devices.contains(#[trigger] string_views(path@)[i]),
        decreases devices.pairs().len() + 1 - path@.len(),
    {
        let ghost p = string_views(path@);
        let last = path.len() - 1;
        assert(p.last() == path@[last as int]@);
        let found = devices.get(path[last].as_str());
        let master = match found {
            None => {
                proof {
                    self::lemma_end_of_walk(t, start@, p);
                }
                return None;
            },
            Some(d) => match &d.match_config {
                DeviceMatchConfig::Detect(_) => {
                    proof {
                        self::lemma_end_of_walk(t, start@, p);
                    }
                    return None;
                },
                DeviceMatchConfig::Remap(remap) => &remap.master,
            },
        };
        assert(master_of(t, p[last as int]) == Some(master@));
        assert(walk(t, start@, (last + 1) as nat) == Some(master@));
        let mut j: usize = 0;
        while j < path.len()
            invariant
                j <= path@.len(),
                p == string_views(path@),
                forall|q: int| 0 <= q < j ==> p[q] != master@,
            decreases path@.len() - j,
        {
            if path[j] == *master {
                let mut cycle: Vec<String> = Vec::new();
                let mut q: usize = j;
                while q < path.len()
                    invariant
                        j <= q <= path@.len(),
                        p == string_views(path@),
                        string_views(cycle@) == p.subrange(j as int, q as int),
                    decreases path@.len() - q,
                {
                    let ghost before = string_views(cycle@);
                    assert(p[q as int] == path@[q as int]@);
                    cycle.push(path[q].clone());
                    assert(string_views(cycle@) =~= before.push(p[q as int]));
                    assert(string_views(cycle@) =~= p.subrange(j as int, q as int + 1));
                    q = q + 1;
                }
                let ghost before = string_views(cycle@);
                cycle.push(master.clone());
                proof {
                    let c = string_views(cycle@);
                    assert(c =~= before.push(master@));
                    assert(c =~= p.subrange(j as int, p.len() as int).push(master@));
                    assert(c.drop_last() =~= p.subrange(j as int, p.len() as int));
                    assert forall|i: int| 0 <= i < c.len() - 1 implies master_of(t, c[i]) == Some(
                        c[i + 1],
                    ) by {
                        let a = j + i;
                        assert(walk(t, start@, a as nat) == Some(p[a]));
                        assert(walk(t, start@, (a + 1) as nat) == Some(c[i + 1]));
                    }
                    assert forall|x: int, y: int|
                        0 <= x < c.drop_last().len() && 0 <= y < c.drop_last().len() && x != y
                            implies c.drop_last()[x] != c.drop_last()[y] by {
                        assert(c.drop_last()[x] == p[j + x]);
                        assert(c.drop_last()[y] == p[j + y]);
                    }
                }
                return Some(cycle);
            }
            j = j + 1;
        }
        proof {
            lemma_distinct_within(p, devices.names());
        }
        path.push(master.clone());
        proof {
            let p2 = string_views(path@);
            assert(p2[p.len() as int] == master@);
            assert(p2 =~= p.push(master@));
            assert forall|x: int, y: int| 0 <= x < p2.len() && 0 <= y < p2.len() && x != y implies p2[x]
                != p2[y] by {
                if x < p.len() && y < p.len() {
                    assert(p2[x] == p[x] && p2[y] == p[y]);
                }
            }
            assert forall|i: int| 0 <= i < p2.len() implies walk(t, start@, i as nat) == Some(
                #[trigger] p2[i],
            ) by {
                if i < p.len() {
                    assert(p2[i] == p[i]);
                }
            }
            assert forall|i: int| 0 <= i < p2.len() - 1 implies devices.contains(#[trigger] p2[i]) by {
                assert(p2[i] == p[i]);
                if i < p.len() - 1 {
                } else {
                    assert(i == last);
                }
            }
        }
    }
}

/// A walk that stops at its last name without repeating never returns to its start.
proof fn lemma_end_of_walk(t: NamedMap<DeviceConfig>, start: Seq<char>, p: Seq<Seq<char>>)
    requires
        p.len() >= 1,
        p[0] == start,
        p.no_duplicates(),
        forall|i: int| 0 <= i < p.len() ==> walk(t, start, i as nat) == Some(#[trigger] p[i]),
        master_of(t, p.last()) is None,
    ensures
        !on_cycle(t, start),
{
    let l = (p.len() - 1) as nat;
    assert(walk(t, start, l) == Some(p[l as int]));
    assert(walk(t, start, l + 1) is None);
    if on_cycle(t, start) {
        let k = choose|k: nat| k >= 1 && walk(t, start, k) == Some(start);
        if k > l {
            lemma_walk_none_persists(t, start, l + 1, k);
        } else {
            assert(walk(t, start, k) == Some(p[k as int]));
            assert(p[k as int] == p[0]);
        }
    }
}

/// Writes the names of `c` joined with `" -> "`.
fn join_with_arrows(c: &Vec<String>) -> (r: String)
    ensures
        r@ == arrow_join(string_views(c@)),
{
    let mut r = String::new();
    if c.len() == 0 {
        assert(string_views(c@) =~= Seq::<Seq<char>>::empty());
        return r;
    }
    r.append(c[0].as_str());
    assert(string_views(c@).subrange(0, 1).drop_last() =~= Seq::<Seq<char>>::empty());
    let mut i: usize = 1;
    while i < c.len()
        invariant
            1 <= i <= c@.len(),
            r@ == arrow_join(string_views(c@).subrange(0, i as int)),
        decreases c@.len() - i,
    {
        r.append(" -> ");
        r.append(c[i].as_str());
        assert(string_views(c@).subrange(0, i as int + 1).drop_last() =~= string_views(
            c@,
        ).subrange(0, i as int));
        i = i + 1;
    }
    assert(string_views(c@).subrange(0, c@.len() as int) =~= string_views(c@));
    r
}

impl Default for Config {
    /// No rules of either kind.
    fn default() -> (r: Self)
        ensures
            r.sinks.pairs().len() == 0,
            r.sources.pairs().len() == 0,
    {
        Config { sinks: NamedMap::new(), sources: NamedMap::new() }
    }
}

impl Config {
    /// Checks each kind's rules for circular chains of derived-device masters,
    /// sinks first.
    pub fn validate(&self) -> (r: Result<(), String>)
        ensures
            r is Ok <==> (!has_remap_cycle(self.sinks) && !has_remap_cycle(self.sources)),
            has_remap_cycle(self.sinks) ==> remap_check_result(self.sinks, "sinks"@, r),
            !has_remap_cycle(self.sinks) ==> remap_check_result(self.sources, "sources"@, r),
    {
        Self::validate_remap_references(&self.sinks, "sinks")?;
        Self::validate_remap_references(&self.sources, "sources")?;
        Ok(())
    }

    /// Walks the master chain of every rule of `devices`; the first cycle met is
    /// reported with `device_type` as its label.
    pub fn validate_remap_references(
        devices: &NamedMap<DeviceConfig>,
        device_type: &str,
    ) -> (r: Result<(), String>)
        ensures
            remap_check_result(*devices, device_type@, r),
    {
        let mut i: usize = 0;
        while i < devices.len()
            invariant
                i <= devices.names().len(),
                forall|j: int| 0 <= j < i ==> !on_cycle(*devices, #[trigger] devices.names()[j]),
            decreases devices.names().len() - i,
        {
            match find_cycle_from(devices, devices.name_at(i)) {
                Some(cycle) => {
                    let mut msg = String::from_str("Circular reference detected in ");
                    msg.append(device_type);
                    msg.append(": ");
                    let joined = join_with_arrows(&cycle);
                    msg.append(joined.as_str());
                    proof {
                        lemma_cycle_path_on_cycle(*devices, string_views(cycle@));
                    }
                    return Err(msg);
                },
                None => {},
            }
            i = i + 1;
        }
        proof {
            if has_remap_cycle(*devices) {
                let n = choose|n: Seq<char>| on_cycle(*devices, n);
                if devices.contains(n) {
                    let j = choose|j: int| 0 <= j < devices.names().len() && devices.names()[j] == n;
                    assert(!on_cycle(*devices, devices.names()[j]));
                } else {
                    assert(walk(*devices, n, 0) == Some(n));
                    assert(walk(*devices, n, 1) is None);
                    let k = choose|k: nat| k >= 1 && walk(*devices, n, k) == Some(n);
                    lemma_walk_none_persists(*devices, n, 1, k);
                }
            }
        }
        Ok(())
    }
}

} // verus!
