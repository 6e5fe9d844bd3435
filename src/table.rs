use vstd::prelude::*;

verus! {

/// `i` is the first position of `k` in `s`.
pub open spec fn is_first(s: Seq<Seq<char>>, k: Seq<char>, i: int) -> bool {
    &&& 0 <= i < s.len()
    &&& s[i] == k
    &&& forall|j: int| 0 <= j < i ==> s[j] != k
}

/// The first position of `k` in `s`; meaningful only where `s` contains `k`.
pub open spec fn first_index(s: Seq<Seq<char>>, k: Seq<char>) -> int {
    choose|i: int| is_first(s, k, i)
}

pub proof fn lemma_first_unique(s: Seq<Seq<char>>, k: Seq<char>, i: int)
    requires
        is_first(s, k, i),
    ensures
        first_index(s, k) == i,
{
    let j = first_index(s, k);
    assert(is_first(s, k, j));
    if j < i {
        assert(s[j] != k);
    }
    if i < j {
        assert(s[i] != k);
    }
}

pub proof fn lemma_first_exists(s: Seq<Seq<char>>, k: Seq<char>)
    requires
        s.contains(k),
    ensures
        is_first(s, k, first_index(s, k)),
    decreases s.len(),
{
    let t = s.drop_last();
    if t.contains(k) {
        lemma_first_exists(t, k);
        let i = first_index(t, k);
        assert forall|j: int| 0 <= j <= i implies s[j] == t[j] by {}
        assert(is_first(s, k, i));
        lemma_first_unique(s, k, i);
    } else {
        let i = s.len() - 1;
        assert(s[i] == k) by {
            let w = choose|w: int| 0 <= w < s.len() && s[w] == k;
            if w < i {
                assert(t[w] == k);
            }
        }
        assert forall|j: int| 0 <= j < i implies s[j] != k by {
            if s[j] == k {
                assert(t[j] == k);
            }
        }
        assert(is_first(s, k, i));
        lemma_first_unique(s, k, i);
    }
}

/// The names of a sequence of named entries, in order.
pub open spec fn names_of<V>(s: Seq<(Seq<char>, V)>) -> Seq<Seq<char>> {
    s.map_values(|e: (Seq<char>, V)| e.0)
}

/// A table keyed by name that keeps its entries in insertion order.
///
/// Inserting under a name already present replaces that entry's value in
/// place, so no two entries share a name; a lookup finds the first entry
/// with the name.
pub struct NamedMap<V> {
    entries: Vec<(String, V)>,
}

impl<V> NamedMap<V> {
    /// The entries as (name, value) pairs, in insertion order.
    pub closed spec fn pairs(&self) -> Seq<(Seq<char>, V)> {
        self.entries@.map_values(|e: (String, V)| (e.0@, e.1))
    }

    /// The names of the entries, in insertion order.
    pub open spec fn names(&self) -> Seq<Seq<char>> {
        names_of(self.pairs())
    }

    pub open spec fn contains(&self, k: Seq<char>) -> bool {
        self.names().contains(k)
    }

    /// The value stored under `k`; meaningful only where `contains(k)`.
    pub open spec fn value_of(&self, k: Seq<char>) -> V {
        self.pairs()[first_index(self.names(), k)].1
    }

    pub open spec fn view(&self) -> Map<Seq<char>, V> {
        Map::new(|k: Seq<char>| self.contains(k), |k: Seq<char>| self.value_of(k))
    }

    pub fn new() -> (r: Self)
        ensures
            r.pairs() == Seq::<(Seq<char>, V)>::empty(),
            r@ == Map::<Seq<char>, V>::empty(),
    {
        let r = NamedMap { entries: Vec::new() };
        assert(r.pairs() =~= Seq::<(Seq<char>, V)>::empty());
        assert(r@ =~= Map::<Seq<char>, V>::empty());
        r
    }

    pub fn len(&self) -> (r: usize)
        ensures
            r == self.pairs().len(),
    {
        self.entries.len()
    }

    /// The name of the entry at position `i`.
    pub fn name_at(&self, i: usize) -> (r: &String)
        requires
            i < self.pairs().len(),
        ensures
            r@ == self.pairs()[i as int].0,
    {
        &self.entries[i].0
    }

    /// The value of the entry at position `i`.
    pub fn value_at(&self, i: usize) -> (r: &V)
        requires
            i < self.pairs().len(),
        ensures
            *r == self.pairs()[i as int].1,
    {
        &self.entries[i].1
    }

    /// The position of the first entry named `k`, if there is one.
    pub fn position(&self, k: &str) -> (r: Option<usize>)
        ensures
            match r {
                Some(i) => self.contains(k@) && i == first_index(self.names(), k@) && is_first(
                    self.names(),
                    k@,
                    i as int,
                ),
                None => !self.contains(k@),
            },
    {
        let key = k.to_owned();
        let mut i: usize = 0;
        while i < self.entries.len()
            invariant
                key@ == k@,
                i <= self.entries@.len(),
                forall|j: int| 0 <= j < i ==> self.names()[j] != k@,
            decreases self.entries@.len() - i,
        {
            if self.entries[i].0 == key {
                proof {
                    assert(self.names()[i as int] == k@);
                    assert(is_first(self.names(), k@, i as int));
                    lemma_first_unique(self.names(), k@, i as int);
                }
                return Some(i);
            }
            i = i + 1;
        }
        None
    }

    pub fn contains_key(&self, k: &str) -> (r: bool)
        ensures
            r == self.contains(k@),
    {
        self.position(k).is_some()
    }

    pub fn get(&self, k: &str) -> (r: Option<&V>)
        ensures
            match r {
                Some(v) => self.contains(k@) && *v == self.value_of(k@),
                None => !self.contains(k@),
            },
    {
        match self.position(k) {
            Some(i) => Some(&self.entries[i].1),
            None => None,
        }
    }

    /// Stores `v` under `k`: in place where `k` is present, else at the end.
    pub fn insert(&mut self, k: String, v: V)
        ensures
            old(self).contains(k@) ==> final(self).pairs() == old(self).pairs().update(
                first_index(old(self).names(), k@),
                (k@, v),
            ),
            !old(self).contains(k@) ==> final(self).pairs() == old(self).pairs().push((k@, v)),
            final(self)@ == old(self)@.insert(k@, v),
    {
        let ghost old_map = self@;
        let ghost old_pairs = self.pairs();
        let ghost kv = k@;
        match self.position(k.as_str()) {
            Some(i) => {
                self.entries.set(i, (k, v));
                assert(self.pairs() =~= old_pairs.update(i as int, (kv, v)));
                proof {
                    lemma_first_exists(names_of(old_pairs), kv);
                    lemma_update_view(old_pairs, i as int, kv, v);
                }
            },
            None => {
                self.entries.push((k, v));
                assert(self.pairs() =~= old_pairs.push((kv, v)));
                proof {
                    lemma_push_view(old_pairs, kv, v);
                }
            },
        }
        assert(self@ =~= old_map.insert(kv, v));
    }
    /// Drops every entry named `k`, keeping the others in order.
    pub fn remove(&mut self, k: &str)
        ensures
            final(self).pairs() == without(old(self).pairs(), k@),
            final(self)@ == old(self)@.remove(k@),
    {
        let ghost old_pairs = self.pairs();
        let ghost old_map = self@;
        let key = k.to_owned();
        let ghost total = old_pairs.len();
        let ghost mut done: int = 0;
        let mut i: usize = 0;
        while i < self.entries.len()
            invariant
                key@ == k@,
                0 <= done <= total,
                total == old_pairs.len(),
                i == without(old_pairs.subrange(0, done), k@).len(),
                self.pairs() == without(old_pairs.subrange(0, done), k@) + old_pairs.subrange(
                    done,
                    total as int,
                ),
            decreases total - done,
        {
            let ghost before = self.pairs();
            let ghost w = without(old_pairs.subrange(0, done), k@);
            assert(before[i as int] == old_pairs[done]);
            assert(old_pairs.subrange(0, done + 1).drop_last() =~= old_pairs.subrange(0, done));
            assert(old_pairs.subrange(0, done + 1).last() == old_pairs[done]);
            if self.entries[i].0 == key {
                self.entries.remove(i);
                assert(self.pairs() =~= before.remove(i as int));
                assert(before =~= w + old_pairs.subrange(done, total as int));
                assert(self.pairs() =~= w + old_pairs.subrange(done + 1, total as int));
            } else {
                i = i + 1;
                assert(self.pairs() =~= w.push(old_pairs[done]) + old_pairs.subrange(
                    done + 1,
                    total as int,
                ));
            }
            proof {
                done = done + 1;
            }
        }
        proof {
            assert(old_pairs.subrange(0, total as int) =~= old_pairs);
            assert(self.pairs() =~= without(old_pairs, k@));
            lemma_filter_view(old_pairs, k@);
        }
        assert(self@ =~= old_map.remove(k@));
    }
}

/// Replacing the first entry named `k` changes what `k` finds and nothing else.
proof fn lemma_update_view<V>(s: Seq<(Seq<char>, V)>, i: int, k: Seq<char>, v: V)
    requires
        is_first(names_of(s), k, i),
    ensures
        forall|q: Seq<char>|
            names_of(s.update(i, (k, v))).contains(q) == names_of(s).contains(q),
        forall|q: Seq<char>|
            #![trigger first_index(names_of(s.update(i, (k, v))), q)]
            names_of(s).contains(q) ==> s.update(i, (k, v))[first_index(
                names_of(s.update(i, (k, v))),
                q,
            )].1 == if q == k {
                v
            } else {
                s[first_index(names_of(s), q)].1
            },
{
    let t = s.update(i, (k, v));
    assert(names_of(t) =~= names_of(s));
    assert forall|q: Seq<char>| names_of(s).contains(q) implies t[first_index(names_of(t), q)].1
        == if q == k {
        v
    } else {
        s[first_index(names_of(s), q)].1
    } by {
        lemma_first_exists(names_of(s), q);
    }
}

/// Appending an entry under a new name `k` makes `k` find it and changes nothing else.
proof fn lemma_push_view<V>(s: Seq<(Seq<char>, V)>, k: Seq<char>, v: V)
    requires
        !names_of(s).contains(k),
    ensures
        forall|q: Seq<char>|
            names_of(s.push((k, v))).contains(q) == (names_of(s).contains(q) || q == k),
        forall|q: Seq<char>|
            #![trigger first_index(names_of(s.push((k, v))), q)]
            names_of(s.push((k, v))).contains(q) ==> s.push((k, v))[first_index(
                names_of(s.push((k, v))),
                q,
            )].1 == if q == k {
                v
            } else {
                s[first_index(names_of(s), q)].1
            },
{
    let t = s.push((k, v));
    let n = names_of(s);
    let nt = names_of(t);
    assert(nt =~= n.push(k));
    assert forall|q: Seq<char>| nt.contains(q) == (n.contains(q) || q == k) by {
        if nt.contains(q) && q != k {
            let j = choose|j: int| 0 <= j < nt.len() && nt[j] == q;
            assert(n[j] == q);
        }
        if n.contains(q) {
            let j = choose|j: int| 0 <= j < n.len() && n[j] == q;
            assert(nt[j] == q);
        }
        if q == k {
            assert(nt[n.len() as int] == k);
        }
    }
    assert forall|q: Seq<char>| nt.contains(q) implies t[first_index(nt, q)].1 == if q == k {
        v
    } else {
        s[first_index(n, q)].1
    } by {
        if q == k {
            assert forall|j: int| 0 <= j < n.len() implies nt[j] != k by {
                assert(nt[j] == n[j]);
            }
            assert(is_first(nt, k, n.len() as int));
            lemma_first_unique(nt, k, n.len() as int);
        } else {
            lemma_first_exists(n, q);
            let j = first_index(n, q);
            assert(is_first(nt, q, j));
            lemma_first_unique(nt, q, j);
        }
    }
}

/// Pushing an entry changes the first position of no name already present.
proof fn lemma_push_first(s: Seq<Seq<char>>, x: Seq<char>, q: Seq<char>)
    ensures
        s.push(x).contains(q) == (s.contains(q) || q == x),
        s.contains(q) ==> first_index(s.push(x), q) == first_index(s, q),
        !s.contains(q) && q == x ==> first_index(s.push(x), q) == s.len(),
{
    let t = s.push(x);
    if s.contains(q) {
        lemma_first_exists(s, q);
        let i = first_index(s, q);
        assert(is_first(t, q, i));
        lemma_first_unique(t, q, i);
    } else if q == x {
        assert(t[s.len() as int] == q);
        assert(is_first(t, q, s.len() as int));
        lemma_first_unique(t, q, s.len() as int);
    }
    if t.contains(q) && q != x {
        let j = choose|j: int| 0 <= j < t.len() && t[j] == q;
        assert(s[j] == q);
    }
}

/// The entries of `s` not named `k`, in order.
pub open spec fn without<V>(s: Seq<(Seq<char>, V)>, k: Seq<char>) -> Seq<(Seq<char>, V)>
    decreases s.len(),
{
    if s.len() == 0 {
        s
    } else if s.last().0 == k {
        without(s.drop_last(), k)
    } else {
        without(s.drop_last(), k).push(s.last())
    }
}

/// Dropping the entries named `k` leaves every other name finding the same value.
proof fn lemma_filter_view<V>(s: Seq<(Seq<char>, V)>, k: Seq<char>)
    ensures
        forall|q: Seq<char>|
            #[trigger] names_of(without(s, k)).contains(q) == (names_of(s).contains(q) && q != k),
        forall|q: Seq<char>|
            #![trigger first_index(names_of(without(s, k)), q)]
            names_of(s).contains(q) && q != k ==> without(s, k)[first_index(
                names_of(without(s, k)),
                q,
            )].1 == s[first_index(names_of(s), q)].1,
    decreases s.len(),
{
    if s.len() == 0 {
        assert(names_of(s) =~= Seq::<Seq<char>>::empty());
    } else {
        let d = s.drop_last();
        let x = s.last();
        lemma_filter_view(d, k);
        assert(s =~= d.push(x));
        assert(names_of(s) =~= names_of(d).push(x.0));
        let fd = without(d, k);
        assert(names_of(fd.push(x)) =~= names_of(fd).push(x.0));
        assert forall|q: Seq<char>| #[trigger] names_of(without(s, k)).contains(q) == (names_of(
            s,
        ).contains(q) && q != k) by {
            lemma_push_first(names_of(d), x.0, q);
            lemma_push_first(names_of(fd), x.0, q);
        }
        assert forall|q: Seq<char>| names_of(s).contains(q) && q != k implies without(
            s,
            k,
        )[first_index(names_of(without(s, k)), q)].1 == s[first_index(names_of(s), q)].1 by {
            lemma_push_first(names_of(d), x.0, q);
            lemma_push_first(names_of(fd), x.0, q);
            if names_of(d).contains(q) {
                lemma_first_exists(names_of(d), q);
                lemma_first_exists(names_of(fd), q);
                assert(s[first_index(names_of(d), q)] == d[first_index(names_of(d), q)]);
                if x.0 != k {
                    assert(fd.push(x)[first_index(names_of(fd), q)] == fd[first_index(
                        names_of(fd),
                        q,
                    )]);
                }
            } else {
                assert(q == x.0);
                assert(names_of(fd).len() == fd.len());
            }
        }
    }
}

} // verus!
