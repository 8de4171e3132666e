use vstd::prelude::*;

use crate::pos::IVec3;

verus! {

/// A map keyed by lattice positions, kept as a list of entries with distinct
/// keys.
pub struct PosMap<V> {
    entries: Vec<(IVec3, V)>,
}

/// The entries' keys are pairwise distinct.
pub open spec fn keys_distinct<V>(s: Seq<(IVec3, V)>) -> bool {
    forall|i: int, j: int| 0 <= i < s.len() && 0 <= j < s.len() && s[i].0 == s[j].0 ==> i == j
}

/// The map that a list of entries with distinct keys stands for.
pub open spec fn entries_map<V>(s: Seq<(IVec3, V)>) -> Map<IVec3, V> {
    Map::new(
        |k: IVec3| exists|i: int| 0 <= i < s.len() && s[i].0 == k,
        |k: IVec3| s[choose|i: int| 0 <= i < s.len() && s[i].0 == k].1,
    )
}

pub proof fn lemma_entries_map_at<V>(s: Seq<(IVec3, V)>, i: int)
    requires
        keys_distinct(s),
        0 <= i < s.len(),
    ensures
        entries_map(s).contains_key(s[i].0),
        entries_map(s)[s[i].0] == s[i].1,
{
    let k = s[i].0;
    assert(exists|j: int| 0 <= j < s.len() && s[j].0 == k);
    let c = choose|j: int| 0 <= j < s.len() && s[j].0 == k;
    assert(c == i);
}

proof fn lemma_entries_map_update<V>(s: Seq<(IVec3, V)>, i: int, v: V)
    requires
        keys_distinct(s),
        0 <= i < s.len(),
    ensures
        keys_distinct(s.update(i, (s[i].0, v))),
        entries_map(s.update(i, (s[i].0, v))) == entries_map(s).insert(s[i].0, v),
{
    let t = s.update(i, (s[i].0, v));
    let m = entries_map(s).insert(s[i].0, v);
    assert forall|k: IVec3| #[trigger] entries_map(t).contains_key(k) <==> m.contains_key(k) by {
        if k == s[i].0 {
            assert(t[i].0 == k);
        } else if m.contains_key(k) {
            assert(entries_map(s).contains_key(k));
            let j = choose|j: int| 0 <= j < s.len() && s[j].0 == k;
            assert(t[j].0 == k);
        } else if entries_map(t).contains_key(k) {
            let j = choose|j: int| 0 <= j < t.len() && t[j].0 == k;
            assert(s[j].0 == k);
        }
    }
    assert forall|k: IVec3| #[trigger] entries_map(t).contains_key(k) implies entries_map(t)[k]
        == m[k] by {
        let j = choose|j: int| 0 <= j < t.len() && t[j].0 == k;
        lemma_entries_map_at(t, j);
        if j != i {
            lemma_entries_map_at(s, j);
        }
    }
    assert(entries_map(t) =~= m);
}

proof fn lemma_entries_map_update_all<V>(s: Seq<(IVec3, V)>, i: int)
    requires
        keys_distinct(s),
        0 <= i < s.len(),
    ensures
        forall|v: V|
            keys_distinct(#[trigger] s.update(i, (s[i].0, v))) && entries_map(
                s.update(i, (s[i].0, v)),
            ) == entries_map(s).insert(s[i].0, v),
{
    assert forall|v: V|
        keys_distinct(#[trigger] s.update(i, (s[i].0, v))) && entries_map(s.update(i, (s[i].0, v)))
            == entries_map(s).insert(s[i].0, v) by {
        lemma_entries_map_update(s, i, v);
    }
}

proof fn lemma_entries_map_push<V>(s: Seq<(IVec3, V)>, k: IVec3, v: V)
    requires
        keys_distinct(s),
        !entries_map(s).contains_key(k),
    ensures
        keys_distinct(s.push((k, v))),
        entries_map(s.push((k, v))) == entries_map(s).insert(k, v),
{
    let t = s.push((k, v));
    let m = entries_map(s).insert(k, v);
    assert forall|i: int, j: int|
        0 <= i < t.len() && 0 <= j < t.len() && t[i].0 == t[j].0 implies i == j by {
        if i < s.len() && j == s.len() {
            assert(entries_map(s).contains_key(s[i].0));
        }
        if j < s.len() && i == s.len() {
            assert(entries_map(s).contains_key(s[j].0));
        }
    }
    assert forall|q: IVec3| #[trigger] entries_map(t).contains_key(q) <==> m.contains_key(q) by {
        if m.contains_key(q) && q != k {
            let j = choose|j: int| 0 <= j < s.len() && s[j].0 == q;
            assert(t[j].0 == q);
        }
        if m.contains_key(q) && q == k {
            assert(t[s.len() as int].0 == q);
        }
    }
    assert forall|q: IVec3| #[trigger] entries_map(t).contains_key(q) implies entries_map(t)[q]
        == m[q] by {
        let j = choose|j: int| 0 <= j < t.len() && t[j].0 == q;
        lemma_entries_map_at(t, j);
        if j < s.len() {
            lemma_entries_map_at(s, j);
        }
    }
    assert(entries_map(t) =~= m);
}

proof fn lemma_entries_map_remove<V>(s: Seq<(IVec3, V)>, i: int)
    requires
        keys_distinct(s),
        0 <= i < s.len(),
    ensures
        keys_distinct(s.remove(i)),
        entries_map(s.remove(i)) == entries_map(s).remove(s[i].0),
{
    let t = s.remove(i);
    let k0 = s[i].0;
    let m = entries_map(s).remove(k0);
    assert forall|a: int, b: int|
        0 <= a < t.len() && 0 <= b < t.len() && t[a].0 == t[b].0 implies a == b by {
        let a2 = if a < i { a } else { a + 1 };
        let b2 = if b < i { b } else { b + 1 };
        assert(t[a] == s[a2] && t[b] == s[b2]);
    }
    assert forall|k: IVec3| #[trigger] entries_map(t).contains_key(k) <==> m.contains_key(k) by {
        if m.contains_key(k) {
            assert(entries_map(s).contains_key(k));
            let j = choose|j: int| 0 <= j < s.len() && s[j].0 == k;
            assert(j != i);
            let j2 = if j < i { j } else { j - 1 };
            assert(t[j2].0 == k);
        }
        if entries_map(t).contains_key(k) {
            let j = choose|j: int| 0 <= j < t.len() && t[j].0 == k;
            let j2 = if j < i { j } else { j + 1 };
            assert(s[j2].0 == k);
            assert(j2 != i);
        }
    }
    assert forall|k: IVec3| #[trigger] entries_map(t).contains_key(k) implies entries_map(t)[k]
        == m[k] by {
        let j = choose|j: int| 0 <= j < t.len() && t[j].0 == k;
        lemma_entries_map_at(t, j);
        let j2 = if j < i { j } else { j + 1 };
        assert(s[j2] == t[j]);
        lemma_entries_map_at(s, j2);
    }
    assert(entries_map(t) =~= m);
}

/// Some entry at or after position `lo` of `s` has key `q`.
pub open spec fn key_from<V>(s: Seq<(IVec3, V)>, lo: int, q: IVec3) -> bool {
    exists|t: int| lo <= t < s.len() && s[t].0 == q
}

/// Whether position `p` occurs in `v`.
pub fn contains_pos(v: &Vec<IVec3>, p: &IVec3) -> (b: bool)
    ensures
        b == v@.contains(*p),
{
    let mut i: usize = 0;
    while i < v.len()
        invariant
            i <= v@.len(),
            forall|j: int| 0 <= j < i ==> v@[j] != *p,
        decreases v@.len() - i,
    {
        if v[i] == *p {
            return true;
        }
        i = i + 1;
    }
    false
}

impl<V> View for PosMap<V> {
    type V = Map<IVec3, V>;

    closed spec fn view(&self) -> Map<IVec3, V> {
        entries_map(self.entries@)
    }
}

impl<V> PosMap<V> {
    /// The keys of the stored entries are distinct.
    pub closed spec fn wf(&self) -> bool {
        keys_distinct(self.entries@)
    }

    /// The map's view is finite.
    pub proof fn lemma_finite(&self)
        requires
            self.wf(),
        ensures
            self@.dom().finite(),
    {
        let s = self.entries@;
        let ks = s.map_values(|e: (IVec3, V)| e.0);
        let keys = ks.to_set();
        assert(self@.dom() =~= keys) by {
            assert forall|k: IVec3| self@.dom().contains(k) implies keys.contains(k) by {
                let i = choose|i: int| 0 <= i < s.len() && s[i].0 == k;
                assert(ks[i] == k);
            }
            assert forall|k: IVec3| keys.contains(k) implies self@.dom().contains(k) by {
                let i = choose|i: int| 0 <= i < ks.len() && #[trigger] ks[i] == k;
                assert(s[i].0 == k);
            }
        }
        vstd::seq_lib::seq_to_set_is_finite(ks);
    }

    /// An empty map.
    pub fn new() -> (m: Self)
        ensures
            m.wf(),
            m@ == Map::<IVec3, V>::empty(),
    {
        let m = PosMap { entries: Vec::new() };
        assert(m@ =~= Map::<IVec3, V>::empty());
        m
    }

    /// Stores `v` under `k`, replacing what was stored there.
    pub fn insert(&mut self, k: IVec3, v: V)
        requires
            old(self).wf(),
        ensures
            final(self).wf(),
            final(self)@ == old(self)@.insert(k, v),
    {
        match self.find(&k) {
            Some(i) => {
                proof {
                    lemma_entries_map_update(self.entries@, i as int, v);
                }
                self.entries.set(i, (k, v));
            },
            None => {
                proof {
                    lemma_entries_map_push(self.entries@, k, v);
                }
                self.entries.push((k, v));
            },
        }
    }

    /// Stores `v` under `k` unless something is stored there already, in
    /// which case the map is left as it was.
    pub fn insert_if_absent(&mut self, k: IVec3, v: V)
        requires
            old(self).wf(),
        ensures
            final(self).wf(),
            final(self)@ == (if old(self)@.contains_key(k) {
                old(self)@
            } else {
                old(self)@.insert(k, v)
            }),
    {
        match self.find(&k) {
            Some(i) => {
                proof {
                    lemma_entries_map_at(self.entries@, i as int);
                }
            },
            None => {
                proof {
                    lemma_entries_map_push(self.entries@, k, v);
                }
                self.entries.push((k, v));
            },
        }
    }

    /// Removes what is stored under `k` and hands it back.
    pub fn remove(&mut self, k: &IVec3) -> (r: Option<V>)
        requires
            old(self).wf(),
        ensures
            final(self).wf(),
            final(self)@ == old(self)@.remove(*k),
            r is Some <==> old(self)@.contains_key(*k),
            r matches Some(v) ==> v == old(self)@[*k],
    {
        match self.find(k) {
            Some(i) => {
                proof {
                    lemma_entries_map_at(self.entries@, i as int);
                    lemma_entries_map_remove(self.entries@, i as int);
                }
                let (_, v) = self.entries.remove(i);
                Some(v)
            },
            None => {
                assert(old(self)@.remove(*k) =~= old(self)@);
                None
            },
        }
    }

    /// The keys under which something is stored, each once.
    pub fn keys(&self) -> (ks: Vec<IVec3>)
        requires
            self.wf(),
        ensures
            forall|k: IVec3| #[trigger] ks@.contains(k) <==> self@.contains_key(k),
            ks@.no_duplicates(),
    {
        let mut ks: Vec<IVec3> = Vec::new();
        let mut i: usize = 0;
        while i < self.entries.len()
            invariant
                i <= self.entries@.len(),
                keys_distinct(self.entries@),
                ks@.len() == i,
                forall|j: int| 0 <= j < i ==> ks@[j] == self.entries@[j].0,
            decreases self.entries@.len() - i,
        {
            ks.push(self.entries[i].0);
            i = i + 1;
        }
        assert forall|k: IVec3| #[trigger] ks@.contains(k) <==> self@.contains_key(k) by {
            if self@.contains_key(k) {
                let j = choose|j: int| 0 <= j < self.entries@.len() && self.entries@[j].0 == k;
                assert(ks@[j] == k);
            }
        }
        ks
    }

    /// Keeps the entries whose key is in `keep` and hands back the others.
    pub fn retain_keys(&mut self, keep: &Vec<IVec3>) -> (dropped: PosMap<V>)
        requires
            old(self).wf(),
        ensures
            final(self).wf(),
            dropped.wf(),
            final(self)@ == Map::new(
                |k: IVec3| old(self)@.contains_key(k) && keep@.contains(k),
                |k: IVec3| old(self)@[k],
            ),
            dropped@ == Map::new(
                |k: IVec3| old(self)@.contains_key(k) && !keep@.contains(k),
                |k: IVec3| old(self)@[k],
            ),
    {
        let ghost m0 = self@;
        let ghost s0 = self.entries@;
        let mut rest: Vec<(IVec3, V)> = Vec::new();
        core::mem::swap(&mut rest, &mut self.entries);
        let mut kept: Vec<(IVec3, V)> = Vec::new();
        let mut gone: Vec<(IVec3, V)> = Vec::new();
        while rest.len() > 0
            invariant
                keys_distinct(s0),
                m0 == entries_map(s0),
                rest@ == s0.take(rest@.len() as int),
                rest@.len() <= s0.len(),
                keys_distinct(kept@),
                keys_distinct(gone@),
                forall|j: int|
                    0 <= j < kept@.len() ==> exists|t: int|
                        rest@.len() <= t < s0.len() && s0[t].0 == #[trigger] kept@[j].0,
                forall|j: int|
                    0 <= j < gone@.len() ==> exists|t: int|
                        rest@.len() <= t < s0.len() && s0[t].0 == #[trigger] gone@[j].0,
                entries_map(kept@) == Map::new(
                    |k: IVec3| key_from(s0, rest@.len() as int, k) && keep@.contains(k),
                    |k: IVec3| m0[k],
                ),
                entries_map(gone@) == Map::new(
                    |k: IVec3| key_from(s0, rest@.len() as int, k) && !keep@.contains(k),
                    |k: IVec3| m0[k],
                ),
            decreases rest@.len(),
        {
            let ghost n = rest@.len() as int;
            let e = rest.pop().unwrap();
            let ghost k = e.0;
            proof {
                assert(e == s0[n - 1]);
                lemma_entries_map_at(s0, n - 1);
                assert forall|j: int| 0 <= j < kept@.len() implies kept@[j].0 != k by {
                    let t = choose|t: int| n <= t < s0.len() && s0[t].0 == kept@[j].0;
                }
                assert forall|j: int| 0 <= j < gone@.len() implies gone@[j].0 != k by {
                    let t = choose|t: int| n <= t < s0.len() && s0[t].0 == gone@[j].0;
                }
                assert(!entries_map(kept@).contains_key(k)) by {
                    if entries_map(kept@).contains_key(k) {
                        let j = choose|j: int| 0 <= j < kept@.len() && kept@[j].0 == k;
                    }
                }
                assert(!entries_map(gone@).contains_key(k)) by {
                    if entries_map(gone@).contains_key(k) {
                        let j = choose|j: int| 0 <= j < gone@.len() && gone@[j].0 == k;
                    }
                }
                assert(rest@ =~= s0.take(n - 1));
            }
            if contains_pos(keep, &e.0) {
                proof {
                    lemma_entries_map_push(kept@, e.0, e.1);
                }
                kept.push(e);
            } else {
                proof {
                    lemma_entries_map_push(gone@, e.0, e.1);
                }
                gone.push(e);
            }
            proof {
                let m = rest@.len() as int;
                assert(m == n - 1);
                assert forall|j: int| 0 <= j < kept@.len() implies exists|t: int|
                    m <= t < s0.len() && s0[t].0 == #[trigger] kept@[j].0 by {
                    if j == kept@.len() - 1 && keep@.contains(k) {
                        assert(s0[n - 1].0 == kept@[j].0);
                    }
                }
                assert forall|j: int| 0 <= j < gone@.len() implies exists|t: int|
                    m <= t < s0.len() && s0[t].0 == #[trigger] gone@[j].0 by {
                    if j == gone@.len() - 1 && !keep@.contains(k) {
                        assert(s0[n - 1].0 == gone@[j].0);
                    }
                }
                let kept_target = Map::new(
                    |q: IVec3| key_from(s0, m, q) && keep@.contains(q),
                    |q: IVec3| m0[q],
                );
                let gone_target = Map::new(
                    |q: IVec3| key_from(s0, m, q) && !keep@.contains(q),
                    |q: IVec3| m0[q],
                );
                assert forall|q: IVec3|
                    #[trigger] key_from(s0, m, q) <==> (key_from(s0, n, q) || q == k) by {
                    if q == k {
                        assert(s0[n - 1].0 == q);
                    }
                    if key_from(s0, m, q) {
                        let t = choose|t: int| m <= t < s0.len() && s0[t].0 == q;
                        if t != n - 1 {
                            assert(n <= t);
                        }
                    }
                }
                assert(entries_map(kept@) =~= kept_target);
                assert(entries_map(gone@) =~= gone_target);
            }
        }
        proof {
            assert forall|q: IVec3| #[trigger] key_from(s0, 0, q) <==> m0.contains_key(q) by {}
        }
        self.entries = kept;
        let dropped = PosMap { entries: gone };
        assert(self@ =~= Map::new(
            |k: IVec3| m0.contains_key(k) && keep@.contains(k),
            |k: IVec3| m0[k],
        ));
        assert(dropped@ =~= Map::new(
            |k: IVec3| m0.contains_key(k) && !keep@.contains(k),
            |k: IVec3| m0[k],
        ));
        dropped
    }

    /// The stored entries as (key, value) pairs, each key once.
    pub fn to_entries(self) -> (v: Vec<(IVec3, V)>)
        requires
            self.wf(),
        ensures
            keys_distinct(v@),
            entries_map(v@) == self@,
    {
        self.entries
    }

    fn find(&self, k: &IVec3) -> (r: Option<usize>)
        requires
            self.wf(),
        ensures
            r matches Some(i) ==> i < self.entries@.len() && self.entries@[i as int].0 == *k,
            r is None ==> !self@.contains_key(*k),
    {
        let mut i: usize = 0;
        while i < self.entries.len()
            invariant
                i <= self.entries@.len(),
                forall|j: int| 0 <= j < i ==> self.entries@[j].0 != *k,
            decreases self.entries@.len() - i,
        {
            if self.entries[i].0 == *k {
                return Some(i);
            }
            i = i + 1;
        }
        None
    }

    /// The value stored under `k`, if any.
    pub fn get(&self, k: &IVec3) -> (r: Option<&V>)
        requires
            self.wf(),
        ensures
            r is Some <==> self@.contains_key(*k),
            r matches Some(v) ==> *v == self@[*k],
    {
        match self.find(k) {
            Some(i) => {
                proof {
                    lemma_entries_map_at(self.entries@, i as int);
                }
                Some(&self.entries[i].1)
            },
            None => None,
        }
    }

    /// Whether a value is stored under `k`.
    pub fn contains_key(&self, k: &IVec3) -> (b: bool)
        requires
            self.wf(),
        ensures
            b == self@.contains_key(*k),
    {
        match self.find(k) {
            Some(i) => {
                proof {
                    lemma_entries_map_at(self.entries@, i as int);
                }
                true
            },
            None => false,
        }
    }

    /// A mutable reference to the value stored under `k`, if any; whatever
    /// is written through it becomes the value under `k`.
    pub fn get_mut(&mut self, k: &IVec3) -> (r: Option<&mut V>)
        requires
            old(self).wf(),
        ensures
            r is Some <==> old(self)@.contains_key(*k),
            r matches Some(v) ==> *v == old(self)@[*k],
            r matches Some(v) ==> final(self).wf() && final(self)@ == old(self)@.insert(*k, *final(v)),
            r is None ==> *final(self) == *old(self),
    {
        match self.find(k) {
            Some(i) => {
                proof {
                    lemma_entries_map_at(self.entries@, i as int);
                    lemma_entries_map_update_all(self.entries@, i as int);
                }
                let r = &mut self.entries[i].1;
                Some(r)
            },
            None => None,
        }
    }
}

} // verus!
