use vstd::prelude::*;

verus! {

/// An opaque handle that names one row across all component tables.
#[derive(Clone, Copy, Debug, PartialEq, Eq, Structural)]
pub struct Entity {
    pub id: u64,
}

/// No two entries of `s` belong to the same entity.
pub open spec fn keys_unique<T>(s: Seq<(Entity, T)>) -> bool {
    forall|i: int, j: int|
        0 <= i < s.len() && 0 <= j < s.len() && i != j ==> #[trigger] s[i].0 != #[trigger] s[j].0
}

/// Some entry of `s` belongs to `e`.
pub open spec fn has_key<T>(s: Seq<(Entity, T)>, e: Entity) -> bool {
    exists|i: int| 0 <= i < s.len() && s[i].0 == e
}

/// The mapping from entity to component that the entries of `s` describe.
pub open spec fn as_map<T>(s: Seq<(Entity, T)>) -> Map<Entity, T> {
    Map::new(
        |e: Entity| has_key(s, e),
        |e: Entity| s[choose|i: int| 0 <= i < s.len() && s[i].0 == e].1,
    )
}

/// With unique keys, each entry is what the mapping gives for its entity.
pub proof fn lemma_as_map_at<T>(s: Seq<(Entity, T)>, i: int)
    requires
        keys_unique(s),
        0 <= i < s.len(),
    ensures
        as_map(s).contains_key(s[i].0),
        as_map(s)[s[i].0] == s[i].1,
{
    let e = s[i].0;
    assert(has_key(s, e));
    let j = choose|j: int| 0 <= j < s.len() && s[j].0 == e;
    assert(j == i);
}

/// Replacing the component of entry `i` keeps the keys unique, and sets the
/// mapping at that entry's entity.
pub proof fn lemma_update_at<T>(s1: Seq<(Entity, T)>, i: int, v: T)
    requires
        keys_unique(s1),
        0 <= i < s1.len(),
    ensures
        keys_unique(s1.update(i, (s1[i].0, v))),
        as_map(s1.update(i, (s1[i].0, v))) == as_map(s1).insert(s1[i].0, v),
{
    let e = s1[i].0;
    let s2 = s1.update(i, (e, v));
    assert(keys_unique(s2)) by {
        assert forall|a: int, b: int|
            0 <= a < s2.len() && 0 <= b < s2.len() && a != b implies #[trigger] s2[a].0
            != #[trigger] s2[b].0 by {
            assert(s2[a].0 == s1[a].0);
            assert(s2[b].0 == s1[b].0);
        }
    }
    assert forall|k: Entity| #[trigger] has_key(s2, k) <==> has_key(s1, k) || k == e by {
        if has_key(s1, k) {
            let j = choose|j: int| 0 <= j < s1.len() && s1[j].0 == k;
            assert(s2[j].0 == k);
        }
        if has_key(s2, k) {
            let j = choose|j: int| 0 <= j < s2.len() && s2[j].0 == k;
            assert(s1[j].0 == k);
        }
        if k == e {
            assert(s2[i].0 == k);
        }
    }
    assert forall|k: Entity| has_key(s2, k) implies as_map(s2)[k] == #[trigger] as_map(
        s1,
    ).insert(e, v)[k] by {
        let j = choose|j: int| 0 <= j < s2.len() && s2[j].0 == k;
        lemma_as_map_at(s2, j);
        if j != i {
            lemma_as_map_at(s1, j);
        } else {
            assert(k == e);
        }
    }
    assert(as_map(s2) =~= as_map(s1).insert(e, v));
}

/// The table of one component type: a mapping from entity to component,
/// kept as a list of entries in which each entity appears at most once.
pub struct Storage<T> {
    entries: Vec<(Entity, T)>,
}

impl<T> Storage<T> {
    /// The entries, in the order in which they are stored.
    pub closed spec fn entry_seq(&self) -> Seq<(Entity, T)> {
        self.entries@
    }

    pub open spec fn view(&self) -> Map<Entity, T> {
        as_map(self.entry_seq())
    }

    pub open spec fn wf(&self) -> bool {
        keys_unique(self.entry_seq())
    }

    pub fn new() -> (r: Storage<T>)
        ensures
            r.wf(),
            r@ == Map::<Entity, T>::empty(),
            r.entry_seq().len() == 0,
    {
        let r = Storage { entries: Vec::new() };
        assert(r@ =~= Map::<Entity, T>::empty());
        r
    }

    /// The number of entries.
    pub fn len(&self) -> (r: usize)
        ensures
            r == self.entry_seq().len(),
    {
        self.entries.len()
    }

    fn find(&self, e: Entity) -> (r: Option<usize>)
        ensures
            match r {
                Some(i) => i < self.entry_seq().len() && self.entry_seq()[i as int].0 == e,
                None => !has_key(self.entry_seq(), e),
            },
    {
        let mut i: usize = 0;
        while i < self.entries.len()
            invariant
                0 <= i <= self.entries.len(),
                forall|k: int| 0 <= k < i ==> self.entries@[k].0 != e,
            decreases self.entries.len() - i,
        {
            if self.entries[i].0 == e {
                return Some(i);
            }
            i += 1;
        }
        None
    }

    /// The component of `e`, if it has one.
    pub fn get(&self, e: Entity) -> (r: Option<&T>)
        requires
            self.wf(),
        ensures
            match r {
                Some(v) => self@.contains_key(e) && *v == self@[e],
                None => !self@.contains_key(e),
            },
    {
        match self.find(e) {
            Some(i) => {
                proof {
                    lemma_as_map_at(self.entry_seq(), i as int);
                }
                Some(&self.entries[i].1)
            },
            None => None,
        }
    }

    /// Sets the component of `e` to `v`, replacing any earlier one.
    pub fn insert(&mut self, e: Entity, v: T)
        requires
            old(self).wf(),
        ensures
            final(self).wf(),
            final(self)@ == old(self)@.insert(e, v),
    {
        let ghost s1 = self.entries@;
        match self.find(e) {
            Some(i) => {
                proof {
                    lemma_update_at(s1, i as int, v);
                }
                self.entries.set(i, (e, v));
                assert(self.entries@ == s1.update(i as int, (e, v)));
            },
            None => {
                self.entries.push((e, v));
                let ghost s2 = self.entries@;
                assert(s2 == s1.push((e, v)));
                assert(keys_unique(s2)) by {
                    assert forall|a: int, b: int|
                        0 <= a < s2.len() && 0 <= b < s2.len() && a != b implies #[trigger] s2[a].0
                        != #[trigger] s2[b].0 by {
                        if a == s1.len() {
                            assert(s1[b].0 == s2[b].0);
                        } else if b == s1.len() {
                            assert(s1[a].0 == s2[a].0);
                        } else {
                            assert(s2[a] == s1[a]);
                            assert(s2[b] == s1[b]);
                        }
                    }
                }
                assert forall|k: Entity| #[trigger] has_key(s2, k) <==> has_key(s1, k) || k == e by {
                    if has_key(s1, k) {
                        let j = choose|j: int| 0 <= j < s1.len() && s1[j].0 == k;
                        assert(s2[j].0 == k);
                    }
                    if has_key(s2, k) {
                        let j = choose|j: int| 0 <= j < s2.len() && s2[j].0 == k;
                        if j < s1.len() {
                            assert(s1[j].0 == k);
                        }
                    }
                    if k == e {
                        assert(s2[s1.len() as int].0 == k);
                    }
                }
                assert forall|k: Entity| has_key(s2, k) implies as_map(s2)[k] == #[trigger] as_map(
                    s1,
                ).insert(e, v)[k] by {
                    let j = choose|j: int| 0 <= j < s2.len() && s2[j].0 == k;
                    lemma_as_map_at(s2, j);
                    if j < s1.len() {
                        assert(s1[j] == s2[j]);
                        lemma_as_map_at(s1, j);
                    }
                }
                assert(as_map(s2) =~= as_map(s1).insert(e, v));
            },
        }
    }

    /// The component of `e` to change in place, if it has one.
    pub fn get_mut(&mut self, e: Entity) -> (r: Option<&mut T>)
        requires
            old(self).wf(),
        ensures
            match r {
                Some(v) => old(self)@.contains_key(e) && *v == old(self)@[e] && final(self).wf()
                    && final(self)@ == old(self)@.insert(e, *final(v)),
                None => !old(self)@.contains_key(e) && *final(self) == *old(self),
            },
    {
        match self.find(e) {
            Some(i) => {
                proof {
                    lemma_as_map_at(self.entries@, i as int);
                }
                let ghost s1 = self.entries@;
                let slot: &mut T = &mut self.entries[i].1;
                proof {
                    lemma_update_at(s1, i as int, *final(slot));
                }
                Some(slot)
            },
            None => None,
        }
    }

    /// All entries, each entity once, in the stored order.
    pub fn entries(&self) -> (r: &[(Entity, T)])
        ensures
            r@ == self.entry_seq(),
    {
        self.entries.as_slice()
    }
}

/// Walking the entries of a table visits exactly its (entity, component)
/// pairs, each entity exactly once.
pub proof fn lemma_entries_are_table<T>(s: Storage<T>)
    requires
        s.wf(),
    ensures
        keys_unique(s.entry_seq()),
        forall|i: int|
            0 <= i < s.entry_seq().len() ==> s@.contains_key(#[trigger] s.entry_seq()[i].0)
                && s@[s.entry_seq()[i].0] == s.entry_seq()[i].1,
        forall|e: Entity|
            #[trigger] s@.contains_key(e) ==> exists|i: int|
                0 <= i < s.entry_seq().len() && s.entry_seq()[i].0 == e,
{
    assert forall|i: int| 0 <= i < s.entry_seq().len() implies s@.contains_key(
        #[trigger] s.entry_seq()[i].0,
    ) && s@[s.entry_seq()[i].0] == s.entry_seq()[i].1 by {
        lemma_as_map_at(s.entry_seq(), i);
    }
}

} // verus!
