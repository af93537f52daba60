use crate::types::EntityId;
use vstd::prelude::*;

verus! {

/// The generic attribute table: string-valued metadata keyed by an entity
/// and an attribute name. The collection's display name and symbol are
/// recorded here against `EntityId::Collection`.
pub struct AttrStore {
    items: Vec<(EntityId, String, String)>,
}

/// The value recorded for `(entity, name)`, scanning from the most recent
/// entry (entries are unique under `AttrStore::wf`).
pub open spec fn lookup(s: Seq<(EntityId, String, String)>, entity: EntityId, name: Seq<char>) -> Option<
    Seq<char>,
>
    decreases s.len(),
{
    if s.len() == 0 {
        None
    } else if s.last().0 == entity && s.last().1@ == name {
        Some(s.last().2@)
    } else {
        lookup(s.drop_last(), entity, name)
    }
}

pub open spec fn distinct_attr_keys(s: Seq<(EntityId, String, String)>) -> bool {
    forall|i: int, j: int|
        0 <= i < j < s.len() ==> !(s[i].0 == s[j].0 && s[i].1@ == s[j].1@)
}

proof fn lemma_lookup_update(s: Seq<(EntityId, String, String)>, i: int, nk: String, nv: String)
    requires
        distinct_attr_keys(s),
        0 <= i < s.len(),
        s[i].1@ == nk@,
    ensures
        forall|e: EntityId, k: Seq<char>|
            #[trigger] lookup(s.update(i, (s[i].0, nk, nv)), e, k) == if e == s[i].0 && k == nk@ {
                Some(nv@)
            } else {
                lookup(s, e, k)
            },
    decreases s.len(),
{
    let t = s.update(i, (s[i].0, nk, nv));
    if i == s.len() - 1 {
        assert(t.drop_last() =~= s.drop_last());
        assert(t.last() == (s[i].0, nk, nv));
        assert forall|e: EntityId, k: Seq<char>|
            #[trigger] lookup(t, e, k) == if e == s[i].0 && k == nk@ {
                Some(nv@)
            } else {
                lookup(s, e, k)
            } by {
            if !(e == s[i].0 && k == nk@) {
                assert(lookup(t, e, k) == lookup(t.drop_last(), e, k));
                assert(lookup(s, e, k) == lookup(s.drop_last(), e, k));
            }
        }
    } else {
        assert(t.drop_last() =~= s.drop_last().update(i, (s[i].0, nk, nv)));
        assert(s.drop_last()[i] == s[i]);
        lemma_lookup_update(s.drop_last(), i, nk, nv);
        assert(t.last() == s.last());
        assert(!(s.last().0 == s[i].0 && s.last().1@ == s[i].1@));
        assert forall|e: EntityId, k: Seq<char>|
            #[trigger] lookup(t, e, k) == if e == s[i].0 && k == nk@ {
                Some(nv@)
            } else {
                lookup(s, e, k)
            } by {
            assert(lookup(t.drop_last(), e, k) == if e == s[i].0 && k == nk@ {
                Some(nv@)
            } else {
                lookup(s.drop_last(), e, k)
            });
            if t.last().0 == e && t.last().1@ == k {
                assert(lookup(t, e, k) == Some(t.last().2@));
                assert(lookup(s, e, k) == Some(s.last().2@));
                assert(!(e == s[i].0 && k == nk@));
            } else {
                assert(lookup(t, e, k) == lookup(t.drop_last(), e, k));
                assert(lookup(s, e, k) == lookup(s.drop_last(), e, k));
            }
        }
    }
}

proof fn lemma_lookup_found(s: Seq<(EntityId, String, String)>, i: int)
    requires
        distinct_attr_keys(s),
        0 <= i < s.len(),
    ensures
        lookup(s, s[i].0, s[i].1@) == Some(s[i].2@),
    decreases s.len(),
{
    if i == s.len() - 1 {
    } else {
        assert(!(s.last().0 == s[i].0 && s.last().1@ == s[i].1@));
        assert(s.drop_last()[i] == s[i]);
        lemma_lookup_found(s.drop_last(), i);
    }
}

proof fn lemma_lookup_absent(s: Seq<(EntityId, String, String)>, entity: EntityId, name: Seq<char>)
    requires
        forall|i: int| 0 <= i < s.len() ==> !(s[i].0 == entity && s[i].1@ == name),
    ensures
        lookup(s, entity, name) == None::<Seq<char>>,
    decreases s.len(),
{
    if s.len() == 0 {
    } else {
        assert(s[s.len() - 1] == s.last());
        assert(forall|i: int| 0 <= i < s.drop_last().len() ==> s.drop_last()[i] == s[i]);
        lemma_lookup_absent(s.drop_last(), entity, name);
    }
}

impl AttrStore {
    pub closed spec fn entries(self) -> Seq<(EntityId, String, String)> {
        self.items@
    }

    /// Each `(entity, name)` pair names at most one entry.
    pub open spec fn wf(self) -> bool {
        distinct_attr_keys(self.entries())
    }

    /// The value recorded for `(entity, name)`, if any.
    pub open spec fn attr(self, entity: EntityId, name: Seq<char>) -> Option<Seq<char>> {
        lookup(self.entries(), entity, name)
    }

    pub fn new() -> (r: Self)
        ensures
            r.wf(),
            forall|e: EntityId, k: Seq<char>| r.attr(e, k) == None::<Seq<char>>,
    {
        AttrStore { items: Vec::new() }
    }

    fn find(&self, entity: EntityId, name: &String) -> (r: Option<usize>)
        ensures
            match r {
                Some(i) => i < self.entries().len() && self.entries()[i as int].0 == entity
                    && self.entries()[i as int].1@ == name@,
                None => forall|i: int|
                    0 <= i < self.entries().len() ==> !(self.entries()[i].0 == entity
                        && self.entries()[i].1@ == name@),
            },
    {
        let n = self.items.len();
        let mut i: usize = 0;
        while i < n
            invariant
                i <= n,
                n == self.entries().len(),
                forall|j: int|
                    0 <= j < i ==> !(self.entries()[j].0 == entity && self.entries()[j].1@
                        == name@),
            decreases n - i,
        {
            if self.items[i].0 == entity && self.items[i].1 == *name {
                return Some(i);
            }
            i = i + 1;
        }
        None
    }

    pub fn get(&self, entity: EntityId, name: &String) -> (r: Option<&String>)
        requires
            self.wf(),
        ensures
            match r {
                Some(v) => self.attr(entity, name@) == Some(v@),
                None => self.attr(entity, name@) == None::<Seq<char>>,
            },
    {
        match self.find(entity, name) {
            Some(i) => {
                proof {
                    lemma_lookup_found(self.entries(), i as int);
                }
                Some(&self.items[i].2)
            },
            None => {
                proof {
                    lemma_lookup_absent(self.entries(), entity, name@);
                }
                None
            },
        }
    }

    /// Record or overwrite the value for `(entity, name)`.
    pub fn set(&mut self, entity: EntityId, name: String, value: String)
        requires
            old(self).wf(),
        ensures
            final(self).wf(),
            forall|e: EntityId, k: Seq<char>|
                #[trigger] final(self).attr(e, k) == if e == entity && k == name@ {
                    Some(value@)
                } else {
                    old(self).attr(e, k)
                },
    {
        match self.find(entity, &name) {
            Some(i) => {
                proof {
                    lemma_lookup_update(self.entries(), i as int, name, value);
                }
                self.items[i] = (entity, name, value);
            },
            None => {
                let ghost s = self.entries();
                self.items.push((entity, name, value));
                proof {
                    assert(s.push((entity, name, value)).drop_last() =~= s);
                    assert forall|x: int, y: int|
                        0 <= x < y < self.entries().len() implies !(self.entries()[x].0
                        == self.entries()[y].0 && self.entries()[x].1@
                        == self.entries()[y].1@) by {
                        if y == s.len() {
                            assert(!(s[x].0 == entity && s[x].1@ == name@));
                        }
                    }
                }
            },
        }
    }
}

} // verus!
