use vstd::prelude::*;

verus! {

/// One key-value region of contract state: an association list from `u64`
/// keys to values, with pairwise-distinct keys, read through a `Map` view.
/// Reads and writes are atomic per key.
pub struct KvStore<V> {
    pairs: Vec<(u64, V)>,
}

/// The map denoted by a sequence of key/value pairs (later entries shadow
/// earlier ones, which never happens under `distinct_keys`).
pub open spec fn as_map<V>(s: Seq<(u64, V)>) -> Map<u64, V>
    decreases s.len(),
{
    if s.len() == 0 {
        Map::empty()
    } else {
        as_map(s.drop_last()).insert(s.last().0, s.last().1)
    }
}

pub open spec fn distinct_keys<V>(s: Seq<(u64, V)>) -> bool {
    forall|i: int, j: int| 0 <= i < j < s.len() ==> s[i].0 != s[j].0
}

pub open spec fn has_key<V>(s: Seq<(u64, V)>, k: u64) -> bool {
    exists|i: int| 0 <= i < s.len() && s[i].0 == k
}

pub proof fn lemma_as_map_dom<V>(s: Seq<(u64, V)>, k: u64)
    ensures
        as_map(s).contains_key(k) <==> has_key(s, k),
    decreases s.len(),
{
    if s.len() == 0 {
    } else {
        lemma_as_map_dom(s.drop_last(), k);
        if s.last().0 == k {
            assert(s[s.len() - 1].0 == k);
        }
        if has_key(s, k) && s.last().0 != k {
            let i = choose|i: int| 0 <= i < s.len() && s[i].0 == k;
            assert(s.drop_last()[i] == s[i]);
        }
        if has_key(s.drop_last(), k) {
            let i = choose|i: int| 0 <= i < s.drop_last().len() && s.drop_last()[i].0 == k;
            assert(s[i].0 == k);
        }
    }
}

pub proof fn lemma_as_map_index<V>(s: Seq<(u64, V)>, i: int)
    requires
        distinct_keys(s),
        0 <= i < s.len(),
    ensures
        as_map(s).contains_key(s[i].0),
        as_map(s)[s[i].0] == s[i].1,
    decreases s.len(),
{
    lemma_as_map_dom(s, s[i].0);
    if i == s.len() - 1 {
    } else {
        assert(s.drop_last()[i] == s[i]);
        lemma_as_map_index(s.drop_last(), i);
    }
}

proof fn lemma_as_map_update<V>(s: Seq<(u64, V)>, i: int, v: V)
    requires
        distinct_keys(s),
        0 <= i < s.len(),
    ensures
        as_map(s.update(i, (s[i].0, v))) == as_map(s).insert(s[i].0, v),
    decreases s.len(),
{
    let k = s[i].0;
    let t = s.update(i, (k, v));
    if i == s.len() - 1 {
        assert(t.drop_last() =~= s.drop_last());
        assert(as_map(t) =~= as_map(s).insert(k, v));
    } else {
        assert(t.drop_last() =~= s.drop_last().update(i, (k, v)));
        assert(s.drop_last()[i] == s[i]);
        lemma_as_map_update(s.drop_last(), i, v);
        assert(t.last() == s.last());
        assert(s.last().0 != k);
        assert(as_map(t) =~= as_map(s).insert(k, v));
    }
}

proof fn lemma_as_map_remove<V>(s: Seq<(u64, V)>, i: int)
    requires
        distinct_keys(s),
        0 <= i < s.len(),
    ensures
        as_map(s.remove(i)) == as_map(s).remove(s[i].0),
    decreases s.len(),
{
    let k = s[i].0;
    if i == s.len() - 1 {
        assert(s.remove(i) =~= s.drop_last());
        lemma_as_map_dom(s.drop_last(), k);
        assert(!has_key(s.drop_last(), k)) by {
            if has_key(s.drop_last(), k) {
                let j = choose|j: int| 0 <= j < s.drop_last().len() && s.drop_last()[j].0 == k;
                assert(s[j].0 == s[i].0);
            }
        }
        assert(as_map(s.remove(i)) =~= as_map(s).remove(k));
    } else {
        assert(s.remove(i).drop_last() =~= s.drop_last().remove(i));
        assert(s.drop_last()[i] == s[i]);
        lemma_as_map_remove(s.drop_last(), i);
        assert(s.remove(i).last() == s.last());
        assert(s.last().0 != k);
        assert(as_map(s.remove(i)) =~= as_map(s).remove(k));
    }
}

proof fn lemma_as_map_absent<V>(s: Seq<(u64, V)>, k: u64)
    requires
        !has_key(s, k),
    ensures
        as_map(s).remove(k) == as_map(s),
{
    lemma_as_map_dom(s, k);
    assert(as_map(s).remove(k) =~= as_map(s));
}

proof fn lemma_as_map_len<V>(s: Seq<(u64, V)>)
    requires
        distinct_keys(s),
    ensures
        as_map(s).dom().finite(),
        as_map(s).dom().len() == s.len(),
    decreases s.len(),
{
    if s.len() == 0 {
    } else {
        lemma_as_map_len(s.drop_last());
        lemma_as_map_dom(s.drop_last(), s.last().0);
        assert(!has_key(s.drop_last(), s.last().0)) by {
            if has_key(s.drop_last(), s.last().0) {
                let j = choose|j: int|
                    0 <= j < s.drop_last().len() && s.drop_last()[j].0 == s.last().0;
                assert(s[j].0 == s[s.len() - 1].0);
            }
        }
    }
}

impl<V> View for KvStore<V> {
    type V = Map<u64, V>;

    open spec fn view(&self) -> Map<u64, V> {
        as_map(self.entries())
    }
}

impl<V> KvStore<V> {
    /// The stored key/value pairs, in insertion order.
    pub closed spec fn entries(self) -> Seq<(u64, V)> {
        self.pairs@
    }

    /// Keys are pairwise distinct, so each key denotes at most one entry.
    pub open spec fn wf(self) -> bool {
        distinct_keys(self.entries())
    }

    pub fn new() -> (r: Self)
        ensures
            r.wf(),
            r.entries() == Seq::<(u64, V)>::empty(),
            r@ == Map::<u64, V>::empty(),
    {
        KvStore { pairs: Vec::new() }
    }

    fn find(&self, k: u64) -> (r: Option<usize>)
        ensures
            match r {
                Some(i) => i < self.entries().len() && self.entries()[i as int].0 == k,
                None => !has_key(self.entries(), k),
            },
    {
        let n = self.pairs.len();
        let mut i: usize = 0;
        while i < n
            invariant
                i <= n,
                n == self.entries().len(),
                forall|j: int| 0 <= j < i ==> self.entries()[j].0 != k,
            decreases n - i,
        {
            if self.pairs[i].0 == k {
                return Some(i);
            }
            i = i + 1;
        }
        None
    }

    pub fn get(&self, k: u64) -> (r: Option<&V>)
        requires
            self.wf(),
        ensures
            match r {
                Some(v) => self@.contains_key(k) && *v == self@[k],
                None => !self@.contains_key(k),
            },
    {
        proof {
            lemma_as_map_dom(self.entries(), k);
        }
        match self.find(k) {
            Some(i) => {
                proof {
                    lemma_as_map_index(self.entries(), i as int);
                }
                Some(&self.pairs[i].1)
            },
            None => None,
        }
    }

    pub fn len(&self) -> (r: usize)
        ensures
            r == self.entries().len(),
    {
        self.pairs.len()
    }

    /// Insert or overwrite the entry for `k`.
    pub fn set(&mut self, k: u64, v: V)
        requires
            old(self).wf(),
        ensures
            final(self).wf(),
            final(self)@ == old(self)@.insert(k, v),
            old(self)@.contains_key(k) ==> exists|i: int|
                0 <= i < old(self).entries().len() && old(self).entries()[i].0 == k
                    && final(self).entries() == old(self).entries().update(i, (k, v)),
            !old(self)@.contains_key(k) ==> final(self).entries() == old(self).entries().push(
                (k, v),
            ),
    {
        proof {
            lemma_as_map_dom(self.entries(), k);
        }
        match self.find(k) {
            Some(i) => {
                proof {
                    lemma_as_map_update(self.entries(), i as int, v);
                }
                self.pairs[i] = (k, v);
            },
            None => {
                let ghost s = self.entries();
                self.pairs.push((k, v));
                proof {
                    assert(s.push((k, v)).drop_last() =~= s);
                    assert(distinct_keys(s.push((k, v)))) by {
                        assert forall|i: int, j: int|
                            0 <= i < j < s.push((k, v)).len() implies s.push((k, v))[i].0 != s.push(
                            (k, v),
                        )[j].0 by {
                            if j == s.len() {
                                assert(s[i].0 != k);
                            }
                        }
                    }
                }
            },
        }
    }

    /// Remove the entry for `k`, if any.
    pub fn remove(&mut self, k: u64)
        requires
            old(self).wf(),
        ensures
            final(self).wf(),
            final(self)@ == old(self)@.remove(k),
            old(self)@.contains_key(k) ==> exists|i: int|
                0 <= i < old(self).entries().len() && old(self).entries()[i].0 == k
                    && final(self).entries() == old(self).entries().remove(i),
            !old(self)@.contains_key(k) ==> final(self).entries() == old(self).entries(),
    {
        proof {
            lemma_as_map_dom(self.entries(), k);
        }
        match self.find(k) {
            Some(i) => {
                proof {
                    lemma_as_map_remove(self.entries(), i as int);
                    assert forall|x: int, y: int|
                        0 <= x < y < self.entries().remove(i as int).len() implies self.entries()
                        .remove(i as int)[x].0 != self.entries().remove(i as int)[y].0 by {}
                }
                self.pairs.remove(i);
            },
            None => {
                proof {
                    lemma_as_map_absent(self.entries(), k);
                }
            },
        }
    }

    /// Under `wf`, the view has exactly one key per stored entry.
    pub proof fn lemma_view_len(self)
        requires
            self.wf(),
        ensures
            self@.dom().finite(),
            self@.dom().len() == self.entries().len(),
    {
        lemma_as_map_len(self.entries());
    }

    /// A key is in the view exactly when some entry carries it.
    pub proof fn lemma_view_dom(self, k: u64)
        ensures
            self@.contains_key(k) <==> has_key(self.entries(), k),
    {
        lemma_as_map_dom(self.entries(), k);
    }
}

} // verus!
