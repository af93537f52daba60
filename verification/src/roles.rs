use crate::types::{AccountId, RoleType};
use vstd::prelude::*;

verus! {

/// The role membership relation: a set of `(role, account)` pairs.
pub struct MemberSet {
    items: Vec<(RoleType, AccountId)>,
}

impl MemberSet {
    pub closed spec fn entries(self) -> Seq<(RoleType, AccountId)> {
        self.items@
    }

    /// Pairs are pairwise distinct: the relation is a set.
    pub open spec fn wf(self) -> bool {
        forall|i: int, j: int|
            0 <= i < j < self.entries().len() ==> self.entries()[i] != self.entries()[j]
    }

    /// Whether `account` is a member of `role`.
    pub open spec fn member(self, role: RoleType, account: AccountId) -> bool {
        self.entries().contains((role, account))
    }

    pub fn new() -> (r: Self)
        ensures
            r.wf(),
            forall|ro: RoleType, a: AccountId| !r.member(ro, a),
    {
        MemberSet { items: Vec::new() }
    }

    fn find(&self, role: RoleType, account: AccountId) -> (r: Option<usize>)
        ensures
            match r {
                Some(i) => i < self.entries().len() && self.entries()[i as int] == (role, account),
                None => !self.member(role, account),
            },
    {
        let n = self.items.len();
        let mut i: usize = 0;
        while i < n
            invariant
                i <= n,
                n == self.entries().len(),
                forall|j: int| 0 <= j < i ==> self.entries()[j] != (role, account),
            decreases n - i,
        {
            let it = self.items[i];
            if it.0 == role && it.1 == account {
                return Some(i);
            }
            i = i + 1;
        }
        None
    }

    pub fn contains(&self, role: RoleType, account: AccountId) -> (r: bool)
        ensures
            r == self.member(role, account),
    {
        self.find(role, account).is_some()
    }

    /// Add `(role, account)`; idempotent when already a member.
    pub fn insert(&mut self, role: RoleType, account: AccountId)
        requires
            old(self).wf(),
        ensures
            final(self).wf(),
            forall|ro: RoleType, a: AccountId|
                final(self).member(ro, a) == (old(self).member(ro, a) || (ro, a) == (
                    role,
                    account,
                )),
    {
        if self.find(role, account).is_none() {
            let ghost s = self.entries();
            self.items.push((role, account));
            proof {
                assert forall|ro: RoleType, a: AccountId|
                    self.member(ro, a) == (s.contains((ro, a)) || (ro, a) == (role, account)) by {
                    if (ro, a) == (role, account) {
                        assert(s.push((role, account))[s.len() as int] == (ro, a));
                    } else {
                        if s.contains((ro, a)) {
                            let i = choose|i: int| 0 <= i < s.len() && #[trigger] s[i] == (ro, a);
                            assert(s.push((role, account))[i] == (ro, a));
                        }
                        if self.member(ro, a) {
                            let t = s.push((role, account));
                            let i = choose|i: int| 0 <= i < t.len() && #[trigger] t[i] == (ro, a);
                            assert(s[i] == (ro, a));
                        }
                    }
                }
            }
        }
    }

    /// Remove `(role, account)`; idempotent when already absent.
    pub fn remove(&mut self, role: RoleType, account: AccountId)
        requires
            old(self).wf(),
        ensures
            final(self).wf(),
            forall|ro: RoleType, a: AccountId|
                final(self).member(ro, a) == (old(self).member(ro, a) && (ro, a) != (
                    role,
                    account,
                )),
    {
        match self.find(role, account) {
            Some(i) => {
                let ghost s = self.entries();
                self.items.remove(i);
                proof {
                    lemma_remove_distinct_pair(s, i as int);
                }
            },
            None => {},
        }
    }
}

/// Removing one entry from a duplicate-free sequence leaves a duplicate-free
/// sequence containing exactly the other entries.
proof fn lemma_remove_distinct_pair(s: Seq<(RoleType, AccountId)>, i: int)
    requires
        forall|a: int, b: int| 0 <= a < b < s.len() ==> s[a] != s[b],
        0 <= i < s.len(),
    ensures
        forall|a: int, b: int| 0 <= a < b < s.remove(i).len() ==> s.remove(i)[a] != s.remove(i)[b],
        forall|x: (RoleType, AccountId)| s.remove(i).contains(x) == (s.contains(x) && x != s[i]),
{
    let t = s.remove(i);
    assert forall|x: (RoleType, AccountId)| t.contains(x) == (s.contains(x) && x != s[i]) by {
        if t.contains(x) {
            let a = choose|a: int| 0 <= a < t.len() && #[trigger] t[a] == x;
            if a < i {
                assert(s[a] == x);
            } else {
                assert(s[a + 1] == x);
            }
        }
        if s.contains(x) && x != s[i] {
            let a = choose|a: int| 0 <= a < s.len() && #[trigger] s[a] == x;
            if a < i {
                assert(t[a] == x);
            } else {
                assert(t[a - 1] == x);
            }
        }
    }
}

} // verus!
