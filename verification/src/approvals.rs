use crate::types::{AccountId, TokenId};
use vstd::prelude::*;

verus! {

/// The approval registry: a set of records `(owner, operator, scope)`.
/// A `None` scope approves the operator for all of the owner's tokens;
/// a `Some(id)` scope approves exactly that token.
pub struct ApprovalRegistry {
    items: Vec<(AccountId, AccountId, Option<TokenId>)>,
}

impl ApprovalRegistry {
    pub closed spec fn entries(self) -> Seq<(AccountId, AccountId, Option<TokenId>)> {
        self.items@
    }

    /// Records are pairwise distinct: the registry is a set.
    pub open spec fn wf(self) -> bool {
        forall|i: int, j: int|
            0 <= i < j < self.entries().len() ==> self.entries()[i] != self.entries()[j]
    }

    /// The recorded flag for `(owner, operator, scope)`.
    pub open spec fn approved(
        self,
        owner: AccountId,
        operator: AccountId,
        scope: Option<TokenId>,
    ) -> bool {
        self.entries().contains((owner, operator, scope))
    }

    pub fn new() -> (r: Self)
        ensures
            r.wf(),
            forall|o: AccountId, p: AccountId, t: Option<TokenId>| !r.approved(o, p, t),
    {
        ApprovalRegistry { items: Vec::new() }
    }

    fn find(&self, owner: AccountId, operator: AccountId, scope: Option<TokenId>) -> (r: Option<
        usize,
    >)
        ensures
            match r {
                Some(i) => i < self.entries().len() && self.entries()[i as int] == (
                    owner,
                    operator,
                    scope,
                ),
                None => !self.approved(owner, operator, scope),
            },
    {
        let n = self.items.len();
        let mut i: usize = 0;
        while i < n
            invariant
                i <= n,
                n == self.entries().len(),
                forall|j: int| 0 <= j < i ==> self.entries()[j] != (owner, operator, scope),
            decreases n - i,
        {
            let it = self.items[i];
            let scope_match = match (it.2, scope) {
                (Option::None, Option::None) => true,
                (Option::Some(x), Option::Some(y)) => x == y,
                _ => false,
            };
            if it.0 == owner && it.1 == operator && scope_match {
                return Some(i);
            }
            i = i + 1;
        }
        None
    }

    pub fn contains(&self, owner: AccountId, operator: AccountId, scope: Option<TokenId>) -> (r:
        bool)
        ensures
            r == self.approved(owner, operator, scope),
    {
        self.find(owner, operator, scope).is_some()
    }

    /// Record or erase the flag for `(owner, operator, scope)`; idempotent.
    pub fn set(
        &mut self,
        owner: AccountId,
        operator: AccountId,
        scope: Option<TokenId>,
        approved: bool,
    )
        requires
            old(self).wf(),
        ensures
            final(self).wf(),
            forall|o: AccountId, p: AccountId, t: Option<TokenId>|
                final(self).approved(o, p, t) == if (o, p, t) == (owner, operator, scope) {
                    approved
                } else {
                    old(self).approved(o, p, t)
                },
    {
        let found = self.find(owner, operator, scope);
        if approved {
            if found.is_none() {
                let ghost s = self.entries();
                self.items.push((owner, operator, scope));
                proof {
                    assert forall|o: AccountId, p: AccountId, t: Option<TokenId>|
                        self.approved(o, p, t) == if (o, p, t) == (owner, operator, scope) {
                            true
                        } else {
                            s.contains((o, p, t))
                        } by {
                        if (o, p, t) == (owner, operator, scope) {
                            assert(s.push((owner, operator, scope))[s.len() as int] == (o, p, t));
                        } else {
                            if s.contains((o, p, t)) {
                                let i = choose|i: int| 0 <= i < s.len() && s[i] == (o, p, t);
                                assert(s.push((owner, operator, scope))[i] == (o, p, t));
                            }
                            if self.approved(o, p, t) {
                                let i = choose|i: int|
                                    0 <= i < s.push((owner, operator, scope)).len() && s.push(
                                        (owner, operator, scope),
                                    )[i] == (o, p, t);
                                assert(s[i] == (o, p, t));
                            }
                        }
                    }
                }
            }
        } else {
            match found {
                Some(i) => {
                    let ghost s = self.entries();
                    self.items.remove(i);
                    proof {
                        lemma_remove_distinct(s, i as int);
                    }
                },
                None => {},
            }
        }
    }

    /// Erase every record scoped to exactly `id`; records with another scope,
    /// including approve-for-all records, are kept.
    pub fn clear_token(&mut self, id: TokenId)
        requires
            old(self).wf(),
        ensures
            final(self).wf(),
            forall|o: AccountId, p: AccountId, t: Option<TokenId>|
                final(self).approved(o, p, t) == (old(self).approved(o, p, t) && t != Some(id)),
    {
        let ghost s = self.entries();
        let n = self.items.len();
        let mut kept: Vec<(AccountId, AccountId, Option<TokenId>)> = Vec::new();
        let mut j: usize = 0;
        while j < n
            invariant
                j <= n,
                n == s.len(),
                self.entries() == s,
                old(self).wf(),
                s == old(self).entries(),
                forall|x: (AccountId, AccountId, Option<TokenId>)|
                    kept@.contains(x) == (s.take(j as int).contains(x) && x.2 != Some(id)),
                forall|a: int, b: int| 0 <= a < b < kept@.len() ==> kept@[a] != kept@[b],
            decreases n - j,
        {
            let it = self.items[j];
            let is_scoped = match it.2 {
                Option::Some(x) => x == id,
                Option::None => false,
            };
            let ghost kept0 = kept@;
            if !is_scoped {
                proof {
                    let ghost cur = s[j as int];
                    assert(!kept0.contains(cur)) by {
                        if kept0.contains(cur) {
                            let a = choose|a: int|
                                0 <= a < s.take(j as int).len() && s.take(j as int)[a] == cur;
                            assert(s[a] == cur);
                        }
                    }
                }
                kept.push(it);
            }
            j = j + 1;
            proof {
                let tpre = s.take(j - 1);
                let tpost = s.take(j as int);
                let cur = s[j - 1];
                assert(tpost =~= tpre.push(cur));
                assert forall|x: (AccountId, AccountId, Option<TokenId>)|
                    kept@.contains(x) == (tpost.contains(x) && x.2 != Some(id)) by {
                    if x == cur {
                        assert(tpost[j - 1] == x);
                        if !is_scoped {
                            assert(kept@[kept0.len() as int] == x);
                        } else {
                            if kept@.contains(x) {
                                let a = choose|a: int|
                                    0 <= a < kept@.len() && #[trigger] kept@[a] == x;
                                assert(kept0[a] == x);
                            }
                        }
                    } else {
                        if kept@.contains(x) {
                            let a = choose|a: int| 0 <= a < kept@.len() && #[trigger] kept@[a] == x;
                            assert(kept0[a] == x);
                            assert(kept0.contains(x));
                        }
                        if kept0.contains(x) {
                            let a = choose|a: int|
                                0 <= a < kept0.len() && #[trigger] kept0[a] == x;
                            assert(kept@[a] == x);
                            assert(kept@.contains(x));
                        }
                        if tpost.contains(x) {
                            let a = choose|a: int| 0 <= a < tpost.len() && #[trigger] tpost[a] == x;
                            assert(tpre[a] == x);
                            assert(tpre.contains(x));
                        }
                        if tpre.contains(x) {
                            let a = choose|a: int| 0 <= a < tpre.len() && #[trigger] tpre[a] == x;
                            assert(tpost[a] == x);
                            assert(tpost.contains(x));
                        }
                    }
                }
            }
        }
        self.items = kept;
        proof {
            assert(s.take(n as int) =~= s);
        }
    }
}

/// Removing one entry from a duplicate-free sequence leaves a duplicate-free
/// sequence containing exactly the other entries.
proof fn lemma_remove_distinct(s: Seq<(AccountId, AccountId, Option<TokenId>)>, i: int)
    requires
        forall|a: int, b: int| 0 <= a < b < s.len() ==> s[a] != s[b],
        0 <= i < s.len(),
    ensures
        forall|a: int, b: int| 0 <= a < b < s.remove(i).len() ==> s.remove(i)[a] != s.remove(i)[b],
        forall|x: (AccountId, AccountId, Option<TokenId>)|
            s.remove(i).contains(x) == (s.contains(x) && x != s[i]),
{
    let t = s.remove(i);
    assert forall|x: (AccountId, AccountId, Option<TokenId>)|
        t.contains(x) == (s.contains(x) && x != s[i]) by {
        if t.contains(x) {
            let a = choose|a: int| 0 <= a < t.len() && t[a] == x;
            if a < i {
                assert(s[a] == x);
            } else {
                assert(s[a + 1] == x);
            }
        }
        if s.contains(x) && x != s[i] {
            let a = choose|a: int| 0 <= a < s.len() && s[a] == x;
            if a < i {
                assert(t[a] == x);
            } else {
                assert(t[a - 1] == x);
            }
        }
    }
}

} // verus!
