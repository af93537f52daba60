use crate::approvals::ApprovalRegistry;
use crate::attrs::AttrStore;
use crate::events::{
    Approval, Notification, RoleAdminChanged, RoleGranted, RoleRevoked, SetAttribute,
    SetTokenLocation, SetTokenUri, Transfer,
};
use crate::kv::{has_key, KvStore};
use crate::roles::MemberSet;
use crate::types::{AccountId, EntityId, Error, RoleType, TokenId, DEFAULT_ADMIN_ROLE, MANAGER};
use vstd::prelude::*;

verus! {

/// The sum of the stored balance counters.
pub open spec fn sum_counts(s: Seq<(u64, u64)>) -> int
    decreases s.len(),
{
    if s.len() == 0 {
        0
    } else {
        sum_counts(s.drop_last()) + s.last().1
    }
}

/// How many ownership records point to `account`.
pub open spec fn count_owned(s: Seq<(u64, AccountId)>, account: AccountId) -> int
    decreases s.len(),
{
    if s.len() == 0 {
        0int
    } else {
        count_owned(s.drop_last(), account) + if s.last().1 == account {
            1int
        } else {
            0int
        }
    }
}

proof fn lemma_sum_push(s: Seq<(u64, u64)>, e: (u64, u64))
    ensures
        sum_counts(s.push(e)) == sum_counts(s) + e.1,
{
    assert(s.push(e).drop_last() =~= s);
}

proof fn lemma_sum_update(s: Seq<(u64, u64)>, i: int, e: (u64, u64))
    requires
        0 <= i < s.len(),
    ensures
        sum_counts(s.update(i, e)) == sum_counts(s) - s[i].1 + e.1,
    decreases s.len(),
{
    let t = s.update(i, e);
    if i == s.len() - 1 {
        assert(t.drop_last() =~= s.drop_last());
    } else {
        assert(t.drop_last() =~= s.drop_last().update(i, e));
        assert(s.drop_last()[i] == s[i]);
        lemma_sum_update(s.drop_last(), i, e);
        assert(t.last() == s.last());
    }
}

proof fn lemma_count_push(s: Seq<(u64, AccountId)>, e: (u64, AccountId), account: AccountId)
    ensures
        count_owned(s.push(e), account) == count_owned(s, account) + if e.1 == account {
            1int
        } else {
            0int
        },
{
    assert(s.push(e).drop_last() =~= s);
}

proof fn lemma_count_update(s: Seq<(u64, AccountId)>, i: int, e: (u64, AccountId), account: AccountId)
    requires
        0 <= i < s.len(),
    ensures
        count_owned(s.update(i, e), account) == count_owned(s, account) - (if s[i].1 == account {
            1int
        } else {
            0int
        }) + (if e.1 == account {
            1int
        } else {
            0int
        }),
    decreases s.len(),
{
    let t = s.update(i, e);
    if i == s.len() - 1 {
        assert(t.drop_last() =~= s.drop_last());
    } else {
        assert(t.drop_last() =~= s.drop_last().update(i, e));
        assert(s.drop_last()[i] == s[i]);
        lemma_count_update(s.drop_last(), i, e, account);
        assert(t.last() == s.last());
    }
}

proof fn lemma_count_remove(s: Seq<(u64, AccountId)>, i: int, account: AccountId)
    requires
        0 <= i < s.len(),
    ensures
        count_owned(s.remove(i), account) == count_owned(s, account) - if s[i].1 == account {
            1int
        } else {
            0int
        },
    decreases s.len(),
{
    let t = s.remove(i);
    if i == s.len() - 1 {
        assert(t =~= s.drop_last());
    } else {
        assert(t.drop_last() =~= s.drop_last().remove(i));
        assert(s.drop_last()[i] == s[i]);
        lemma_count_remove(s.drop_last(), i, account);
        assert(t.last() == s.last());
    }
}

proof fn lemma_count_bounds(s: Seq<(u64, AccountId)>, account: AccountId)
    ensures
        0 <= count_owned(s, account) <= s.len(),
    decreases s.len(),
{
    if s.len() > 0 {
        lemma_count_bounds(s.drop_last(), account);
    }
}

/// An operation that leaves the ownership ledger, the balance counters and
/// the cursor untouched preserves the ledger clauses of well-formedness.
proof fn lemma_ledger_clauses_framed(pre: PeerNftcontract, post: PeerNftcontract)
    requires
        pre.wf(),
        post.token_owner == pre.token_owner,
        post.balances == pre.balances,
        post.next_id == pre.next_id,
    ensures
        forall|i: int|
            0 <= i < post.token_owner.entries().len() ==> (
            #[trigger] post.token_owner.entries()[i]).0 < post.next_id as u64,
        post.token_owner.entries().len() <= post.next_id,
        forall|a: AccountId|
            #[trigger] post.balance_of_spec(a) == count_owned(post.token_owner.entries(), a),
        post.balance_total() == post.live_tokens(),
{
    assert(post.token_owner.entries() == pre.token_owner.entries());
    assert forall|a: AccountId| #[trigger] post.balance_of_spec(a) == count_owned(
        post.token_owner.entries(),
        a,
    ) by {
        assert(pre.balance_of_spec(a) == count_owned(pre.token_owner.entries(), a));
    }
}

/// The whole registry state: ownership ledger, balance counters, approval
/// registry, metadata stores, attribute table, role graph, the identifier
/// allocator cursor, and the notifications recorded by committed changes.
pub struct PeerNftcontract {
    pub token_owner: KvStore<AccountId>,
    pub balances: KvStore<u64>,
    pub operator_approvals: ApprovalRegistry,
    pub token_uris: KvStore<String>,
    pub token_locations: KvStore<String>,
    pub attributes: AttrStore,
    pub members: MemberSet,
    pub admin_roles: KvStore<RoleType>,
    pub next_id: TokenId,
    pub log: Vec<Notification>,
}

impl PeerNftcontract {
    /// The live owner of `id`, if the token exists.
    pub open spec fn owner_of_spec(self, id: TokenId) -> Option<AccountId> {
        if self.token_owner@.contains_key(id as u64) {
            Some(self.token_owner@[id as u64])
        } else {
            None
        }
    }

    /// The stored balance counter of `account` (0 when absent).
    pub open spec fn balance_of_spec(self, account: AccountId) -> u64 {
        if self.balances@.contains_key(account) {
            self.balances@[account]
        } else {
            0
        }
    }

    /// The content URI attached to `id`, if set.
    pub open spec fn uri_spec(self, id: TokenId) -> Option<Seq<char>> {
        if self.token_uris@.contains_key(id as u64) {
            Some(self.token_uris@[id as u64]@)
        } else {
            None
        }
    }

    /// The location string attached to `id`, if set.
    pub open spec fn location_spec(self, id: TokenId) -> Option<Seq<char>> {
        if self.token_locations@.contains_key(id as u64) {
            Some(self.token_locations@[id as u64]@)
        } else {
            None
        }
    }

    /// The collection attribute recorded for `(entity, name)`, if any.
    pub open spec fn attribute_spec(self, entity: EntityId, name: Seq<char>) -> Option<Seq<char>> {
        self.attributes.attr(entity, name)
    }

    /// Whether `account` holds `role`.
    pub open spec fn has_role_spec(self, role: RoleType, account: AccountId) -> bool {
        self.members.member(role, account)
    }

    /// The role whose members administer `role` (the bootstrap admin role
    /// when no explicit entry was recorded).
    pub open spec fn role_admin_spec(self, role: RoleType) -> RoleType {
        if self.admin_roles@.contains_key(role as u64) {
            self.admin_roles@[role as u64]
        } else {
            DEFAULT_ADMIN_ROLE
        }
    }

    /// The explicitly recorded admin entry for `role`, if any.
    pub open spec fn role_admin_entry_spec(self, role: RoleType) -> Option<RoleType> {
        if self.admin_roles@.contains_key(role as u64) {
            Some(self.admin_roles@[role as u64])
        } else {
            None
        }
    }

    /// The recorded approval flag for `(owner, operator, scope)`.
    pub open spec fn approved_spec(
        self,
        owner: AccountId,
        operator: AccountId,
        scope: Option<TokenId>,
    ) -> bool {
        self.operator_approvals.approved(owner, operator, scope)
    }

    /// Whether `operator` may act on `owner`'s token `id`: approved for all
    /// of `owner`'s tokens, or for exactly this one.
    pub open spec fn allowance_spec(self, owner: AccountId, operator: AccountId, id: TokenId) -> bool {
        self.approved_spec(owner, operator, None) || self.approved_spec(owner, operator, Some(id))
    }

    /// The allocator cursor: the identifier the next mint will issue.
    pub open spec fn next_id_spec(self) -> TokenId {
        self.next_id
    }

    /// The notifications recorded so far, oldest first.
    pub open spec fn log_spec(self) -> Seq<Notification> {
        self.log@
    }

    /// The number of live ownership records.
    pub open spec fn live_tokens(self) -> int {
        self.token_owner.entries().len() as int
    }

    /// The sum of all balance counters.
    pub open spec fn balance_total(self) -> int {
        sum_counts(self.balances.entries())
    }

    /// Well-formedness: every store is a proper map or set; every live token
    /// identifier was issued by the allocator (it is below the cursor); each
    /// account's balance counter equals the number of ownership records
    /// pointing to it; and the balance counters sum to the number of live
    /// ownership records.
    pub open spec fn wf(self) -> bool {
        &&& self.token_owner.wf()
        &&& self.balances.wf()
        &&& self.operator_approvals.wf()
        &&& self.token_uris.wf()
        &&& self.token_locations.wf()
        &&& self.attributes.wf()
        &&& self.members.wf()
        &&& self.admin_roles.wf()
        &&& forall|i: int|
            0 <= i < self.token_owner.entries().len() ==> (
            #[trigger] self.token_owner.entries()[i]).0 < self.next_id as u64
        &&& self.token_owner.entries().len() <= self.next_id
        &&& forall|a: AccountId|
            #[trigger] self.balance_of_spec(a) == count_owned(self.token_owner.entries(), a)
        &&& self.balance_total() == self.live_tokens()
    }

    /// `log` grew by exactly `n` notifications, keeping the old prefix.
    pub open spec fn log_extended(pre: Self, post: Self, n: int) -> bool {
        &&& post.log_spec().len() == pre.log_spec().len() + n
        &&& post.log_spec().take(pre.log_spec().len() as int) == pre.log_spec()
    }

    /// Create the registry. The deploying account is granted the bootstrap
    /// admin role and the management role, and the collection's display name
    /// and symbol are recorded as collection attributes.
    pub fn new(caller: AccountId, collection_name: String, collection_symbol: String) -> (r: Self)
        ensures
            r.wf(),
            r.next_id_spec() == 0,
            forall|t: TokenId| r.owner_of_spec(t) == None::<AccountId>,
            forall|a: AccountId| r.balance_of_spec(a) == 0,
            forall|o: AccountId, p: AccountId, t: Option<TokenId>| !r.approved_spec(o, p, t),
            forall|t: TokenId| r.uri_spec(t) == None::<Seq<char>>,
            forall|t: TokenId| r.location_spec(t) == None::<Seq<char>>,
            forall|ro: RoleType, a: AccountId|
                r.has_role_spec(ro, a) == ((ro == DEFAULT_ADMIN_ROLE || ro == MANAGER) && a
                    == caller),
            forall|ro: RoleType| r.role_admin_spec(ro) == DEFAULT_ADMIN_ROLE,
            r.attribute_spec(EntityId::Collection, "name"@) == Some(collection_name@),
            r.attribute_spec(EntityId::Collection, "symbol"@) == Some(collection_symbol@),
            r.log_spec().len() == 4,
            (r.log_spec()[0] matches Notification::RoleGranted(e) && e.role == DEFAULT_ADMIN_ROLE
                && e.grantee == caller && e.grantor == None::<AccountId>),
            (r.log_spec()[1] matches Notification::RoleGranted(e) && e.role == MANAGER && e.grantee
                == caller && e.grantor == Some(caller)),
            (r.log_spec()[2] matches Notification::SetAttribute(e) && e.id == EntityId::Collection
                && e.key@ == "name"@ && e.data@ == collection_name@),
            (r.log_spec()[3] matches Notification::SetAttribute(e) && e.id == EntityId::Collection
                && e.key@ == "symbol"@ && e.data@ == collection_symbol@),
    {
        let mut c = PeerNftcontract {
            token_owner: KvStore::new(),
            balances: KvStore::new(),
            operator_approvals: ApprovalRegistry::new(),
            token_uris: KvStore::new(),
            token_locations: KvStore::new(),
            attributes: AttrStore::new(),
            members: MemberSet::new(),
            admin_roles: KvStore::new(),
            next_id: 0,
            log: Vec::new(),
        };
        c.members.insert(DEFAULT_ADMIN_ROLE, caller);
        c.log.push(
            Notification::RoleGranted(
                RoleGranted { role: DEFAULT_ADMIN_ROLE, grantee: caller, grantor: None },
            ),
        );
        c.members.insert(MANAGER, caller);
        c.log.push(
            Notification::RoleGranted(
                RoleGranted { role: MANAGER, grantee: caller, grantor: Some(caller) },
            ),
        );
        let name_key = "name".to_owned();
        let symbol_key = "symbol".to_owned();
        c.attributes.set(EntityId::Collection, name_key.clone(), collection_name.clone());
        c.log.push(
            Notification::SetAttribute(
                SetAttribute { id: EntityId::Collection, key: name_key, data: collection_name },
            ),
        );
        c.attributes.set(EntityId::Collection, symbol_key.clone(), collection_symbol.clone());
        c.log.push(
            Notification::SetAttribute(
                SetAttribute { id: EntityId::Collection, key: symbol_key, data: collection_symbol },
            ),
        );
        proof {
            reveal_strlit("name");
            reveal_strlit("symbol");
            assert("name"@.len() == 4);
            assert("symbol"@.len() == 6);
            assert("name"@ != "symbol"@);
        }
        c
    }

    /// The live owner of `id`.
    pub fn owner_of(&self, id: TokenId) -> (r: Option<AccountId>)
        requires
            self.wf(),
        ensures
            r == self.owner_of_spec(id),
    {
        match self.token_owner.get(id as u64) {
            Some(a) => Some(*a),
            None => None,
        }
    }

    /// How many tokens `account` currently owns.
    pub fn balance_of(&self, account: AccountId) -> (r: u32)
        requires
            self.wf(),
        ensures
            r == self.balance_of_spec(account),
    {
        proof {
            lemma_count_bounds(self.token_owner.entries(), account);
        }
        match self.balances.get(account) {
            Some(b) => *b as u32,
            None => 0,
        }
    }

    /// The content URI attached to `id`, if set.
    pub fn get_token_uri(&self, id: TokenId) -> (r: Option<String>)
        requires
            self.wf(),
        ensures
            (match r {
                Some(u) => self.uri_spec(id) == Some(u@),
                None => self.uri_spec(id) == None::<Seq<char>>,
            }),
    {
        match self.token_uris.get(id as u64) {
            Some(u) => Some(u.clone()),
            None => None,
        }
    }

    /// The location string attached to `id`, if set.
    pub fn get_token_location(&self, id: TokenId) -> (r: Option<String>)
        requires
            self.wf(),
        ensures
            (match r {
                Some(l) => self.location_spec(id) == Some(l@),
                None => self.location_spec(id) == None::<Seq<char>>,
            }),
    {
        match self.token_locations.get(id as u64) {
            Some(l) => Some(l.clone()),
            None => None,
        }
    }

    /// The collection attribute recorded for `(entity, name)`, if any.
    pub fn get_attribute(&self, entity: EntityId, name: String) -> (r: Option<String>)
        requires
            self.wf(),
        ensures
            (match r {
                Some(v) => self.attribute_spec(entity, name@) == Some(v@),
                None => self.attribute_spec(entity, name@) == None::<Seq<char>>,
            }),
    {
        match self.attributes.get(entity, &name) {
            Some(v) => Some(v.clone()),
            None => None,
        }
    }

    /// Whether `account` holds `role`.
    pub fn has_role(&self, role: RoleType, account: AccountId) -> (r: bool)
        requires
            self.wf(),
        ensures
            r == self.has_role_spec(role, account),
    {
        self.members.contains(role, account)
    }

    /// The role administering `role`.
    pub fn get_role_admin(&self, role: RoleType) -> (r: RoleType)
        requires
            self.wf(),
        ensures
            r == self.role_admin_spec(role),
    {
        match self.admin_roles.get(role as u64) {
            Some(a) => *a,
            None => DEFAULT_ADMIN_ROLE,
        }
    }

    /// The explicitly recorded admin entry for `role`, if any.
    pub fn role_admin_entry(&self, role: RoleType) -> (r: Option<RoleType>)
        requires
            self.wf(),
        ensures
            r == self.role_admin_entry_spec(role),
    {
        match self.admin_roles.get(role as u64) {
            Some(a) => Some(*a),
            None => None,
        }
    }

    /// The recorded approval flag for `(owner, operator, scope)`.
    pub fn is_approved(&self, owner: AccountId, operator: AccountId, id: TokenId) -> (r: bool)
        requires
            self.wf(),
        ensures
            r == self.allowance_spec(owner, operator, id),
    {
        self.operator_approvals.contains(owner, operator, None) || self.operator_approvals.contains(
            owner,
            operator,
            Some(id),
        )
    }

    /// The identifier the management role is keyed by.
    pub fn manager_role_bytes(&self) -> (r: RoleType)
        ensures
            r == MANAGER,
    {
        MANAGER
    }

    /// The notifications recorded so far, oldest first.
    pub fn notifications(&self) -> (r: &Vec<Notification>)
        ensures
            r@ == self.log_spec(),
    {
        &self.log
    }

    /// What a committed mint did: it issued the identifier the cursor held,
    /// advanced the cursor by one, bound the new token to `account` with its
    /// metadata, incremented `account`'s balance, touched nothing else, and
    /// recorded the three notifications.
    pub open spec fn mint_post(
        pre: Self,
        post: Self,
        account: AccountId,
        location: Seq<char>,
        uri: Seq<char>,
    ) -> bool {
        let id = pre.next_id_spec();
        &&& post.next_id_spec() == pre.next_id_spec() + 1
        &&& post.owner_of_spec(id) == Some(account)
        &&& forall|t: TokenId| t != id ==> post.owner_of_spec(t) == pre.owner_of_spec(t)
        &&& post.balance_of_spec(account) == pre.balance_of_spec(account) + 1
        &&& forall|a: AccountId| a != account ==> post.balance_of_spec(a) == pre.balance_of_spec(a)
        &&& post.uri_spec(id) == Some(uri)
        &&& forall|t: TokenId| t != id ==> post.uri_spec(t) == pre.uri_spec(t)
        &&& post.location_spec(id) == Some(location)
        &&& forall|t: TokenId| t != id ==> post.location_spec(t) == pre.location_spec(t)
        &&& post.operator_approvals == pre.operator_approvals
        &&& post.members == pre.members
        &&& post.admin_roles == pre.admin_roles
        &&& post.attributes == pre.attributes
        &&& Self::log_extended(pre, post, 3)
        &&& (post.log_spec()[pre.log_spec().len() as int] matches Notification::SetTokenUri(e)
            && e.id == id && e.token_uri@ == uri)
        &&& (post.log_spec()[pre.log_spec().len() as int + 1] matches Notification::SetTokenLocation(e)
            && e.id == id && e.token_location@ == location)
        &&& (post.log_spec()[pre.log_spec().len() as int + 2] matches Notification::Transfer(e)
            && e.from == None::<AccountId> && e.to == Some(account) && e.id == id)
    }

    /// The shared mint sequence: write the metadata, create the ownership
    /// record for the cursor's identifier, and advance the cursor.
    fn mint_token(&mut self, account: AccountId, token_location: String, token_uri: String)
        requires
            old(self).wf(),
            old(self).next_id_spec() < u32::MAX,
        ensures
            final(self).wf(),
            final(self).next_id_spec() >= old(self).next_id_spec(),
            Self::mint_post(*old(self), *final(self), account, token_location@, token_uri@),
    {
        let ghost pre = *self;
        let id = self.next_id;
        self.token_uris.set(id as u64, token_uri.clone());
        self.log.push(Notification::SetTokenUri(SetTokenUri { id, token_uri }));
        self.token_locations.set(id as u64, token_location.clone());
        self.log.push(
            Notification::SetTokenLocation(SetTokenLocation { id, token_location }),
        );
        proof {
            self.token_owner.lemma_view_dom(id as u64);
            if has_key(self.token_owner.entries(), id as u64) {
                let i = choose|i: int|
                    0 <= i < self.token_owner.entries().len() && self.token_owner.entries()[i].0
                        == id as u64;
                assert(self.token_owner.entries()[i].0 < pre.next_id as u64);
            }
        }
        let ghost own0 = self.token_owner.entries();
        self.token_owner.set(id as u64, account);
        let b: u64 = match self.balances.get(account) {
            Some(v) => *v,
            None => 0,
        };
        proof {
            lemma_count_bounds(own0, account);
            assert(pre.balance_of_spec(account) == count_owned(own0, account));
            assert(b == pre.balance_of_spec(account));
            assert(b <= own0.len());
        }
        let ghost bal0 = self.balances.entries();
        self.balances.set(account, b + 1);
        self.log.push(
            Notification::Transfer(Transfer { from: None, to: Some(account), id }),
        );
        self.next_id = id + 1;
        proof {
            let own1 = self.token_owner.entries();
            assert(own1 == own0.push((id as u64, account)));
            assert forall|i: int| 0 <= i < own1.len() implies (#[trigger] own1[i]).0 < self.next_id
                as u64 by {
                if i < own0.len() {
                    assert(own1[i] == own0[i]);
                } else {
                    assert(own1[i] == (id as u64, account));
                }
            }
            assert forall|a: AccountId| #[trigger] self.balance_of_spec(a) == count_owned(
                own1,
                a,
            ) by {
                assert(pre.balance_of_spec(a) == count_owned(own0, a));
                lemma_count_push(own0, (id as u64, account), a);
            }
            if pre.balances@.contains_key(account) {
                let i = choose|i: int|
                    0 <= i < bal0.len() && bal0[i].0 == account && self.balances.entries() == bal0
                        .update(i, (account, (b + 1) as u64));
                crate::kv::lemma_as_map_index(bal0, i);
                lemma_sum_update(bal0, i, (account, (b + 1) as u64));
            } else {
                assert(self.balances.entries() == bal0.push((account, (b + 1) as u64)));
                lemma_sum_push(bal0, (account, (b + 1) as u64));
            }
            assert(self.log@.take(pre.log@.len() as int) =~= pre.log@);
        }
    }

    /// Issue a new token to `account` with the given metadata. This path is
    /// deliberately public: any account may mint.
    pub fn mint(
        &mut self,
        account: AccountId,
        token_location: String,
        token_uri: String,
    ) -> (r: Result<(), Error>)
        requires
            old(self).wf(),
            old(self).next_id_spec() < u32::MAX,
        ensures
            final(self).wf(),
            final(self).next_id_spec() >= old(self).next_id_spec(),
            r == Ok::<(), Error>(()),
            Self::mint_post(*old(self), *final(self), account, token_location@, token_uri@),
    {
        self.mint_token(account, token_location, token_uri);
        Ok(())
    }

    /// Issue a new token to `account`, gated by the management role. A
    /// caller without the role gets `MissingRole` and changes nothing.
    pub fn manager_mint(
        &mut self,
        caller: AccountId,
        account: AccountId,
        token_location: String,
        token_uri: String,
    ) -> (r: Result<(), Error>)
        requires
            old(self).wf(),
            old(self).next_id_spec() < u32::MAX,
        ensures
            final(self).wf(),
            final(self).next_id_spec() >= old(self).next_id_spec(),
            !old(self).has_role_spec(MANAGER, caller) ==> r == Err::<(), Error>(Error::MissingRole)
                && *final(self) == *old(self),
            old(self).has_role_spec(MANAGER, caller) ==> r == Ok::<(), Error>(())
                && Self::mint_post(
                *old(self),
                *final(self),
                account,
                token_location@,
                token_uri@,
            ),
    {
        if !self.members.contains(MANAGER, caller) {
            return Err(Error::MissingRole);
        }
        self.mint_token(account, token_location, token_uri);
        Ok(())
    }

    /// What a committed burn did: it deleted the ownership record, the
    /// token's URI and location, and every approval scoped to exactly this
    /// token, decremented the owner's balance, left the cursor and all other
    /// state untouched, and recorded the retiring transfer.
    pub open spec fn burn_post(pre: Self, post: Self, id: TokenId, owner: AccountId) -> bool {
        &&& post.next_id_spec() == pre.next_id_spec()
        &&& post.owner_of_spec(id) == None::<AccountId>
        &&& forall|t: TokenId| t != id ==> post.owner_of_spec(t) == pre.owner_of_spec(t)
        &&& post.balance_of_spec(owner) == pre.balance_of_spec(owner) - 1
        &&& forall|a: AccountId| a != owner ==> post.balance_of_spec(a) == pre.balance_of_spec(a)
        &&& post.uri_spec(id) == None::<Seq<char>>
        &&& forall|t: TokenId| t != id ==> post.uri_spec(t) == pre.uri_spec(t)
        &&& post.location_spec(id) == None::<Seq<char>>
        &&& forall|t: TokenId| t != id ==> post.location_spec(t) == pre.location_spec(t)
        &&& forall|o: AccountId, p: AccountId, t: Option<TokenId>|
            post.approved_spec(o, p, t) == (pre.approved_spec(o, p, t) && t != Some(id))
        &&& post.members == pre.members
        &&& post.admin_roles == pre.admin_roles
        &&& post.attributes == pre.attributes
        &&& Self::log_extended(pre, post, 1)
        &&& (post.log_spec().last() matches Notification::Transfer(e) && e.from == Some(owner)
            && e.to == None::<AccountId> && e.id == id)
    }

    /// The shared burn sequence: delete the URI, the location, the approvals
    /// scoped to the token, then the ownership record.
    fn burn_token(&mut self, id: TokenId, owner: AccountId)
        requires
            old(self).wf(),
            old(self).owner_of_spec(id) == Some(owner),
        ensures
            final(self).wf(),
            final(self).next_id_spec() >= old(self).next_id_spec(),
            Self::burn_post(*old(self), *final(self), id, owner),
    {
        let ghost pre = *self;
        let ghost own0 = self.token_owner.entries();
        proof {
            self.token_owner.lemma_view_dom(id as u64);
            let j = choose|j: int| 0 <= j < own0.len() && own0[j].0 == id as u64;
            crate::kv::lemma_as_map_index(own0, j);
            assert(own0[j].1 == owner);
            lemma_count_remove(own0, j, owner);
            lemma_count_bounds(own0.remove(j), owner);
            assert(pre.balance_of_spec(owner) == count_owned(own0, owner));
            assert(pre.balance_of_spec(owner) >= 1);
        }
        self.token_uris.remove(id as u64);
        self.token_locations.remove(id as u64);
        self.operator_approvals.clear_token(id);
        let b: u64 = match self.balances.get(owner) {
            Some(v) => *v,
            None => 0,
        };
        let ghost bal0 = self.balances.entries();
        self.balances.set(owner, b - 1);
        self.token_owner.remove(id as u64);
        self.log.push(Notification::Transfer(Transfer { from: Some(owner), to: None, id }));
        proof {
            let j = choose|j: int|
                0 <= j < own0.len() && own0[j].0 == id as u64 && self.token_owner.entries() == own0
                    .remove(j);
            crate::kv::lemma_as_map_index(own0, j);
            assert(own0[j].1 == owner);
            let own1 = self.token_owner.entries();
            assert forall|i: int| 0 <= i < own1.len() implies (#[trigger] own1[i]).0 < self.next_id
                as u64 by {
                if i < j {
                    assert(own1[i] == own0[i]);
                } else {
                    assert(own1[i] == own0[i + 1]);
                }
            }
            assert forall|a: AccountId| #[trigger] self.balance_of_spec(a) == count_owned(
                own1,
                a,
            ) by {
                assert(pre.balance_of_spec(a) == count_owned(own0, a));
                lemma_count_remove(own0, j, a);
            }
            let i = choose|i: int|
                0 <= i < bal0.len() && bal0[i].0 == owner && self.balances.entries() == bal0.update(
                    i,
                    (owner, (b - 1) as u64),
                );
            crate::kv::lemma_as_map_index(bal0, i);
            lemma_sum_update(bal0, i, (owner, (b - 1) as u64));
            assert(self.log@.take(pre.log@.len() as int) =~= pre.log@);
        }
    }

    /// Retire token `id`. The caller must be its owner or an approved
    /// operator; `account` is accepted for interface compatibility but the
    /// removal is keyed by `id` and debits the actual owner.
    pub fn burn(&mut self, caller: AccountId, account: AccountId, id: TokenId) -> (r: Result<
        (),
        Error,
    >)
        requires
            old(self).wf(),
        ensures
            final(self).wf(),
            final(self).next_id_spec() >= old(self).next_id_spec(),
            (match old(self).owner_of_spec(id) {
                None => r == Err::<(), Error>(Error::TokenNotFound) && *final(self) == *old(self),
                Some(owner) => {
                    if caller == owner || old(self).allowance_spec(owner, caller, id) {
                        r == Ok::<(), Error>(()) && Self::burn_post(
                            *old(self),
                            *final(self),
                            id,
                            owner,
                        )
                    } else {
                        r == Err::<(), Error>(Error::NotApproved) && *final(self) == *old(self)
                    }
                },
            }),
    {
        let _ = account;
        let owner = match self.owner_of(id) {
            Some(o) => o,
            None => {
                return Err(Error::TokenNotFound);
            },
        };
        if caller != owner && !self.is_approved(owner, caller, id) {
            return Err(Error::NotApproved);
        }
        self.burn_token(id, owner);
        Ok(())
    }

    /// Retire token `id` on the management role's authority, bypassing the
    /// owner/approval check. `account` and the metadata parameters are
    /// accepted for interface compatibility; the removal is keyed by `id`
    /// and debits the actual owner.
    pub fn manager_burn(
        &mut self,
        caller: AccountId,
        account: AccountId,
        id: TokenId,
        _token_location: String,
        _token_uri: String,
    ) -> (r: Result<(), Error>)
        requires
            old(self).wf(),
        ensures
            final(self).wf(),
            final(self).next_id_spec() >= old(self).next_id_spec(),
            !old(self).has_role_spec(MANAGER, caller) ==> r == Err::<(), Error>(Error::MissingRole)
                && *final(self) == *old(self),
            old(self).has_role_spec(MANAGER, caller) ==> (match old(self).owner_of_spec(id) {
                None => r == Err::<(), Error>(Error::TokenNotFound) && *final(self) == *old(self),
                Some(owner) => r == Ok::<(), Error>(()) && Self::burn_post(
                    *old(self),
                    *final(self),
                    id,
                    owner,
                ),
            }),
    {
        let _ = account;
        if !self.members.contains(MANAGER, caller) {
            return Err(Error::MissingRole);
        }
        let owner = match self.owner_of(id) {
            Some(o) => o,
            None => {
                return Err(Error::TokenNotFound);
            },
        };
        self.burn_token(id, owner);
        Ok(())
    }

    /// What a committed transfer did: it rewrote the owner of `id` from
    /// `from` to `to`, moved one unit of balance, cleared every approval
    /// scoped to exactly this token, left all other state untouched, and
    /// recorded the transfer.
    pub open spec fn transfer_post(
        pre: Self,
        post: Self,
        from: AccountId,
        to: AccountId,
        id: TokenId,
    ) -> bool {
        &&& post.next_id_spec() == pre.next_id_spec()
        &&& post.owner_of_spec(id) == Some(to)
        &&& forall|t: TokenId| t != id ==> post.owner_of_spec(t) == pre.owner_of_spec(t)
        &&& from != to ==> post.balance_of_spec(from) == pre.balance_of_spec(from) - 1
        &&& from != to ==> post.balance_of_spec(to) == pre.balance_of_spec(to) + 1
        &&& from == to ==> post.balance_of_spec(from) == pre.balance_of_spec(from)
        &&& forall|a: AccountId|
            a != from && a != to ==> post.balance_of_spec(a) == pre.balance_of_spec(a)
        &&& post.token_uris == pre.token_uris
        &&& post.token_locations == pre.token_locations
        &&& forall|o: AccountId, p: AccountId, t: Option<TokenId>|
            post.approved_spec(o, p, t) == (pre.approved_spec(o, p, t) && t != Some(id))
        &&& post.members == pre.members
        &&& post.admin_roles == pre.admin_roles
        &&& post.attributes == pre.attributes
        &&& Self::log_extended(pre, post, 1)
        &&& (post.log_spec().last() matches Notification::Transfer(e) && e.from == Some(from)
            && e.to == Some(to) && e.id == id)
    }

    /// The shared transfer sequence: clear the token's scoped approvals,
    /// move one unit of balance, and rewrite the ownership record.
    fn transfer_token(&mut self, from: AccountId, to: AccountId, id: TokenId)
        requires
            old(self).wf(),
            old(self).owner_of_spec(id) == Some(from),
        ensures
            final(self).wf(),
            final(self).next_id_spec() >= old(self).next_id_spec(),
            Self::transfer_post(*old(self), *final(self), from, to, id),
    {
        let ghost pre = *self;
        let ghost own0 = self.token_owner.entries();
        proof {
            self.token_owner.lemma_view_dom(id as u64);
            let j = choose|j: int| 0 <= j < own0.len() && own0[j].0 == id as u64;
            crate::kv::lemma_as_map_index(own0, j);
            assert(own0[j].1 == from);
            lemma_count_remove(own0, j, from);
            lemma_count_bounds(own0.remove(j), from);
            assert(pre.balance_of_spec(from) == count_owned(own0, from));
            assert(pre.balance_of_spec(from) >= 1);
            lemma_count_bounds(own0, to);
            assert(pre.balance_of_spec(to) == count_owned(own0, to));
        }
        self.operator_approvals.clear_token(id);
        let bf: u64 = match self.balances.get(from) {
            Some(v) => *v,
            None => 0,
        };
        let ghost bal0 = self.balances.entries();
        self.balances.set(from, bf - 1);
        let bt: u64 = match self.balances.get(to) {
            Some(v) => *v,
            None => 0,
        };
        let ghost bal1 = self.balances.entries();
        self.balances.set(to, bt + 1);
        self.token_owner.set(id as u64, to);
        self.log.push(Notification::Transfer(Transfer { from: Some(from), to: Some(to), id }));
        proof {
            let j = choose|j: int| 0 <= j < own0.len() && own0[j].0 == id as u64;
            crate::kv::lemma_as_map_index(own0, j);
            let i = choose|i: int|
                0 <= i < own0.len() && own0[i].0 == id as u64 && self.token_owner.entries() == own0
                    .update(i, (id as u64, to));
            assert(i == j);
            let own1 = self.token_owner.entries();
            assert forall|x: int| 0 <= x < own1.len() implies (#[trigger] own1[x]).0 < self.next_id
                as u64 by {
                if x != i {
                    assert(own1[x] == own0[x]);
                }
            }
            assert forall|a: AccountId| #[trigger] self.balance_of_spec(a) == count_owned(
                own1,
                a,
            ) by {
                assert(pre.balance_of_spec(a) == count_owned(own0, a));
                lemma_count_update(own0, i, (id as u64, to), a);
            }
            if pre.balances@.contains_key(from) {
                let x = choose|x: int|
                    0 <= x < bal0.len() && bal0[x].0 == from && bal1 == bal0.update(
                        x,
                        (from, (bf - 1) as u64),
                    );
                crate::kv::lemma_as_map_index(bal0, x);
                lemma_sum_update(bal0, x, (from, (bf - 1) as u64));
            }
            if bal1 == bal0.push((from, (bf - 1) as u64)) {
                lemma_sum_push(bal0, (from, (bf - 1) as u64));
            }
            if exists|y: int|
                0 <= y < bal1.len() && bal1[y].0 == to && self.balances.entries() == bal1.update(
                    y,
                    (to, (bt + 1) as u64),
                ) {
                let y = choose|y: int|
                    0 <= y < bal1.len() && bal1[y].0 == to && self.balances.entries() == bal1
                        .update(y, (to, (bt + 1) as u64));
                crate::kv::lemma_as_map_index(bal1, y);
                lemma_sum_update(bal1, y, (to, (bt + 1) as u64));
            } else {
                lemma_sum_push(bal1, (to, (bt + 1) as u64));
            }
            assert(self.log@.take(pre.log@.len() as int) =~= pre.log@);
        }
    }

    /// Move token `id` to `to`. The caller must be the current owner or an
    /// operator approved by the owner for this token (or all tokens).
    pub fn transfer(&mut self, caller: AccountId, to: AccountId, id: TokenId) -> (r: Result<
        (),
        Error,
    >)
        requires
            old(self).wf(),
        ensures
            final(self).wf(),
            final(self).next_id_spec() >= old(self).next_id_spec(),
            (match old(self).owner_of_spec(id) {
                None => r == Err::<(), Error>(Error::TokenNotFound) && *final(self) == *old(self),
                Some(owner) => {
                    if caller == owner || old(self).allowance_spec(owner, caller, id) {
                        r == Ok::<(), Error>(()) && Self::transfer_post(
                            *old(self),
                            *final(self),
                            owner,
                            to,
                            id,
                        )
                    } else {
                        r == Err::<(), Error>(Error::NotApproved) && *final(self) == *old(self)
                    }
                },
            }),
    {
        let owner = match self.owner_of(id) {
            Some(o) => o,
            None => {
                return Err(Error::TokenNotFound);
            },
        };
        if caller != owner && !self.is_approved(owner, caller, id) {
            return Err(Error::NotApproved);
        }
        self.transfer_token(owner, to, id);
        Ok(())
    }

    /// Move token `id` to `to` on the management role's authority, bypassing
    /// the owner/approval check. `_data` is accepted for interface
    /// compatibility and ignored.
    pub fn manager_transfer(
        &mut self,
        caller: AccountId,
        to: AccountId,
        id: TokenId,
        _data: Vec<u8>,
    ) -> (r: Result<(), Error>)
        requires
            old(self).wf(),
        ensures
            final(self).wf(),
            final(self).next_id_spec() >= old(self).next_id_spec(),
            !old(self).has_role_spec(MANAGER, caller) ==> r == Err::<(), Error>(Error::MissingRole)
                && *final(self) == *old(self),
            old(self).has_role_spec(MANAGER, caller) ==> (match old(self).owner_of_spec(id) {
                None => r == Err::<(), Error>(Error::TokenNotFound) && *final(self) == *old(self),
                Some(owner) => r == Ok::<(), Error>(()) && Self::transfer_post(
                    *old(self),
                    *final(self),
                    owner,
                    to,
                    id,
                ),
            }),
    {
        if !self.members.contains(MANAGER, caller) {
            return Err(Error::MissingRole);
        }
        let owner = match self.owner_of(id) {
            Some(o) => o,
            None => {
                return Err(Error::TokenNotFound);
            },
        };
        self.transfer_token(owner, to, id);
        Ok(())
    }

    /// Everything but the approval registry and the log is untouched.
    pub open spec fn only_approvals_changed(pre: Self, post: Self) -> bool {
        &&& post.token_owner == pre.token_owner
        &&& post.balances == pre.balances
        &&& post.token_uris == pre.token_uris
        &&& post.token_locations == pre.token_locations
        &&& post.attributes == pre.attributes
        &&& post.members == pre.members
        &&& post.admin_roles == pre.admin_roles
        &&& post.next_id == pre.next_id
    }

    /// Everything but the URI store and the log is untouched.
    pub open spec fn only_uris_changed(pre: Self, post: Self) -> bool {
        &&& post.token_owner == pre.token_owner
        &&& post.balances == pre.balances
        &&& post.operator_approvals == pre.operator_approvals
        &&& post.token_locations == pre.token_locations
        &&& post.attributes == pre.attributes
        &&& post.members == pre.members
        &&& post.admin_roles == pre.admin_roles
        &&& post.next_id == pre.next_id
    }

    /// Everything but the location store and the log is untouched.
    pub open spec fn only_locations_changed(pre: Self, post: Self) -> bool {
        &&& post.token_owner == pre.token_owner
        &&& post.balances == pre.balances
        &&& post.operator_approvals == pre.operator_approvals
        &&& post.token_uris == pre.token_uris
        &&& post.attributes == pre.attributes
        &&& post.members == pre.members
        &&& post.admin_roles == pre.admin_roles
        &&& post.next_id == pre.next_id
    }

    /// Everything but the role membership relation and the log is untouched.
    pub open spec fn only_members_changed(pre: Self, post: Self) -> bool {
        &&& post.token_owner == pre.token_owner
        &&& post.balances == pre.balances
        &&& post.operator_approvals == pre.operator_approvals
        &&& post.token_uris == pre.token_uris
        &&& post.token_locations == pre.token_locations
        &&& post.attributes == pre.attributes
        &&& post.admin_roles == pre.admin_roles
        &&& post.next_id == pre.next_id
    }

    /// Everything but the role admin table and the log is untouched.
    pub open spec fn only_admins_changed(pre: Self, post: Self) -> bool {
        &&& post.token_owner == pre.token_owner
        &&& post.balances == pre.balances
        &&& post.operator_approvals == pre.operator_approvals
        &&& post.token_uris == pre.token_uris
        &&& post.token_locations == pre.token_locations
        &&& post.attributes == pre.attributes
        &&& post.members == pre.members
        &&& post.next_id == pre.next_id
    }

    /// Record or erase an approval flag. This is unconditional: an
    /// approve-for-all record describes future tokens too, and a
    /// single-token approval on a nonexistent token is a harmless record
    /// that transfer and burn never consult.
    pub fn approve(
        &mut self,
        owner: AccountId,
        operator: AccountId,
        id: Option<TokenId>,
        approved: bool,
    )
        requires
            old(self).wf(),
        ensures
            final(self).wf(),
            final(self).next_id_spec() >= old(self).next_id_spec(),
            forall|o: AccountId, p: AccountId, t: Option<TokenId>|
                final(self).approved_spec(o, p, t) == if (o, p, t) == (owner, operator, id) {
                    approved
                } else {
                    old(self).approved_spec(o, p, t)
                },
            Self::only_approvals_changed(*old(self), *final(self)),
            Self::log_extended(*old(self), *final(self), 1),
            (final(self).log_spec().last() matches Notification::Approval(e) && e.from == owner
                && e.to == operator && e.id == id && e.approved == approved),
    {
        let ghost pre = *self;
        self.operator_approvals.set(owner, operator, id, approved);
        self.log.push(
            Notification::Approval(Approval { from: owner, to: operator, id, approved }),
        );
        proof {
            lemma_ledger_clauses_framed(pre, *self);
            assert(self.log@.take(pre.log@.len() as int) =~= pre.log@);
        }
    }

    /// Overwrite the content URI of `id`; gated by the management role.
    pub fn update_token_uri(&mut self, caller: AccountId, id: TokenId, token_uri: String) -> (r:
        Result<(), Error>)
        requires
            old(self).wf(),
        ensures
            final(self).wf(),
            final(self).next_id_spec() >= old(self).next_id_spec(),
            !old(self).has_role_spec(MANAGER, caller) ==> r == Err::<(), Error>(Error::MissingRole)
                && *final(self) == *old(self),
            old(self).has_role_spec(MANAGER, caller) ==> {
                &&& r == Ok::<(), Error>(())
                &&& final(self).uri_spec(id) == Some(token_uri@)
                &&& forall|t: TokenId| t != id ==> final(self).uri_spec(t) == old(self).uri_spec(t)
                &&& Self::only_uris_changed(*old(self), *final(self))
                &&& Self::log_extended(*old(self), *final(self), 1)
                &&& (final(self).log_spec().last() matches Notification::SetTokenUri(e) && e.id
                    == id && e.token_uri@ == token_uri@)
            },
    {
        let ghost pre = *self;
        if !self.members.contains(MANAGER, caller) {
            return Err(Error::MissingRole);
        }
        self.token_uris.set(id as u64, token_uri.clone());
        self.log.push(Notification::SetTokenUri(SetTokenUri { id, token_uri }));
        proof {
            lemma_ledger_clauses_framed(pre, *self);
            assert(self.log@.take(pre.log@.len() as int) =~= pre.log@);
        }
        Ok(())
    }

    /// Delete the content URI of `id`; gated by the management role.
    /// Deleting an absent entry is a harmless no-op.
    pub fn remove_token_uri(&mut self, caller: AccountId, id: TokenId) -> (r: Result<(), Error>)
        requires
            old(self).wf(),
        ensures
            final(self).wf(),
            final(self).next_id_spec() >= old(self).next_id_spec(),
            !old(self).has_role_spec(MANAGER, caller) ==> r == Err::<(), Error>(Error::MissingRole)
                && *final(self) == *old(self),
            old(self).has_role_spec(MANAGER, caller) ==> {
                &&& r == Ok::<(), Error>(())
                &&& final(self).uri_spec(id) == None::<Seq<char>>
                &&& forall|t: TokenId| t != id ==> final(self).uri_spec(t) == old(self).uri_spec(t)
                &&& Self::only_uris_changed(*old(self), *final(self))
                &&& final(self).log_spec() == old(self).log_spec()
            },
    {
        let ghost pre = *self;
        if !self.members.contains(MANAGER, caller) {
            return Err(Error::MissingRole);
        }
        self.token_uris.remove(id as u64);
        proof {
            lemma_ledger_clauses_framed(pre, *self);
        }
        Ok(())
    }

    /// Overwrite the location string of `id`; gated by the management role.
    pub fn update_token_location(
        &mut self,
        caller: AccountId,
        id: TokenId,
        token_location: String,
    ) -> (r: Result<(), Error>)
        requires
            old(self).wf(),
        ensures
            final(self).wf(),
            final(self).next_id_spec() >= old(self).next_id_spec(),
            !old(self).has_role_spec(MANAGER, caller) ==> r == Err::<(), Error>(Error::MissingRole)
                && *final(self) == *old(self),
            old(self).has_role_spec(MANAGER, caller) ==> {
                &&& r == Ok::<(), Error>(())
                &&& final(self).location_spec(id) == Some(token_location@)
                &&& forall|t: TokenId|
                    t != id ==> final(self).location_spec(t) == old(self).location_spec(t)
                &&& Self::only_locations_changed(*old(self), *final(self))
                &&& Self::log_extended(*old(self), *final(self), 1)
                &&& (final(self).log_spec().last() matches Notification::SetTokenLocation(e)
                    && e.id == id && e.token_location@ == token_location@)
            },
    {
        let ghost pre = *self;
        if !self.members.contains(MANAGER, caller) {
            return Err(Error::MissingRole);
        }
        self.token_locations.set(id as u64, token_location.clone());
        self.log.push(
            Notification::SetTokenLocation(SetTokenLocation { id, token_location }),
        );
        proof {
            lemma_ledger_clauses_framed(pre, *self);
            assert(self.log@.take(pre.log@.len() as int) =~= pre.log@);
        }
        Ok(())
    }

    /// Delete the location string of `id`; gated by the management role.
    /// Deleting an absent entry is a harmless no-op.
    pub fn remove_token_location(&mut self, caller: AccountId, id: TokenId) -> (r: Result<
        (),
        Error,
    >)
        requires
            old(self).wf(),
        ensures
            final(self).wf(),
            final(self).next_id_spec() >= old(self).next_id_spec(),
            !old(self).has_role_spec(MANAGER, caller) ==> r == Err::<(), Error>(Error::MissingRole)
                && *final(self) == *old(self),
            old(self).has_role_spec(MANAGER, caller) ==> {
                &&& r == Ok::<(), Error>(())
                &&& final(self).location_spec(id) == None::<Seq<char>>
                &&& forall|t: TokenId|
                    t != id ==> final(self).location_spec(t) == old(self).location_spec(t)
                &&& Self::only_locations_changed(*old(self), *final(self))
                &&& final(self).log_spec() == old(self).log_spec()
            },
    {
        let ghost pre = *self;
        if !self.members.contains(MANAGER, caller) {
            return Err(Error::MissingRole);
        }
        self.token_locations.remove(id as u64);
        proof {
            lemma_ledger_clauses_framed(pre, *self);
        }
        Ok(())
    }

    /// Make `account` a member of `role`. The caller must hold the role
    /// administering `role`; granting to an existing member is idempotent.
    pub fn grant_role(&mut self, caller: AccountId, role: RoleType, account: AccountId) -> (r:
        Result<(), Error>)
        requires
            old(self).wf(),
        ensures
            final(self).wf(),
            final(self).next_id_spec() >= old(self).next_id_spec(),
            !old(self).has_role_spec(old(self).role_admin_spec(role), caller) ==> r == Err::<
                (),
                Error,
            >(Error::MissingRole) && *final(self) == *old(self),
            old(self).has_role_spec(old(self).role_admin_spec(role), caller) ==> {
                &&& r == Ok::<(), Error>(())
                &&& forall|ro: RoleType, a: AccountId|
                    final(self).has_role_spec(ro, a) == (old(self).has_role_spec(ro, a) || (ro, a)
                        == (role, account))
                &&& Self::only_members_changed(*old(self), *final(self))
                &&& Self::log_extended(*old(self), *final(self), 1)
                &&& (final(self).log_spec().last() matches Notification::RoleGranted(e) && e.role
                    == role && e.grantee == account && e.grantor == Some(caller))
            },
    {
        let ghost pre = *self;
        let admin = self.get_role_admin(role);
        if !self.members.contains(admin, caller) {
            return Err(Error::MissingRole);
        }
        self.members.insert(role, account);
        self.log.push(
            Notification::RoleGranted(
                RoleGranted { role, grantee: account, grantor: Some(caller) },
            ),
        );
        proof {
            lemma_ledger_clauses_framed(pre, *self);
            assert(self.log@.take(pre.log@.len() as int) =~= pre.log@);
        }
        Ok(())
    }

    /// Remove `account` from `role`. The caller must hold the role
    /// administering `role`; revoking a non-member is idempotent.
    pub fn revoke_role(&mut self, caller: AccountId, role: RoleType, account: AccountId) -> (r:
        Result<(), Error>)
        requires
            old(self).wf(),
        ensures
            final(self).wf(),
            final(self).next_id_spec() >= old(self).next_id_spec(),
            !old(self).has_role_spec(old(self).role_admin_spec(role), caller) ==> r == Err::<
                (),
                Error,
            >(Error::MissingRole) && *final(self) == *old(self),
            old(self).has_role_spec(old(self).role_admin_spec(role), caller) ==> {
                &&& r == Ok::<(), Error>(())
                &&& forall|ro: RoleType, a: AccountId|
                    final(self).has_role_spec(ro, a) == (old(self).has_role_spec(ro, a) && (ro, a)
                        != (role, account))
                &&& Self::only_members_changed(*old(self), *final(self))
                &&& Self::log_extended(*old(self), *final(self), 1)
                &&& (final(self).log_spec().last() matches Notification::RoleRevoked(e) && e.role
                    == role && e.account == account && e.sender == caller)
            },
    {
        let ghost pre = *self;
        let admin = self.get_role_admin(role);
        if !self.members.contains(admin, caller) {
            return Err(Error::MissingRole);
        }
        self.members.remove(role, account);
        self.log.push(
            Notification::RoleRevoked(RoleRevoked { role, account, sender: caller }),
        );
        proof {
            lemma_ledger_clauses_framed(pre, *self);
            assert(self.log@.take(pre.log@.len() as int) =~= pre.log@);
        }
        Ok(())
    }

    /// Change the role administering `role`. The caller must hold the
    /// current admin role of `role`. The registry does not detect admin
    /// cycles; keeping the admin relation acyclic is the caller's duty.
    pub fn set_role_admin(&mut self, caller: AccountId, role: RoleType, new_admin: RoleType) -> (r:
        Result<(), Error>)
        requires
            old(self).wf(),
        ensures
            final(self).wf(),
            final(self).next_id_spec() >= old(self).next_id_spec(),
            !old(self).has_role_spec(old(self).role_admin_spec(role), caller) ==> r == Err::<
                (),
                Error,
            >(Error::MissingRole) && *final(self) == *old(self),
            old(self).has_role_spec(old(self).role_admin_spec(role), caller) ==> {
                &&& r == Ok::<(), Error>(())
                &&& final(self).role_admin_spec(role) == new_admin
                &&& forall|ro: RoleType|
                    ro != role ==> final(self).role_admin_spec(ro) == old(self).role_admin_spec(ro)
                &&& Self::only_admins_changed(*old(self), *final(self))
                &&& Self::log_extended(*old(self), *final(self), 1)
                &&& (final(self).log_spec().last() matches Notification::RoleAdminChanged(e)
                    && e.role == role && e.previous == old(self).role_admin_spec(role)
                    && e.new_admin == new_admin)
            },
    {
        let ghost pre = *self;
        let previous = self.get_role_admin(role);
        if !self.members.contains(previous, caller) {
            return Err(Error::MissingRole);
        }
        self.admin_roles.set(role as u64, new_admin);
        self.log.push(
            Notification::RoleAdminChanged(RoleAdminChanged { role, previous, new_admin }),
        );
        proof {
            lemma_ledger_clauses_framed(pre, *self);
            assert(self.log@.take(pre.log@.len() as int) =~= pre.log@);
        }
        Ok(())
    }

    /// The identifiers `account` owns, among all identifiers issued so far,
    /// in increasing order.
    pub open spec fn owned_ids_below(self, owner: AccountId, n: int) -> Seq<TokenId>
        decreases n,
    {
        if n <= 0 {
            Seq::empty()
        } else {
            let rest = self.owned_ids_below(owner, n - 1);
            if self.owner_of_spec((n - 1) as TokenId) == Some(owner) {
                rest.push((n - 1) as TokenId)
            } else {
                rest
            }
        }
    }

    /// Every identifier owned by `owner`, found by a linear scan over all
    /// identifiers issued so far (cost grows with the total ever minted, by
    /// design).
    pub fn nft_ids_of(&self, owner: AccountId) -> (r: Option<Vec<TokenId>>)
        requires
            self.wf(),
        ensures
            (r matches Some(v) && v@ == self.owned_ids_below(owner, self.next_id_spec() as int)),
    {
        let mut ids: Vec<TokenId> = Vec::new();
        let n = self.next_id;
        let mut i: TokenId = 0;
        while i < n
            invariant
                i <= n,
                n == self.next_id_spec(),
                self.wf(),
                ids@ == self.owned_ids_below(owner, i as int),
            decreases n - i,
        {
            match self.token_owner.get(i as u64) {
                Some(a) => {
                    if *a == owner {
                        ids.push(i);
                    }
                },
                None => {},
            }
            i = i + 1;
        }
        Some(ids)
    }

    /// Decide whether `caller` may replace the contract's code: only
    /// management role holders may. The registry records no code reference;
    /// performing the replacement is the host's job once this returns `Ok`.
    pub fn set_code(&self, caller: AccountId, code_hash: [u8; 32]) -> (r: Result<(), Error>)
        requires
            self.wf(),
        ensures
            r == if self.has_role_spec(MANAGER, caller) {
                Ok::<(), Error>(())
            } else {
                Err::<(), Error>(Error::MissingRole)
            },
    {
        let _ = code_hash;
        if self.members.contains(MANAGER, caller) {
            Ok(())
        } else {
            Err(Error::MissingRole)
        }
    }

    /// What the owned-identifier listing holds: exactly the identifiers
    /// below `n` whose live owner is `owner`, in strictly increasing order.
    pub proof fn lemma_owned_ids_characterized(self, owner: AccountId, n: int)
        requires
            0 <= n <= u32::MAX as int + 1,
        ensures
            forall|k: int|
                0 <= k < self.owned_ids_below(owner, n).len() ==> self.owned_ids_below(owner, n)[k]
                    < n && self.owner_of_spec(#[trigger] self.owned_ids_below(owner, n)[k])
                    == Some(owner),
            forall|t: TokenId|
                t < n && self.owner_of_spec(t) == Some(owner) ==> self.owned_ids_below(
                    owner,
                    n,
                ).contains(t),
            forall|k1: int, k2: int|
                0 <= k1 < k2 < self.owned_ids_below(owner, n).len() ==> self.owned_ids_below(
                    owner,
                    n,
                )[k1] < self.owned_ids_below(owner, n)[k2],
        decreases n,
    {
        if n > 0 {
            self.lemma_owned_ids_characterized(owner, n - 1);
            let rest = self.owned_ids_below(owner, n - 1);
            let cur = self.owned_ids_below(owner, n);
            assert forall|t: TokenId|
                t < n && self.owner_of_spec(t) == Some(owner) implies cur.contains(t) by {
                if t < n - 1 {
                    assert(rest.contains(t));
                    let k = choose|k: int| 0 <= k < rest.len() && #[trigger] rest[k] == t;
                    assert(cur[k] == t);
                } else {
                    assert(cur[cur.len() - 1] == t);
                }
            }
            assert forall|k1: int, k2: int|
                0 <= k1 < k2 < cur.len() implies cur[k1] < cur[k2] by {
                if self.owner_of_spec((n - 1) as TokenId) == Some(owner) {
                    assert(cur == rest.push((n - 1) as TokenId));
                    if k2 < rest.len() {
                        assert(cur[k1] == rest[k1] && cur[k2] == rest[k2]);
                    } else {
                        assert(cur[k2] == (n - 1) as TokenId);
                        assert(cur[k1] == rest[k1]);
                        assert(rest[k1] < n - 1);
                    }
                } else {
                    assert(cur == rest);
                }
            }
        }
    }

    /// In every well-formed state the balance counters sum to the number of
    /// live ownership records — equivalently, to the number of identifiers
    /// with a live owner.
    pub proof fn lemma_balance_sum_invariant(self)
        requires
            self.wf(),
        ensures
            self.balance_total() == self.live_tokens(),
            self.balance_total() == self.token_owner@.dom().len(),
    {
        self.token_owner.lemma_view_len();
    }

    /// Two mints never issue the same identifier. A mint issues exactly the
    /// cursor's value and advances the cursor past it (`mint_post`), and no
    /// operation ever moves the cursor back, so any mint performed from a
    /// state reached after the first one issues a strictly larger value.
    pub proof fn lemma_mint_ids_never_reused(
        pre1: Self,
        post1: Self,
        account1: AccountId,
        location1: Seq<char>,
        uri1: Seq<char>,
        pre2: Self,
        post2: Self,
        account2: AccountId,
        location2: Seq<char>,
        uri2: Seq<char>,
    )
        requires
            Self::mint_post(pre1, post1, account1, location1, uri1),
            Self::mint_post(pre2, post2, account2, location2, uri2),
            post1.next_id_spec() <= pre2.next_id_spec(),
        ensures
            pre2.next_id_spec() > pre1.next_id_spec(),
    {
    }

    /// Transferring a token revokes every approval scoped to it: after the
    /// owner `from` moves token `id` to `to`, an operator the old owner had
    /// approved for `id` holds no allowance against the new owner, so a
    /// subsequent transfer attempt by that operator fails with `NotApproved`.
    pub proof fn lemma_transfer_revokes_token_approvals(
        pre: Self,
        post: Self,
        from: AccountId,
        to: AccountId,
        operator: AccountId,
        id: TokenId,
    )
        requires
            Self::transfer_post(pre, post, from, to, id),
            operator != to,
            !pre.approved_spec(to, operator, None),
        ensures
            !post.approved_spec(from, operator, Some(id)),
            post.owner_of_spec(id) == Some(to),
            !post.allowance_spec(to, operator, id),
    {
    }
}

} // verus!
