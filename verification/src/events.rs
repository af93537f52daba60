use crate::types::{AccountId, EntityId, RoleType, TokenId};
use vstd::prelude::*;

verus! {

/// Emitted when token ownership changes: a mint (`from == None`), a
/// transfer, or a burn (`to == None`).
#[derive(Clone, PartialEq, Eq, Debug)]
pub struct Transfer {
    pub from: Option<AccountId>,
    pub to: Option<AccountId>,
    pub id: TokenId,
}

/// Emitted when an approval flag changes.
#[derive(Clone, PartialEq, Eq, Debug)]
pub struct Approval {
    pub from: AccountId,
    pub to: AccountId,
    pub id: Option<TokenId>,
    pub approved: bool,
}

/// Emitted when a token's content URI is set or overwritten.
#[derive(Clone, PartialEq, Eq, Debug)]
pub struct SetTokenUri {
    pub id: TokenId,
    pub token_uri: String,
}

/// Emitted when a token's location string is set or overwritten.
#[derive(Clone, PartialEq, Eq, Debug)]
pub struct SetTokenLocation {
    pub id: TokenId,
    pub token_location: String,
}

/// Emitted when a collection attribute is set or overwritten.
#[derive(Clone, PartialEq, Eq, Debug)]
pub struct SetAttribute {
    pub id: EntityId,
    pub key: String,
    pub data: String,
}

/// Emitted when a role's admin role changes.
#[derive(Clone, Copy, PartialEq, Eq, Structural, Debug)]
pub struct RoleAdminChanged {
    pub role: RoleType,
    pub previous: RoleType,
    pub new_admin: RoleType,
}

/// Emitted when a role is granted (`grantor == None` for the bootstrap
/// grant made at construction).
#[derive(Clone, Copy, PartialEq, Eq, Structural, Debug)]
pub struct RoleGranted {
    pub role: RoleType,
    pub grantee: AccountId,
    pub grantor: Option<AccountId>,
}

/// Emitted when a role is revoked.
#[derive(Clone, Copy, PartialEq, Eq, Structural, Debug)]
pub struct RoleRevoked {
    pub role: RoleType,
    pub account: AccountId,
    pub sender: AccountId,
}

/// One observable state change. Each committed operation records one
/// notification per state change; the host delivers them after the
/// operation succeeds.
#[derive(Clone, PartialEq, Eq, Debug)]
pub enum Notification {
    Transfer(Transfer),
    Approval(Approval),
    SetTokenUri(SetTokenUri),
    SetTokenLocation(SetTokenLocation),
    SetAttribute(SetAttribute),
    RoleAdminChanged(RoleAdminChanged),
    RoleGranted(RoleGranted),
    RoleRevoked(RoleRevoked),
}

} // verus!
