use vstd::prelude::*;

verus! {

/// A fixed-size account identity. The registry never inspects its structure,
/// only compares it for equality.
pub type AccountId = u64;

/// A token identifier: an unsigned 32-bit counter value issued by the
/// allocator, unique across the token's lifetime.
pub type TokenId = u32;

/// A role identifier: an opaque numeric permission bucket.
pub type RoleType = u32;

/// The role whose members may administer any role that has no explicit
/// admin entry of its own.
pub const DEFAULT_ADMIN_ROLE: RoleType = 0;

/// The management role gating privileged mutations (minting, burning,
/// transfers and metadata updates on behalf of the collection).
pub const MANAGER: RoleType = 0x73a5ca6d;

/// The entity a generic attribute is attached to: either the collection as
/// a whole, or one token. Collection-level attributes can never collide
/// with per-token metadata because the two variants are distinct.
#[derive(Clone, Copy, PartialEq, Eq, Structural, Debug)]
pub enum EntityId {
    Collection,
    Token(TokenId),
}

/// Every failure a registry operation can report. Operations fail fast:
/// on any error the state is exactly as it was before the call.
#[derive(Clone, Copy, PartialEq, Eq, Structural, Debug)]
pub enum Error {
    /// A mint referenced a token identifier that is already live.
    TokenExists,
    /// The operation referenced a token identifier with no live owner.
    TokenNotFound,
    /// The acting account is not the owner of the token.
    NotOwner,
    /// The acting account is neither the owner nor an approved operator.
    NotApproved,
    /// The acting account lacks the role gating the operation.
    MissingRole,
}

} // verus!
