//! An on-chain style non-fungible-token registry: unique token identifiers,
//! an ownership ledger with per-account balances, operator approvals,
//! per-token metadata (content URI and location), collection attributes,
//! and a hierarchical role graph gating privileged mutations.
//!
//! All state lives in one explicitly owned [`contract::PeerNftcontract`]
//! aggregate; every operation takes the acting account as an argument and
//! returns a typed result, and each committed state change is recorded as a
//! [`events::Notification`] for the host to deliver.

pub mod approvals;
pub mod attrs;
pub mod contract;
pub mod events;
pub mod kv;
pub mod roles;
pub mod types;

pub use contract::PeerNftcontract;
pub use types::{AccountId, EntityId, Error, RoleType, TokenId, DEFAULT_ADMIN_ROLE, MANAGER};
