//! A permissioned relationship ledger: deterministically addressed,
//! fixed-schema records that model pairwise friend links and group
//! memberships with invitations. Every mutation checks who may act, in what
//! state the record must be, and how storage deposits are funded and
//! refunded; a failing check aborts the whole operation with no observable
//! side effect.
//!
//! - `ident` -- the 32-byte identifier space, its equality and order;
//! - `address` -- deterministic record addressing with a discriminator byte;
//! - `errors` -- the error taxonomy every rejection is drawn from;
//! - `validation` -- bounded-length checks applied before any write;
//! - `friends` -- the friend pairing state machine;
//! - `groups` -- the group membership and invitation graph;
//! - `users` -- user profile records;
//! - `delegation` -- the authorization checks of the token-delegation
//!   pass-through.

pub mod address;
pub mod delegation;
pub mod errors;
pub mod friends;
pub mod groups;
pub mod ident;
pub mod users;
pub mod validation;
