use vstd::prelude::*;

pub mod identifier;
pub mod identity;
mod text;
pub mod user;
pub mod users;
pub mod contacts;
pub mod dispatcher;
pub mod dispatcher_manager;

verus! {

/// Length in bytes of a fingerprint, the canonical identity key.
pub const FINGERPRINT_LEN: usize = 32;

} // verus!
