use vstd::prelude::*;

pub mod codec;
pub mod dealings;
pub mod derivation;
pub mod errors;
pub mod filter;
pub mod finalization;
pub mod keys;
pub mod route;
pub mod state;
pub mod submission;
pub mod validation;

verus! {

/// Number of public attributes of the credential scheme.
pub const PUBLIC_ATTRIBUTES: usize = 2;

/// Number of private attributes of the credential scheme.
pub const PRIVATE_ATTRIBUTES: usize = 2;

/// Number of parallel secret-sharing polynomials the protocol runs: one
/// per credential attribute plus one for the top-level secret.
pub const TOTAL_DEALINGS: usize = PUBLIC_ATTRIBUTES + PRIVATE_ATTRIBUTES + 1;

} // verus!
