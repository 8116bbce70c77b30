pub mod codec;
pub mod crypto;
pub mod relay;
pub mod session;

use vstd::prelude::*;

verus! {

/// Capacity of each session's outbound delivery queue.
pub const QUEUE_CAPACITY: usize = 25;

/// Length in bytes of the ephemeral symmetric key used to wrap a credential.
pub const SYMM_KEY_LEN: usize = 32;

} // verus!
