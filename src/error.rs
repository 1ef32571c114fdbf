use vstd::prelude::*;

verus! {

/// Why a store operation failed.
#[derive(Debug)]
pub enum StoreError {
    /// A guard around shared state could not be taken; the store must not be used further.
    LockFailure,
    /// The durable engine reported a failure; the engine's message is kept.
    Backend(String),
    /// A key or value could not be encoded or decoded.
    Codec(String),
}

} // verus!
