use crate::id::Id;
use vstd::prelude::*;

verus! {

/// A stored row: its id, when it was stored, and its value.
pub struct Persisted<T> {
    pub id: Id<T>,
    /// Storage time, in seconds since the Unix epoch (UTC).
    pub created_at: i64,
    pub value: T,
}

} // verus!
