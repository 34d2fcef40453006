use vstd::prelude::*;

verus! {

/// The error a translation or embedding service reports.
pub struct ErrorResponse {
    pub message: String,
}

impl ErrorResponse {
    /// The service's message.
    pub fn message(&self) -> (r: &str)
        ensures
            r@ == self.message@,
    {
        self.message.as_str()
    }
}

/// HTTP 503 Service Unavailable: the service is busy, the call may be retried.
pub const SERVICE_UNAVAILABLE: u16 = 503;

/// Whether a response with HTTP status `status` is a transient failure,
/// to be retried: its status is one of `retry_codes`.
pub fn is_transient(status: u16, retry_codes: &Vec<u16>) -> (r: bool)
    ensures
        r == retry_codes@.contains(status),
{
    let mut i: usize = 0;
    while i < retry_codes.len()
        invariant
            i <= retry_codes@.len(),
            forall|k: int| 0 <= k < i ==> retry_codes@[k] != status,
        decreases retry_codes@.len() - i,
    {
        if retry_codes[i] == status {
            assert(retry_codes@[i as int] == status);
            return true;
        }
        i = i + 1;
    }
    false
}

} // verus!
