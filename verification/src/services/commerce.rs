//! The commerce client's retry policy. The client itself is an outside
//! collaborator; the decision of whether and how long to wait before the
//! next attempt lives here, so the surrounding retry loop carries no logic
//! of its own.

use vstd::prelude::*;

verus! {

/// How many attempts a transient commerce failure is given before it
/// surfaces as unavailable.
pub const COMMERCE_RETRY_ATTEMPTS: u32 = 3;

/// The wait before the next attempt after a transient failure on attempt
/// `attempt` (counted from zero): 50, 200 and 800 milliseconds, then give
/// up.
pub fn retry_backoff_ms(attempt: u32) -> (r: Option<u64>)
    ensures
        attempt == 0 ==> r == Some(50u64),
        attempt == 1 ==> r == Some(200u64),
        attempt == 2 ==> r == Some(800u64),
        attempt >= COMMERCE_RETRY_ATTEMPTS ==> r is None,
{
    if attempt == 0 {
        Some(50)
    } else if attempt == 1 {
        Some(200)
    } else if attempt == 2 {
        Some(800)
    } else {
        None
    }
}

} // verus!
