//! Fresh identifiers and wall-clock time, from the `uuid` and `chrono`
//! crates. Nothing can be promised about which value comes back; callers
//! state what holds for every outcome.

use vstd::prelude::*;

verus! {

/// Relies on uuid::Uuid::new_v4 and its hyphenated rendering: a random
/// version-4 UUID always prints as 36 characters.
#[verifier::external_body]
pub fn new_uuid() -> (r: String)
    ensures
        r@.len() == 36,
{
    uuid::Uuid::new_v4().to_string()
}

/// Relies on chrono::Utc::now: the current wall-clock time as Unix seconds.
/// Nothing is assumed about the value.
#[verifier::external_body]
pub fn now_unix() -> (r: i64)
{
    chrono::Utc::now().timestamp()
}

} // verus!
