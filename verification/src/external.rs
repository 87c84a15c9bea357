//! Calls into the outside world that the hub's logic needs in the middle of
//! its work: minting fresh identifiers and reading the wall clock. Both
//! results are nondeterministic, so the dispatch logic takes them as
//! arguments and is verified for every value they could have.

use vstd::prelude::*;

verus! {

/// Relies on `uuid::Uuid::new_v4` and `Uuid::as_u128`: a freshly drawn
/// random identifier. `new_v4` always sets the version and variant bits
/// (`| 0x4000_8000_0000_0000_0000`), so the value is never zero.
#[verifier::external_body]
pub(crate) fn fresh_uuid() -> (r: u128)
    ensures
        r != 0,
{
    uuid::Uuid::new_v4().as_u128()
}

/// Relies on `chrono::Utc::now` and `DateTime::timestamp_millis`: the
/// current wall-clock time as milliseconds since the Unix epoch. Nothing
/// can be promised of a clock reading.
#[verifier::external_body]
pub(crate) fn now_millis() -> (r: i64) {
    chrono::Utc::now().timestamp_millis()
}

/// Relies on `String::push`: appends one character to the string.
pub assume_specification[ String::push ](s: &mut String, ch: char)
    ensures
        final(s)@ == old(s)@.push(ch),
;

} // verus!
