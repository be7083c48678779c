//! Wall-clock access for the convenience entry points; the core functions
//! all take the current time as an argument so that callers and tests can
//! fix it.

use vstd::prelude::*;

verus! {

/// Relies on chrono::Utc::now and chrono::DateTime::timestamp: the current
/// wall-clock time as whole seconds since the Unix epoch. Nothing is
/// promised of the value.
#[verifier::external_body]
pub fn now_seconds() -> i64 {
    chrono::Utc::now().timestamp()
}

} // verus!
