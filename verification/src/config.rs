//! Startup configuration policy: the ordered fallback chain for
//! credentials and the default polling interval.

use vstd::prelude::*;

verus! {

/// Seconds to wait between reconciliation cycles when the operator
/// gives no explicit interval.
pub const DEFAULT_REFRESH_TIMEOUT: u64 = 15 * 60;

/// First present value of an ordered fallback chain: a value given
/// explicitly (a command-line flag) wins over a fallback (an
/// environment variable); the fallback is used only when the explicit
/// value is absent.
pub fn first_present(explicit: Option<String>, fallback: Option<String>) -> (chosen: Option<
    String,
>)
    ensures
        explicit is Some ==> chosen == explicit,
        explicit is None ==> chosen == fallback,
{
    match explicit {
        Some(value) => Some(value),
        None => fallback,
    }
}

} // verus!
