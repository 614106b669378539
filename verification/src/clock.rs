//! Wall-clock access for operations whose caller supplies no timestamp.

use vstd::prelude::*;
use crate::models::tick_in_range;

verus! {

/// Relies on `time::OffsetDateTime::now_utc` and `unix_timestamp`: the
/// crate's representable datetime range (years within +/-999999 even with
/// its widest configuration) keeps the returned number of seconds well
/// within `MAX_TICK` of the Unix epoch.
#[verifier::external_body]
pub(crate) fn now_ticks() -> (t: i64)
    ensures
        tick_in_range(t as int),
{
    time::OffsetDateTime::now_utc().unix_timestamp()
}

} // verus!
