//! Per-frame bookkeeping decisions.

use vstd::prelude::*;

verus! {

/// Whether the once-per-second frame-time diagnostics are due: either none
/// was printed yet, or at least a full second has passed since the last one.
/// The timestamps are monotonic milliseconds, so `now` never precedes `last`.
pub fn should_print_diagnostics(last_print_millis: u128, now_millis: u128) -> (r: bool)
    requires
        last_print_millis <= now_millis,
    ensures
        r == (last_print_millis == 0 || now_millis - last_print_millis >= 1000),
{
    last_print_millis == 0 || now_millis - last_print_millis >= 1000
}

} // verus!
