use vstd::prelude::*;

verus! {

/// Seconds a player may stay silent before the match is given up on their
/// behalf.
pub const AFK_CC_TIMER: i64 = 180;

/// Seconds past the grace window after which a match counts as expired.
pub const EXPIRY_BUFFER: i64 = 30;

/// Whether `later` lies more than `window` seconds after `earlier`.
pub open spec fn elapsed_over(earlier: i64, later: i64, window: i64) -> bool {
    earlier + window < later
}

/// Whether `later` lies more than `window` seconds after `earlier`, worked
/// out without overflow.
pub fn is_elapsed_over(earlier: i64, later: i64, window: i64) -> (over: bool)
    ensures
        over == elapsed_over(earlier, later, window),
{
    let earlier_wide: i128 = earlier as i128;
    let window_wide: i128 = window as i128;
    let later_wide: i128 = later as i128;
    earlier_wide + window_wide < later_wide
}

/// The current time in seconds since 1970, read with `chrono::Utc::now()` and
/// `DateTime::timestamp`. Nothing is known of the result: it depends on the
/// machine's clock. On a machine whose clock is set before 1970 the call does
/// not return.
#[verifier::external_body]
pub(crate) fn current_timestamp() -> (now: i64) {
    chrono::Utc::now().timestamp()
}

} // verus!
