//! The wall clock and the one source of chance the player uses.
use vstd::prelude::*;

verus! {

/// The current time in milliseconds since the Unix epoch, read from
/// `std::time::SystemTime::now` by `duration_since(UNIX_EPOCH)` and
/// `Duration::as_millis`: 0 when the clock reads a time before the epoch, and
/// `i64::MAX` past what an `i64` holds (`chrono::Utc::now` panics on a clock
/// before the epoch; this reading does not). The contract claims only that the
/// value is not negative: it is whatever the system clock reads.
#[verifier::external_body]
pub(crate) fn now_millis() -> (r: i64)
    ensures
        r >= 0,
{
    match std::time::SystemTime::now().duration_since(std::time::UNIX_EPOCH) {
        Ok(d) => i64::try_from(d.as_millis()).unwrap_or(i64::MAX),
        Err(_) => 0,
    }
}

/// `Duration::subsec_nanos` of the time since the Unix epoch by
/// `std::time::SystemTime` (zero when the clock reads a time before the epoch),
/// as the player's stand-in for a random number. The contract claims only what
/// `subsec_nanos` documents: the value is below one billion.
#[verifier::external_body]
pub(crate) fn rand_usize() -> (r: usize)
    ensures
        r < 1_000_000_000,
{
    std::time::SystemTime::now().duration_since(std::time::UNIX_EPOCH).unwrap_or_default().subsec_nanos() as usize
}

} // verus!
