//! The wall clock.
use std::time::{Duration, SystemTime};
use vstd::prelude::*;

verus! {

/// `std::time::SystemTime`, carried as an opaque value.
#[verifier::external_type_specification]
#[verifier::external_body]
pub struct ExSystemTime(std::time::SystemTime);

/// The whole milliseconds of a `Duration`, as `std::time::Duration::as_millis` gives them.
pub uninterp spec fn whole_millis(d: Duration) -> u128;

/// `std::time::SystemTime::now`: the current time, about which nothing is promised.
#[verifier::external_body]
fn clock() -> (t: SystemTime) {
    SystemTime::now()
}

/// How long after the Unix epoch a time is, as `std::time::SystemTime::duration_since` gives it;
/// nothing for a time before the epoch.
pub uninterp spec fn epoch_gap(t: SystemTime) -> Option<Duration>;

/// `std::time::SystemTime::duration_since` the Unix epoch: a function of the time alone.
#[verifier::external_body]
fn since_epoch(t: SystemTime) -> (d: Option<Duration>)
    ensures
        d == epoch_gap(t),
{
    t.duration_since(std::time::UNIX_EPOCH).ok()
}

/// `std::time::Duration::as_millis`.
pub assume_specification[ Duration::as_millis ](d: &Duration) -> (ms: u128)
    ensures
        ms == whole_millis(*d),
;

/// Epoch milliseconds as they are stored: the low 64 bits, and zero for a time before the epoch.
pub open spec fn stored_ms(since: Option<u128>) -> int {
    match since {
        Some(ms) => ms as int % 0x1_0000_0000_0000_0000,
        None => 0,
    }
}

/// Epoch milliseconds as they are stored.
pub fn epoch_ms(since: Option<u128>) -> (r: u64)
    ensures
        r == stored_ms(since),
{
    match since {
        Some(ms) => {
            let low: u128 = ms % 0x1_0000_0000_0000_0000;
            low as u64
        },
        None => 0,
    }
}

/// The epoch milliseconds of a time, as they are stored.
pub open spec fn ms_of(t: SystemTime) -> int {
    stored_ms(
        match epoch_gap(t) {
            Some(d) => Some(whole_millis(d)),
            None => None,
        },
    )
}

/// Milliseconds since the Unix epoch: those of the time that the clock shows.
pub fn now_ms() -> (r: u64)
    ensures
        exists|t: SystemTime| r == #[trigger] ms_of(t),
{
    let t = clock();
    let r: u64 = match since_epoch(t) {
        Some(d) => epoch_ms(Some(d.as_millis())),
        None => epoch_ms(None),
    };
    assert(r == ms_of(t));
    r
}

/// A time since the epoch is stored as the milliseconds that it is, as long as they fit 64 bits;
/// what lies beyond is cut off, and a time before the epoch is stored as zero.
pub proof fn times_are_stored_as_they_are(ms: u128)
    ensures
        ms < 0x1_0000_0000_0000_0000 ==> stored_ms(Some(ms)) == ms,
        ms >= 0x1_0000_0000_0000_0000 ==> stored_ms(Some(ms)) == stored_ms(
            Some((ms - 0x1_0000_0000_0000_0000) as u128),
        ),
        stored_ms(None) == 0,
{
}

/// The milliseconds of a time after the epoch are the whole ones that have passed since; a time
/// before it has none.
pub proof fn times_are_whole_milliseconds(t: SystemTime)
    ensures
        epoch_gap(t) matches Some(d) ==> whole_millis(d) < 0x1_0000_0000_0000_0000 ==> ms_of(t)
            == whole_millis(d),
        epoch_gap(t) is None ==> ms_of(t) == 0,
{
}

} // verus!
