//! The wall clock.

use std::time::UNIX_EPOCH;

use vstd::prelude::*;

use crate::attribution::saturated;

verus! {

/// `SystemTime::elapsed` since the epoch, in nanoseconds; nothing where the
/// clock stands before the epoch. What comes back depends on the clock alone.
#[verifier::external_body]
pub(crate) fn nanos_since_epoch() -> (elapsed: Option<u128>) {
    match UNIX_EPOCH.elapsed() {
        Ok(elapsed) => Some(elapsed.as_nanos()),
        Err(_) => None,
    }
}

/// A clock reading as a time stamp: the start of the epoch where the clock
/// stands before it, the last time that 64 bits can hold where it stands
/// beyond that.
pub open spec fn stamp_of(elapsed: Option<u128>) -> u64 {
    match elapsed {
        Some(nanos) => saturated(nanos as int),
        None => 0,
    }
}

/// Makes a time stamp of a clock reading.
pub fn unix_stamp(elapsed: Option<u128>) -> (stamp: u64)
    ensures
        stamp == stamp_of(elapsed),
{
    match elapsed {
        Some(nanos) => crate::attribution::saturate_to_u64(nanos),
        None => 0,
    }
}

/// The stamp of the present clock reading. Any may come back, so nothing is stated of it.
pub(crate) fn unix_now() -> (stamp: u64) {
    unix_stamp(nanos_since_epoch())
}

/// A clock reading is its own stamp as far as 64 bits can hold it, and else the last
/// one that they can; before the epoch the stamp is its start.
pub proof fn stamps_keep_what_fits(nanos: u128)
    ensures
        nanos <= 0xffff_ffff_ffff_ffff ==> stamp_of(Some(nanos)) == nanos,
        nanos > 0xffff_ffff_ffff_ffff ==> stamp_of(Some(nanos)) == 0xffff_ffff_ffff_ffffu64,
        stamp_of(None) == 0,
{
}

} // verus!
