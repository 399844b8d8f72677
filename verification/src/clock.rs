//! Points in time, and how the age of a cache entry survives a restart.
use vstd::prelude::*;

verus! {

/// Nanoseconds in a second.
pub const NANOS_PER_SEC: u64 = 1_000_000_000;

/// A point in time, in nanoseconds on a clock that never goes back.
#[derive(Clone, Copy, Debug, PartialEq, Eq, Structural)]
pub struct Instant {
    pub nanos: u64,
}

impl Instant {
    /// The whole seconds that have passed at `now`; none where `now` is earlier.
    pub open spec fn age(self, now: Instant) -> nat {
        if now.nanos >= self.nanos {
            (now.nanos - self.nanos) as nat / NANOS_PER_SEC as nat
        } else {
            0
        }
    }

    /// The whole seconds that have passed at `now`.
    pub fn elapsed_secs(&self, now: Instant) -> (r: u64)
        ensures
            r == self.age(now),
    {
        if now.nanos >= self.nanos {
            (now.nanos - self.nanos) / NANOS_PER_SEC
        } else {
            0
        }
    }
}

/// The time stamp under which a point in time is stored at `now`, which is `since_epoch`
/// nanoseconds after the epoch: the seconds up to `now`, less what the point lies ahead of it.
pub open spec fn stamp(instant: Instant, now: Instant, since_epoch: u128) -> nat {
    let ahead = if instant.nanos > now.nanos {
        (instant.nanos - now.nanos) as nat
    } else {
        0
    };
    if since_epoch as nat >= ahead {
        ((since_epoch as nat - ahead) as nat) / NANOS_PER_SEC as nat
    } else {
        0
    }
}

/// The time stamp under which a point in time is stored.
pub fn serialize_instant(instant: Instant, now: Instant, since_epoch: u128) -> (r: u64)
    requires
        since_epoch / 1_000_000_000 <= u64::MAX,
    ensures
        r == stamp(instant, now, since_epoch),
{
    let ahead: u64 = if instant.nanos > now.nanos {
        instant.nanos - now.nanos
    } else {
        0
    };
    if since_epoch >= ahead as u128 {
        let secs: u128 = (since_epoch - ahead as u128) / (NANOS_PER_SEC as u128);
        secs as u64
    } else {
        0
    }
}

/// The point in time that a time stamp stands for at `now`, which is `since_epoch` nanoseconds
/// after the epoch; none where the stamp lies ahead.
pub open spec fn unstamped(timestamp: u64, now: Instant, since_epoch: u128) -> Option<int> {
    if since_epoch as int >= timestamp * NANOS_PER_SEC {
        Some(now.nanos - (since_epoch as int - timestamp * NANOS_PER_SEC))
    } else {
        None
    }
}

/// The point in time that a time stamp stands for. A stamp is left out that stands for a time
/// before the clock started.
pub fn deserialize_instant(timestamp: u64, now: Instant, since_epoch: u128) -> (r: Result<
    Instant,
    &'static str,
>)
    requires
        unstamped(timestamp, now, since_epoch) matches Some(n) ==> n >= 0,
    ensures
        match unstamped(timestamp, now, since_epoch) {
            Some(n) => r matches Ok(i) && i.nanos == n,
            None => r matches Err(e) && e@ == "Invalid timestamp"@,
        },
{
    let stored: u128 = (timestamp as u128) * (NANOS_PER_SEC as u128);
    if since_epoch >= stored {
        let past: u128 = since_epoch - stored;
        Ok(Instant { nanos: now.nanos - past as u64 })
    } else {
        Err("Invalid timestamp")
    }
}

/// The age of what is stored counts from when it was stored: a point in time that is not ahead,
/// stored at one time and read back later, is as old as the time between the two, and less than a
/// second more.
pub proof fn law_age_counts_from_storing(
    instant: Instant,
    stored: Instant,
    stored_epoch: u128,
    read: Instant,
    read_epoch: u128,
)
    requires
        instant.nanos <= stored.nanos,
        stored_epoch / 1_000_000_000 <= u64::MAX,
        read_epoch >= stored_epoch,
    ensures
        unstamped(stamp(instant, stored, stored_epoch) as u64, read, read_epoch) matches Some(n)
            && read_epoch - stored_epoch <= read.nanos - n < read_epoch - stored_epoch
            + NANOS_PER_SEC,
{
    let s = stamp(instant, stored, stored_epoch);
    assert(s == stored_epoch as nat / NANOS_PER_SEC as nat);
    assert(s <= u64::MAX);
    assert(s * NANOS_PER_SEC <= stored_epoch < s * NANOS_PER_SEC + NANOS_PER_SEC) by (nonlinear_arith)
        requires
            s == stored_epoch as nat / 1_000_000_000nat,
            NANOS_PER_SEC == 1_000_000_000,
    ;
}

} // verus!
