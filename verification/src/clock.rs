//! Receipt timestamps.

use vstd::prelude::*;

verus! {

/// Nanoseconds in one second.
pub const NSEC_PER_SEC: i32 = 1_000_000_000;

/// A point in time: whole seconds since the epoch and the nanoseconds
/// within that second.
#[derive(Clone, Copy, Debug, PartialEq, Eq, Structural)]
pub struct Timespec {
    pub sec: i64,
    pub nsec: i32,
}

impl Timespec {
    /// The nanosecond part lies within one second.
    pub open spec fn wf(self) -> bool {
        0 <= self.nsec < NSEC_PER_SEC
    }

    /// `None` unless `nsec` lies within one second.
    pub fn new(sec: i64, nsec: i32) -> (r: Option<Timespec>)
        ensures
            r == if 0 <= nsec < NSEC_PER_SEC {
                Some(Timespec { sec, nsec })
            } else {
                None::<Timespec>
            },
    {
        if 0 <= nsec && nsec < NSEC_PER_SEC {
            Some(Timespec { sec, nsec })
        } else {
            None
        }
    }
}

/// Reads the system clock through `time::get_time`. Nothing is claimed of
/// the instant itself; the nanosecond field is within one second, which
/// `time::Timespec::new` asserts before `get_time` returns.
#[verifier::external_body]
pub(crate) fn get_time() -> (now: Timespec)
    ensures
        now.wf(),
{
    let t = time::get_time();
    Timespec { sec: t.sec, nsec: t.nsec }
}

} // verus!
