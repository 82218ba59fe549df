//! Wall-clock time as plain numbers: seconds of the local clock since its
//! epoch, and the nanoseconds within the second.

use vstd::prelude::*;

verus! {

pub const NANOS_PER_SEC: u32 = 1_000_000_000;

/// A point in time on the local clock.
#[derive(Clone, Copy, Debug, PartialEq, Eq, Structural)]
pub struct Moment {
    pub secs: u64,
    pub nanos: u32,
}

/// A span of time that is not negative.
#[derive(Clone, Copy, Debug, PartialEq, Eq, Structural)]
pub struct Delay {
    pub secs: u64,
    pub nanos: u32,
}

impl Moment {
    pub open spec fn wf(self) -> bool {
        self.nanos < NANOS_PER_SEC
    }

    pub open spec fn total_nanos(self) -> int {
        self.secs * 1_000_000_000 + self.nanos
    }

    /// Whether this moment lies after the whole second `target`.
    pub open spec fn is_after(self, target: u64) -> bool {
        self.secs > target || (self.secs == target && self.nanos > 0)
    }

    pub fn after(&self, target: u64) -> (r: bool)
        ensures
            r == self.is_after(target),
            self.wf() ==> r == (self.total_nanos() > target * 1_000_000_000),
    {
        self.secs > target || (self.secs == target && self.nanos > 0)
    }
}

impl Delay {
    pub open spec fn total_nanos(self) -> int {
        self.secs * 1_000_000_000 + self.nanos
    }
}

/// The time from `now` to the whole second `target`, for a `target` that `now`
/// is not after.
pub open spec fn delay_to(target: u64, now: Moment) -> Delay {
    if now.nanos == 0 {
        Delay { secs: (target - now.secs) as u64, nanos: 0 }
    } else {
        Delay { secs: (target - now.secs - 1) as u64, nanos: (NANOS_PER_SEC - now.nanos) as u32 }
    }
}

/// How long it is from `now` until the whole second `target`; nothing where
/// `target` has passed.
pub fn until(target: u64, now: Moment) -> (r: Option<Delay>)
    requires
        now.wf(),
    ensures
        now.is_after(target) ==> r is None,
        !now.is_after(target) ==> r == Some(delay_to(target, now)),
        r matches Some(d) ==> d.nanos < NANOS_PER_SEC && now.total_nanos() + d.total_nanos()
            == target * 1_000_000_000,
{
    if now.secs > target || (now.secs == target && now.nanos > 0) {
        None
    } else if now.nanos == 0 {
        Some(Delay { secs: target - now.secs, nanos: 0 })
    } else {
        Some(Delay { secs: target - now.secs - 1, nanos: NANOS_PER_SEC - now.nanos })
    }
}

/// `chrono::Local::now`, read as the seconds of the local wall clock since its
/// epoch and the nanoseconds within the second, as chrono's `naive_local`,
/// `timestamp` and `timestamp_subsec_nanos` give them. Nothing is claimed of
/// what the clock shows: within a leap second chrono counts the nanoseconds
/// past a thousand million.
#[verifier::external_body]
fn local_clock() -> (r: (i64, u32)) {
    let t = chrono::Local::now().naive_local().and_utc();
    (t.timestamp(), t.timestamp_subsec_nanos())
}

/// The moment that a reading of the clock stands for, where it lies at or
/// after the epoch and its nanoseconds stay within the second.
pub fn moment_of(secs: i64, nanos: u32) -> (r: Option<Moment>)
    ensures
        r == (if secs >= 0 && nanos < NANOS_PER_SEC {
            Some(Moment { secs: secs as u64, nanos })
        } else {
            None::<Moment>
        }),
{
    if secs >= 0 && nanos < NANOS_PER_SEC {
        Some(Moment { secs: secs as u64, nanos })
    } else {
        None
    }
}

/// The moment that the local clock shows, where it shows one that a `Moment`
/// can hold.
pub fn now() -> (r: Option<Moment>)
    ensures
        r matches Some(m) ==> m.wf(),
{
    let (secs, nanos) = local_clock();
    moment_of(secs, nanos)
}

/// The minute of the hour in which the second `secs` lies.
pub open spec fn minute_of(secs: u64) -> int {
    ((secs / 60) % 60) as int
}

/// The first whole minute after the minute of `now_secs` whose minute of the
/// hour is `at`: in the hour of `now_secs` where its minute is before `at`,
/// else in the next hour.
pub open spec fn next_start(now_secs: u64, at: u32) -> int {
    let hour = now_secs - now_secs % 3600;
    if minute_of(now_secs) >= at {
        hour + 3600 + at * 60
    } else {
        hour + at * 60
    }
}

pub fn minute(secs: u64) -> (m: u32)
    ensures
        m == minute_of(secs),
        m < 60,
{
    ((secs / 60) % 60) as u32
}

/// The start of a war asked for at minute `at`, and its end `minutes` later;
/// nothing where `at` is no minute of the hour or the end is past what the
/// clock can hold.
pub fn start_and_end(now: Moment, at: u32, minutes: u32) -> (r: Option<(u64, u64)>)
    ensures
        at <= 59 && next_start(now.secs, at) + minutes * 60 <= u64::MAX ==> r == Some(
            (next_start(now.secs, at) as u64, (next_start(now.secs, at) + minutes * 60) as u64),
        ),
        !(at <= 59 && next_start(now.secs, at) + minutes * 60 <= u64::MAX) ==> r is None,
{
    if at > 59 {
        return None;
    }
    let hour: u128 = (now.secs - now.secs % 3600) as u128;
    let roll: u128 = if minute(now.secs) >= at { 3600 } else { 0 };
    let start: u128 = hour + roll + (at as u128) * 60;
    let end: u128 = start + (minutes as u128) * 60;
    if end > u64::MAX as u128 {
        None
    } else {
        Some((start as u64, end as u64))
    }
}

/// A start is a whole minute with the minute of the hour that was asked for,
/// it lies after the minute of `now`, and at most an hour after its beginning.
/// So a request for the current minute, or one before it, is met an hour on.
pub proof fn lemma_next_start(now_secs: u64, at: u32)
    requires
        at <= 59,
    ensures
        next_start(now_secs, at) % 60 == 0,
        (next_start(now_secs, at) / 60) % 60 == at,
        next_start(now_secs, at) > now_secs,
        next_start(now_secs, at) <= now_secs - now_secs % 60 + 3600,
        minute_of(now_secs) >= at ==> next_start(now_secs, at) == now_secs - now_secs % 3600 + at
            * 60 + 3600,
{
    let hour = now_secs - now_secs % 3600;
    let q = now_secs / 3600;
    assert(hour == q * 3600);
    let m = minute_of(now_secs);
    assert(now_secs / 60 == q * 60 + m && 0 <= m < 60);
    let s = next_start(now_secs, at);
    let k = if m >= at { q * 60 + 60 + at } else { q * 60 + at };
    assert(s == k * 60);
    assert(k % 60 == at as int);
}

} // verus!
