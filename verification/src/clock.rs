//! The system clock, durations, and their conversion to ticks.
use crate::links::Tick;
use crate::model::tick_at;
use std::time::{Duration, SystemTime, SystemTimeError, UNIX_EPOCH};
use vstd::arithmetic::div_mod::{lemma_fundamental_div_mod, lemma_mod_bound};
use vstd::prelude::*;

verus! {

/// Nanoseconds in a millisecond.
pub const NS_PER_MS: u32 = 1_000_000;

/// Milliseconds in a second.
pub const MS_PER_SEC: u64 = 1_000;

/// The system clock shows a time that the timer cannot count in.
#[derive(Copy, Clone, Debug, PartialEq, Eq, Structural)]
pub struct ClockError;

/// A point in time that the system clock has shown.
#[verifier::external_type_specification]
#[verifier::external_body]
pub struct ExSystemTime(SystemTime);

/// The failure of a subtraction of a later point in time from an earlier one.
#[verifier::external_type_specification]
#[verifier::external_body]
pub struct ExSystemTimeError(SystemTimeError);

/// The whole seconds of a duration.
pub uninterp spec fn duration_secs(duration: Duration) -> u64;

/// The nanoseconds of a duration beyond its whole seconds.
pub uninterp spec fn duration_nanos(duration: Duration) -> u32;

/// The nanoseconds from the Unix epoch to a point in time, negative before the epoch.
pub uninterp spec fn epoch_nanos(time: SystemTime) -> int;

/// The nanoseconds by which the subtrahend of a failed subtraction was later.
pub uninterp spec fn lag_nanos(error: SystemTimeError) -> int;

/// The length of a duration in nanoseconds.
pub open spec fn total_nanos(duration: Duration) -> int {
    duration_secs(duration) * 1_000_000_000 + duration_nanos(duration)
}

/// The length of a duration in milliseconds, rounded up and capped at what a `u64`
/// can hold.
pub open spec fn capped_millis(duration: Duration) -> int {
    let ms = (total_nanos(duration) + 999_999) / 1_000_000;
    if ms <= u64::MAX {
        ms
    } else {
        u64::MAX as int
    }
}

/// How far a point in time is from the Unix epoch, in whole milliseconds.
pub open spec fn clock_ms(time: SystemTime) -> int {
    let nanos = epoch_nanos(time);
    (if nanos < 0 {
        -nanos
    } else {
        nanos
    }) / 1_000_000
}

/// `Duration::as_secs`: the whole seconds.
pub assume_specification[ Duration::as_secs ](duration: &Duration) -> (r: u64)
    ensures
        r == duration_secs(*duration),
;

/// `Duration::subsec_nanos`: the nanoseconds beyond the whole seconds, always less
/// than a second.
pub assume_specification[ Duration::subsec_nanos ](duration: &Duration) -> (r: u32)
    ensures
        r == duration_nanos(*duration),
        r < 1_000_000_000,
;

/// `Duration::from_millis`: the duration of that many milliseconds.
pub assume_specification[ Duration::from_millis ](ms: u64) -> (r: Duration)
    ensures
        duration_secs(r) == ms / 1_000,
        duration_nanos(r) == (ms % 1_000) * 1_000_000,
;

/// `SystemTime::now`: what the system clock shows, which can be anything.
pub assume_specification[ SystemTime::now ]() -> (r: SystemTime)
;

/// `SystemTime::duration_since` with the Unix epoch: the time from the epoch to a
/// point in time, or the failure that holds the time from the point to the epoch.
#[verifier::external_body]
fn since_epoch(time: &SystemTime) -> (r: Result<Duration, SystemTimeError>)
    ensures
        match r {
            Ok(duration) => epoch_nanos(*time) >= 0 && total_nanos(duration) == epoch_nanos(*time),
            Err(error) => epoch_nanos(*time) < 0 && lag_nanos(error) == -epoch_nanos(*time),
        },
{
    time.duration_since(UNIX_EPOCH)
}

/// `SystemTimeError::duration`: by how much the subtrahend was later.
pub assume_specification[ SystemTimeError::duration ](error: &SystemTimeError) -> (r: Duration)
    ensures
        total_nanos(r) == lag_nanos(*error),
;

/// Converts a duration to milliseconds, rounding up and saturating at `u64::MAX`.
pub fn millis(duration: Duration) -> (ms: u64)
    ensures
        ms == capped_millis(duration),
{
    // Round up
    let part = (duration.subsec_nanos() + (NS_PER_MS - 1)) / NS_PER_MS;
    match duration.as_secs().checked_mul(MS_PER_SEC) {
        Some(whole) => whole.saturating_add(part as u64),
        None => u64::MAX,
    }
}

/// Converts the time since the Unix epoch to milliseconds, rounding down. Fails where
/// a `u64` cannot hold the milliseconds.
pub fn epoch_ms(since_epoch: Duration) -> (ms: Result<u64, ClockError>)
    ensures
        match ms {
            Ok(ms) => ms == total_nanos(since_epoch) / 1_000_000,
            Err(_) => total_nanos(since_epoch) / 1_000_000 > u64::MAX,
        },
{
    let part = (since_epoch.subsec_nanos() / NS_PER_MS) as u64;
    match since_epoch.as_secs().checked_mul(MS_PER_SEC) {
        Some(whole) => match whole.checked_add(part) {
            Some(ms) => Ok(ms),
            None => Err(ClockError),
        },
        None => Err(ClockError),
    }
}

/// What the system clock shows, in milliseconds from the Unix epoch. Fails where a
/// `u64` cannot hold the milliseconds.
pub fn now_ms() -> (ms: Result<u64, ClockError>)
    ensures
        exists|time: SystemTime|
            match ms {
                Ok(ms) => ms == #[trigger] clock_ms(time),
                Err(_) => clock_ms(time) > u64::MAX,
            },
{
    let time = SystemTime::now();
    let now = match since_epoch(&time) {
        Ok(duration) => duration,
        Err(error) => error.duration(),
    };
    let ms = epoch_ms(now);
    assert(clock_ms(time) == total_nanos(now) / 1_000_000);
    ms
}

/// The tick for a point in time, where tick 0 begins at `start`.
pub fn ms_to_tick(ms: u64, start: u64, tick_ms: u64) -> (tick: Tick)
    requires
        start <= ms,
        tick_ms > 0,
    ensures
        tick == tick_at(ms as int, start as int, tick_ms as int),
{
    (ms - start) / tick_ms
}

/// The tick for a point in time, where tick 0 begins at `start`. Fails where the point in
/// time is before that.
pub fn tick_from(ms: u64, start: u64, tick_ms: u64) -> (tick: Result<Tick, ClockError>)
    requires
        tick_ms > 0,
    ensures
        match tick {
            Ok(tick) => start <= ms && tick == tick_at(ms as int, start as int, tick_ms as int),
            Err(_) => ms < start,
        },
{
    if start <= ms {
        Ok(ms_to_tick(ms, start, tick_ms))
    } else {
        Err(ClockError)
    }
}

/// The tick for what the system clock shows. Fails where that is before `start`, or
/// where a `u64` cannot hold it in milliseconds.
pub fn now_tick(start: u64, tick_ms: u64) -> (tick: Result<Tick, ClockError>)
    requires
        tick_ms > 0,
    ensures
        exists|time: SystemTime|
            match tick {
                Ok(tick) => {
                    &&& start <= #[trigger] clock_ms(time) <= u64::MAX
                    &&& tick == tick_at(clock_ms(time), start as int, tick_ms as int)
                },
                Err(_) => clock_ms(time) < start || clock_ms(time) > u64::MAX,
            },
{
    match now_ms() {
        Ok(ms) => tick_from(ms, start, tick_ms),
        Err(error) => Err(error),
    }
}

/// The milliseconds of a duration cover it, and no fewer do, unless a `u64` cannot hold as
/// many: then they are the most that it can hold.
pub proof fn law_millis_cover(duration: Duration, ms: u64)
    requires
        call_ensures(millis, (duration,), ms),
    ensures
        ({
            let nanos = duration_secs(duration) * 1_000_000_000 + duration_nanos(duration);
            &&& nanos <= ms * 1_000_000 || ms == u64::MAX
            &&& (ms - 1) * 1_000_000 < nanos
        }),
{
}

/// The milliseconds from the epoch are the most that fit into the time since the epoch. Only
/// where a `u64` cannot hold them is there none.
pub proof fn law_epoch_ms(since_epoch: Duration, ms: Result<u64, ClockError>)
    requires
        call_ensures(epoch_ms, (since_epoch,), ms),
    ensures
        ({
            let nanos = duration_secs(since_epoch) * 1_000_000_000 + duration_nanos(since_epoch);
            &&& ms matches Ok(ms) ==> ms * 1_000_000 <= nanos < (ms + 1) * 1_000_000
            &&& ms is Err <==> (u64::MAX + 1) * 1_000_000 <= nanos
        }),
{
}

/// What the clock shows is the most milliseconds that fit between a point in time and the
/// epoch, whichever of them is earlier.
pub proof fn law_clock_ms(time: SystemTime)
    ensures
        0 <= clock_ms(time),
        epoch_nanos(time) >= 0 ==> clock_ms(time) * 1_000_000 <= epoch_nanos(time) < (clock_ms(
            time,
        ) + 1) * 1_000_000,
        epoch_nanos(time) < 0 ==> clock_ms(time) * 1_000_000 <= -epoch_nanos(time) < (clock_ms(
            time,
        ) + 1) * 1_000_000,
{
}

/// The clock is read to the millisecond below. That fails only where a `u64` cannot hold the
/// milliseconds.
pub proof fn law_now_ms(ms: Result<u64, ClockError>)
    requires
        call_ensures(now_ms, (), ms),
    ensures
        exists|time: SystemTime|
            {
                let nanos = #[trigger] epoch_nanos(time);
                let away = if nanos < 0 {
                    -nanos
                } else {
                    nanos
                };
                &&& ms matches Ok(ms) ==> ms * 1_000_000 <= away < (ms + 1) * 1_000_000
                &&& ms is Err <==> (u64::MAX + 1) * 1_000_000 <= away
            },
{
    let time = choose|time: SystemTime|
        match ms {
            Ok(ms) => ms == #[trigger] clock_ms(time),
            Err(_) => clock_ms(time) > u64::MAX,
        };
}

/// The tick for a point in time is the one that has begun by then and whose successor has not.
pub proof fn law_tick_of_ms(ms: u64, start: u64, tick_ms: u64, tick: Tick)
    requires
        start <= ms,
        tick_ms > 0,
        call_ensures(ms_to_tick, (ms, start, tick_ms), tick),
    ensures
        start + tick * tick_ms <= ms < start + (tick + 1) * tick_ms,
{
    lemma_tick_at(ms as int, start as int, tick_ms as int);
}

/// A point in time has a tick exactly from the start on: the one that has begun by then and
/// whose successor has not.
pub proof fn law_tick_from(ms: u64, start: u64, tick_ms: u64, tick: Result<Tick, ClockError>)
    requires
        tick_ms > 0,
        call_ensures(tick_from, (ms, start, tick_ms), tick),
    ensures
        tick is Ok <==> start <= ms,
        tick matches Ok(tick) ==> start + tick * tick_ms <= ms < start + (tick + 1) * tick_ms,
{
    lemma_tick_at(ms as int, start as int, tick_ms as int);
}

/// The tick for now is the one that some reading of the clock falls into.
pub proof fn law_now_tick(start: u64, tick_ms: u64, tick: Result<Tick, ClockError>)
    requires
        tick_ms > 0,
        call_ensures(now_tick, (start, tick_ms), tick),
    ensures
        exists|time: SystemTime|
            {
                let ms = #[trigger] clock_ms(time);
                &&& tick is Ok <==> start <= ms <= u64::MAX
                &&& tick matches Ok(tick) ==> start + tick * tick_ms <= ms < start + (tick + 1)
                    * tick_ms
            },
{
    let time = choose|time: SystemTime|
        match tick {
            Ok(tick) => {
                &&& start <= #[trigger] clock_ms(time) <= u64::MAX
                &&& tick == tick_at(clock_ms(time), start as int, tick_ms as int)
            },
            Err(_) => clock_ms(time) < start || clock_ms(time) > u64::MAX,
        };
    lemma_tick_at(clock_ms(time), start as int, tick_ms as int);
}

// A point in time falls into its tick
proof fn lemma_tick_at(ms: int, start: int, tick_ms: int)
    requires
        tick_ms > 0,
    ensures
        ({
            let tick = tick_at(ms, start, tick_ms);
            start + tick * tick_ms <= ms < start + (tick + 1) * tick_ms
        }),
{
    let d = ms - start;
    lemma_fundamental_div_mod(d, tick_ms);
    lemma_mod_bound(d, tick_ms);
    let q = d / tick_ms;
    assert(q * tick_ms == tick_ms * q && (q + 1) * tick_ms == tick_ms * q + tick_ms)
        by (nonlinear_arith);
}

} // verus!
