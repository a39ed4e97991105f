//! When a registered timer is to be woken.
//!
//! A registered timer shares a number with a thread that wakes it: the tick up to
//! which the thread sleeps. The timer lowers the number when a timeout is due
//! earlier; the thread takes it away when the tick has come. What the two sides do
//! with the number they load and exchange is decided here.
use crate::error::TimerResult;
use crate::links::{Tick, Token};
use crate::model::tick_at;
use crate::timer::{Timeout, Timer};
use vstd::arithmetic::div_mod::lemma_hoist_over_denominator;
use vstd::prelude::*;

verus! {

/// The shared number that ends the thread.
pub const TERMINATE_THREAD: usize = 0;

/// The shared number while no wake-up is scheduled.
pub const UNSCHEDULED: usize = usize::MAX;

/// What an operation on a timer means for its readiness.
#[derive(Copy, Clone, Debug, PartialEq, Eq, Structural)]
pub enum Readiness {
    /// Nothing.
    Keep,
    /// A wake-up is to be scheduled.
    Schedule { tick: Tick },
    /// The timer is not ready any more, and then a wake-up is to be scheduled.
    Clear { wake: Tick },
}

/// What to do to schedule a wake-up.
#[derive(Copy, Clone, Debug, PartialEq, Eq, Structural)]
pub enum ScheduleStep {
    /// Nothing, a wake-up is already scheduled in time.
    Settled,
    /// Exchange the shared number, if it still is the expected one.
    Exchange { expected: usize, new: usize },
}

/// What to do after an attempt to exchange the shared number.
#[derive(Copy, Clone, Debug, PartialEq, Eq, Structural)]
pub enum ExchangeStep {
    /// Tell the thread that its wake-up time has changed.
    Unpark,
    /// Try again from the number that was found.
    Retry { curr: usize },
}

/// What the thread does next.
#[derive(Copy, Clone, Debug, PartialEq, Eq, Structural)]
pub enum WakeupStep {
    /// Sleep for that many milliseconds, unless woken earlier, and load the shared number.
    Sleep { ms: u64 },
    /// Exchange the shared number for [`UNSCHEDULED`], if it still is the expected one.
    Fire { expected: usize },
}

impl<T> Timer<T> {
    /// After an attempt to set a timeout: a wake-up for its tick, if it was set.
    pub fn readiness_after_set(result: &TimerResult<Timeout>) -> (readiness: Readiness)
        ensures
            readiness == match *result {
                Ok(timeout) => Readiness::Schedule { tick: timeout.tick_of() },
                Err(_) => Readiness::Keep,
            },
    {
        match result {
            Ok(timeout) => Readiness::Schedule { tick: timeout.tick() },
            Err(_) => Readiness::Keep,
        }
    }

    /// After a poll: once nothing fires any more, a wake-up for the next tick.
    pub fn readiness_after_poll(&self, fired: bool) -> (readiness: Readiness)
        requires
            self.wf(),
        ensures
            if fired {
                readiness == Readiness::Keep
            } else {
                readiness matches Readiness::Clear { wake } && self@.is_next_tick(wake)
            },
    {
        if fired {
            return Readiness::Keep;
        }
        match self.next_tick() {
            Some(wake) => Readiness::Clear { wake },
            None => Readiness::Keep,
        }
    }

    /// After the timer has been registered: a wake-up for the next tick.
    pub fn readiness_after_register(&self) -> (readiness: Readiness)
        requires
            self.wf(),
        ensures
            readiness matches Readiness::Schedule { tick } && self@.is_next_tick(tick),
    {
        match self.next_tick() {
            Some(tick) => Readiness::Schedule { tick },
            None => Readiness::Keep,
        }
    }
}

/// How to schedule a wake-up for a tick, given the shared number: it is lowered to the
/// tick unless it is no later already.
pub open spec fn schedule_for(curr: usize, tick: Tick) -> ScheduleStep {
    if curr <= tick {
        ScheduleStep::Settled
    } else {
        ScheduleStep::Exchange { expected: curr, new: tick as usize }
    }
}

/// The shared number after a step, if no one else has changed it.
pub open spec fn number_after(curr: usize, step: ScheduleStep) -> usize {
    match step {
        ScheduleStep::Settled => curr,
        ScheduleStep::Exchange { expected, new } => if curr == expected {
            new
        } else {
            curr
        },
    }
}

/// Scheduling a wake-up never moves one that is scheduled to a later tick, and leaves one
/// in time for the tick: the number becomes the lesser of itself and the tick.
pub proof fn law_schedule_only_lowers(curr: usize, tick: Tick)
    ensures
        number_after(curr, schedule_for(curr, tick)) == if curr <= tick {
            curr as int
        } else {
            tick as int
        },
{
}

/// How to schedule a wake-up for a tick, given the shared number.
pub fn schedule_step(curr: usize, tick: Tick) -> (step: ScheduleStep)
    ensures
        step == schedule_for(curr, tick),
{
    if curr as Tick <= tick {
        // Nothing to do, wakeup is already scheduled
        ScheduleStep::Settled
    } else {
        // Attempt to move the wakeup time forward
        ScheduleStep::Exchange { expected: curr, new: tick as usize }
    }
}

/// How to go on when the exchange has found a number.
pub fn exchange_step(expected: usize, actual: usize) -> (step: ExchangeStep)
    ensures
        step == (if actual == expected {
            ExchangeStep::Unpark
        } else {
            ExchangeStep::Retry { curr: actual }
        }),
{
    if actual == expected {
        ExchangeStep::Unpark
    } else {
        ExchangeStep::Retry { curr: actual }
    }
}

/// What the thread knows: the tick up to which it sleeps.
pub struct Sleeper {
    sleep_until: usize,
}

impl Sleeper {
    /// The tick up to which the thread sleeps.
    pub closed spec fn until(self) -> Tick {
        self.sleep_until as Tick
    }

    /// The tick up to which the thread sleeps is one that there is a number for.
    pub proof fn lemma_until_fits(self)
        ensures
            self.until() <= usize::MAX,
    {
    }

    /// The thread when it has loaded the shared number for the first time.
    pub fn new(state: usize) -> (sleeper: Sleeper)
        ensures
            sleeper.until() == state,
    {
        Sleeper { sleep_until: state }
    }

    /// Whether the thread is to end.
    pub fn terminates(&self) -> (yes: bool)
        ensures
            yes == (self.until() == TERMINATE_THREAD),
    {
        self.sleep_until == TERMINATE_THREAD
    }

    /// What the thread does next: it sleeps for the ticks that are left, and fires when
    /// none is.
    pub open spec fn step_at(self, now_tick: Tick, tick_ms: u64) -> WakeupStep {
        if now_tick < self.until() {
            let ms = tick_ms * (self.until() - now_tick);
            WakeupStep::Sleep {
                ms: if ms <= u64::MAX {
                    ms as u64
                } else {
                    u64::MAX
                },
            }
        } else {
            WakeupStep::Fire { expected: self.until() as usize }
        }
    }

    /// What the thread does next.
    pub fn step(&self, now_tick: Tick, tick_ms: u64) -> (step: WakeupStep)
        ensures
            step == self.step_at(now_tick, tick_ms),
    {
        let sleep_until = self.sleep_until as Tick;
        if now_tick < sleep_until {
            let ms = match tick_ms.checked_mul(sleep_until - now_tick) {
                Some(ms) => ms,
                None => u64::MAX,
            };
            WakeupStep::Sleep { ms }
        } else {
            WakeupStep::Fire { expected: self.sleep_until }
        }
    }

    /// After the thread has slept and loaded the shared number.
    pub fn slept(&mut self, state: usize)
        ensures
            final(self).until() == state,
    {
        self.sleep_until = state;
    }

    /// After the thread has tried to exchange the shared number: whether the timer is
    /// ready, which it is if the number was the expected one.
    pub fn exchanged(&mut self, actual: usize) -> (ready: bool)
        ensures
            ready == (actual == old(self).until()),
            final(self).until() == (if ready {
                UNSCHEDULED
            } else {
                actual
            }),
    {
        if actual == self.sleep_until {
            self.sleep_until = UNSCHEDULED;
            true
        } else {
            self.sleep_until = actual;
            false
        }
    }
}

/// The thread sleeps long enough: after the milliseconds that it is to sleep for, its tick
/// has come, and no later one.
pub proof fn law_sleeps_up_to_its_tick(
    sleeper: Sleeper,
    ms: int,
    start: int,
    tick_ms: u64,
    slept: u64,
)
    requires
        tick_ms > 0,
        0 <= tick_at(ms, start, tick_ms as int) <= u64::MAX,
        sleeper.step_at(tick_at(ms, start, tick_ms as int) as Tick, tick_ms) == (
        WakeupStep::Sleep { ms: slept }),
        slept < u64::MAX,
    ensures
        tick_at(ms + slept, start, tick_ms as int) == sleeper.until(),
{
    let now = tick_at(ms, start, tick_ms as int);
    let left = sleeper.until() - now;
    assert(slept == tick_ms * left);
    lemma_hoist_over_denominator(ms - start, left, tick_ms as nat);
    assert(left * tick_ms == tick_ms * left) by (nonlinear_arith);
}

/// The thread never sleeps past its tick: it sleeps for what the ticks that are left last, or
/// for as long as a `u64` can say if they last longer. Once its tick has come it fires, and
/// not before.
pub proof fn law_step(sleeper: &Sleeper, now_tick: Tick, tick_ms: u64, step: WakeupStep)
    requires
        call_ensures(Sleeper::step, (sleeper, now_tick, tick_ms), step),
    ensures
        step is Sleep <==> now_tick < sleeper.until(),
        step matches WakeupStep::Sleep { ms } ==> {
            let left = tick_ms * (sleeper.until() - now_tick);
            &&& ms <= left
            &&& left <= u64::MAX ==> ms == left
            &&& left > u64::MAX ==> ms == u64::MAX
        },
        step matches WakeupStep::Fire { expected } ==> expected == sleeper.until(),
{
    sleeper.lemma_until_fits();
}

/// What the thread does next sleeps no longer than up to its tick, and for less than the most
/// that a `u64` can say whenever that is longer; if the tick has come it fires.
pub proof fn law_step_at(sleeper: Sleeper, now_tick: Tick, tick_ms: u64)
    ensures
        now_tick < sleeper.until() ==> {
            &&& sleeper.step_at(now_tick, tick_ms) matches WakeupStep::Sleep { ms }
            &&& ms <= tick_ms * (sleeper.until() - now_tick)
            &&& tick_ms * (sleeper.until() - now_tick) < u64::MAX ==> ms < u64::MAX
            &&& tick_ms * (sleeper.until() - now_tick) <= u64::MAX ==> ms == tick_ms * (
            sleeper.until() - now_tick)
        },
        sleeper.until() <= now_tick ==> {
            &&& sleeper.step_at(now_tick, tick_ms) matches WakeupStep::Fire { expected }
            &&& expected == sleeper.until()
        },
{
    sleeper.lemma_until_fits();
}

/// The thread sleeps up to the number that it was started with, and then up to the one that it
/// has loaded last. It ends exactly if that is 0.
pub proof fn law_loaded(
    state: usize,
    sleeper: Sleeper,
    ends: bool,
    then: &mut Sleeper,
    loaded: usize,
    ends_then: bool,
)
    requires
        call_ensures(Sleeper::new, (state,), sleeper),
        call_ensures(Sleeper::terminates, (&sleeper,), ends),
        call_ensures(Sleeper::slept, (then, loaded), ()),
        call_ensures(Sleeper::terminates, (final(then),), ends_then),
    ensures
        sleeper.until() == state,
        ends <==> state == 0,
        final(then).until() == loaded,
        ends_then <==> loaded == 0,
{
}

/// When the thread has tried to take its number away, the timer is ready exactly if that was
/// the one found. Then no wake-up is left, so that the thread sleeps as long as there are
/// numbers; else it sleeps up to the number found.
pub proof fn law_exchanged(sleeper: &mut Sleeper, actual: usize, ready: bool)
    requires
        call_ensures(Sleeper::exchanged, (sleeper, actual), ready),
    ensures
        ready <==> actual == old(sleeper).until(),
        ready ==> final(sleeper).until() == usize::MAX,
        !ready ==> final(sleeper).until() == actual,
{
}

/// Each tick fires once: after the thread has taken its number away it does not fire again
/// for the ticks before the last one that there is a number for.
pub proof fn law_fires_once(
    sleeper: &mut Sleeper,
    now_tick: Tick,
    tick_ms: u64,
    expected: usize,
    then: Tick,
    step: WakeupStep,
)
    requires
        call_ensures(
            Sleeper::step,
            (old(sleeper), now_tick, tick_ms),
            WakeupStep::Fire { expected },
        ),
        call_ensures(Sleeper::exchanged, (sleeper, expected), true),
        call_ensures(Sleeper::step, (final(sleeper), then, tick_ms), step),
    ensures
        old(sleeper).until() <= now_tick,
        then < usize::MAX ==> step is Sleep,
{
}

/// How a wake-up is scheduled: nothing is to be done exactly if the number is no later than the
/// tick; else the number is to become the tick, as long as it still is what it was.
pub proof fn law_schedule(curr: usize, tick: Tick, step: ScheduleStep)
    requires
        call_ensures(schedule_step, (curr, tick), step),
    ensures
        step is Settled <==> curr <= tick,
        step matches ScheduleStep::Exchange { expected, new } ==> expected == curr && new == tick
            && new < curr,
        step == schedule_for(curr, tick),
{
}

/// An attempt to exchange the number has succeeded exactly if it was the expected one. If not,
/// the next attempt goes from the number that was found, and settles or lowers that one.
pub proof fn law_exchange(
    expected: usize,
    actual: usize,
    step: ExchangeStep,
    tick: Tick,
    next: ScheduleStep,
)
    requires
        call_ensures(exchange_step, (expected, actual), step),
        step matches ExchangeStep::Retry { curr } ==> call_ensures(
            schedule_step,
            (curr, tick),
            next,
        ),
    ensures
        step is Unpark <==> actual == expected,
        step matches ExchangeStep::Retry { curr } ==> {
            &&& curr == actual
            &&& next is Settled <==> actual <= tick
            &&& next matches ScheduleStep::Exchange { expected, new } ==> expected == actual
                && new == tick
        },
{
}

/// A timeout that has been set has a wake-up scheduled for its very tick, and one that has not
/// been set has none.
pub proof fn law_readiness_after_set<T>(result: &TimerResult<Timeout>, readiness: Readiness)
    requires
        call_ensures(Timer::<T>::readiness_after_set, (result,), readiness),
    ensures
        *result is Err ==> readiness is Keep,
        *result matches Ok(timeout) ==> readiness == (Readiness::Schedule {
            tick: timeout.tick_of(),
        }),
{
}

/// A poll that returns a state changes nothing about the readiness. One that returns none ends
/// it, and has a wake-up scheduled for the earliest tick of what is pending, or for the last
/// tick there is if nothing is.
pub proof fn law_readiness_after_poll<T>(timer: &Timer<T>, fired: bool, readiness: Readiness)
    requires
        timer.wf(),
        call_ensures(Timer::<T>::readiness_after_poll, (timer, fired), readiness),
    ensures
        fired ==> readiness is Keep,
        !fired ==> {
            &&& readiness matches Readiness::Clear { wake }
            &&& forall|k: Token| #[trigger]
                timer@.pending.contains_key(k) ==> wake <= timer@.pending[k].tick
            &&& wake == u64::MAX || exists|k: Token| #[trigger]
                timer@.pending.contains_key(k) && timer@.pending[k].tick == wake
        },
{
}

/// A timer that has been registered has a wake-up scheduled for the earliest tick of what is
/// pending, or for the last tick there is if nothing is.
pub proof fn law_readiness_after_register<T>(timer: &Timer<T>, readiness: Readiness)
    requires
        timer.wf(),
        call_ensures(Timer::<T>::readiness_after_register, (timer,), readiness),
    ensures
        readiness matches Readiness::Schedule { tick } && {
            &&& forall|k: Token| #[trigger]
                timer@.pending.contains_key(k) ==> tick <= timer@.pending[k].tick
            &&& tick == u64::MAX || exists|k: Token| #[trigger]
                timer@.pending.contains_key(k) && timer@.pending[k].tick == tick
        },
{
}

/// No pending timeout is slept past. If the number is no later than any of them, it still is
/// when another has been set and the wake-up that this asks for has been scheduled.
pub proof fn law_never_slept_past<T>(
    number: usize,
    timer: &mut Timer<T>,
    at: u64,
    state: T,
    timeout: Timeout,
    readiness: Readiness,
    step: ScheduleStep,
)
    requires
        old(timer).wf(),
        forall|k: Token| #[trigger]
            old(timer)@.pending.contains_key(k) ==> number <= old(timer)@.pending[k].tick,
        call_ensures(Timer::<T>::set_timeout_at, (timer, at, state), Ok(timeout)),
        call_ensures(Timer::<T>::readiness_after_set, (&Ok(timeout),), readiness),
        readiness matches Readiness::Schedule { tick } ==> call_ensures(
            schedule_step,
            (number, tick),
            step,
        ),
    ensures
        ({
            let lowered = match step {
                ScheduleStep::Settled => number,
                ScheduleStep::Exchange { new, .. } => new,
            };
            forall|k: Token| #[trigger]
                final(timer)@.pending.contains_key(k) ==> lowered <= final(timer)@.pending[k].tick
        }),
{
}

/// The number that ends the thread is before every tick that a timeout can be set for, and the
/// one for no wake-up is after every other number.
pub proof fn law_special_numbers(number: usize)
    ensures
        TERMINATE_THREAD == 0,
        UNSCHEDULED == usize::MAX,
        TERMINATE_THREAD <= number <= UNSCHEDULED,
{
}

} // verus!
