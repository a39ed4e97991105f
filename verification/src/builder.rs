//! How a timer is set up.
use crate::clock::{
    capped_millis, clock_ms, duration_nanos, duration_secs, millis, now_ms, ClockError,
};
use crate::lemmas::lemma_ceil_pow2;
use crate::links::{Token, MAX_CAPACITY, MAX_SLOTS};
use crate::model::{ceil_pow2, TimerView};
use crate::timer::Timer;
use std::time::{Duration, SystemTime};
use vstd::arithmetic::power2::pow2;
use vstd::prelude::*;

verus! {

/// The settings of a timer to be built.
pub struct Builder {
    // Approximate duration of each tick
    tick: Duration,
    // Number of slots in the timer wheel
    num_slots: usize,
    // Max number of timeouts that can be in flight at a given time
    capacity: usize,
}

impl Builder {
    /// The duration of a tick.
    pub closed spec fn tick_of(self) -> Duration {
        self.tick
    }

    /// The number of slots.
    pub closed spec fn slots_of(self) -> usize {
        self.num_slots
    }

    /// The number of timeouts.
    pub closed spec fn capacity_of(self) -> usize {
        self.capacity
    }

    /// Sets the duration of a tick.
    pub fn tick_duration(self, duration: Duration) -> (builder: Builder)
        ensures
            builder.tick_of() == duration,
            builder.slots_of() == self.slots_of(),
            builder.capacity_of() == self.capacity_of(),
    {
        Builder { tick: duration, ..self }
    }

    /// Sets the number of slots. The timer has the next power of two of them.
    pub fn num_slots(self, num_slots: usize) -> (builder: Builder)
        ensures
            builder.tick_of() == self.tick_of(),
            builder.slots_of() == num_slots,
            builder.capacity_of() == self.capacity_of(),
    {
        Builder { num_slots, ..self }
    }

    /// Sets how many timeouts can be pending at a time.
    pub fn capacity(self, capacity: usize) -> (builder: Builder)
        ensures
            builder.tick_of() == self.tick_of(),
            builder.slots_of() == self.slots_of(),
            builder.capacity_of() == capacity,
    {
        Builder { capacity, ..self }
    }

    /// Whether a timer can be built: neither number is too large.
    pub fn fits(&self) -> (yes: bool)
        ensures
            yes == (self.slots_of() <= MAX_SLOTS && self.capacity_of() <= MAX_CAPACITY),
    {
        self.num_slots <= MAX_SLOTS && self.capacity <= MAX_CAPACITY
    }

    /// Builds the timer. Its ticks are counted from what the system clock shows.
    ///
    /// Fails where a `u64` cannot hold that in milliseconds.
    pub fn build<T>(self) -> (result: Result<Timer<T>, ClockError>)
        requires
            self.slots_of() <= MAX_SLOTS,
            self.capacity_of() <= MAX_CAPACITY,
        ensures
            exists|time: SystemTime|
                match result {
                    Ok(timer) => {
                        &&& #[trigger] clock_ms(time) <= u64::MAX
                        &&& timer.wf()
                        &&& timer@ == TimerView::<T>::fresh(
                            capped_millis(self.tick_of()) as u64,
                            ceil_pow2(self.slots_of() as nat),
                            self.capacity_of() as nat,
                            clock_ms(time) as u64,
                        )
                    },
                    Err(_) => clock_ms(time) > u64::MAX,
                },
    {
        match now_ms() {
            Ok(start) => Ok(Timer::new(millis(self.tick), self.num_slots, self.capacity, start)),
            Err(error) => Err(error),
        }
    }
}

impl Default for Builder {
    /// Ticks of a tenth of a second, 256 slots and 65536 timeouts.
    fn default() -> (builder: Builder)
        ensures
            duration_secs(builder.tick_of()) == 0,
            duration_nanos(builder.tick_of()) == 100_000_000,
            builder.slots_of() == 256,
            builder.capacity_of() == 65_536,
    {
        Builder { tick: Duration::from_millis(100), num_slots: 256, capacity: 65_536 }
    }
}

/// Each setting is what it was made last, and making one leaves the others as they are.
pub proof fn law_settings(
    builder: Builder,
    duration: Duration,
    ticked: Builder,
    num_slots: usize,
    slotted: Builder,
    capacity: usize,
    roomy: Builder,
)
    requires
        call_ensures(Builder::tick_duration, (builder, duration), ticked),
        call_ensures(Builder::num_slots, (builder, num_slots), slotted),
        call_ensures(Builder::capacity, (builder, capacity), roomy),
    ensures
        ticked.tick_of() == duration,
        slotted.tick_of() == builder.tick_of(),
        roomy.tick_of() == builder.tick_of(),
        slotted.slots_of() == num_slots,
        ticked.slots_of() == builder.slots_of(),
        roomy.slots_of() == builder.slots_of(),
        roomy.capacity_of() == capacity,
        ticked.capacity_of() == builder.capacity_of(),
        slotted.capacity_of() == builder.capacity_of(),
{
}

/// A built timer is a new one with what was set: ticks of the least number of milliseconds that
/// covers the duration, the least power of two of slots that is no less than their number, and
/// room for as many timeouts as was said. It starts at some reading of the clock. Building
/// fails only if a `u64` cannot hold that.
pub proof fn law_build<T>(builder: Builder, result: Result<Timer<T>, ClockError>)
    requires
        call_ensures(Builder::build::<T>, (builder,), result),
    ensures
        exists|time: SystemTime|
            {
                let start = #[trigger] clock_ms(time);
                &&& result is Err <==> start > u64::MAX
                &&& result matches Ok(timer) ==> timer@.start == start
            },
        result matches Ok(timer) ==> {
            let v = timer@;
            let nanos = duration_secs(builder.tick_of()) * 1_000_000_000 + duration_nanos(
                builder.tick_of(),
            );
            &&& timer.wf()
            &&& v.tick == 0
            &&& nanos <= v.tick_ms * 1_000_000 || v.tick_ms == u64::MAX
            &&& (v.tick_ms - 1) * 1_000_000 < nanos
            &&& forall|k: Token| !v.pending.contains_key(k)
            &&& v.vacant.len() == builder.capacity_of()
            &&& builder.slots_of() <= v.lists.len()
            &&& exists|e: nat| v.lists.len() == #[trigger] pow2(e)
            &&& forall|e: nat|
                builder.slots_of() <= #[trigger] pow2(e) ==> v.lists.len() <= pow2(e)
        },
{
    lemma_ceil_pow2(builder.slots_of() as nat);
}

/// A timer can be built exactly if the slots, rounded up to a power of two, are no more than
/// the largest one that a `usize` can hold, and the timeouts are no more than memory can be
/// addressed for.
pub proof fn law_fits(builder: &Builder, yes: bool)
    requires
        call_ensures(Builder::fits, (builder,), yes),
    ensures
        yes <==> 2 * builder.slots_of() <= usize::MAX + 1 && 64 * builder.capacity_of()
            <= usize::MAX,
{
}

/// Without settings a timer has ticks of a tenth of a second, 256 slots and room for 65536
/// timeouts.
pub proof fn law_default<T>(builder: Builder, result: Result<Timer<T>, ClockError>)
    requires
        call_ensures(Builder::default, (), builder),
        call_ensures(Builder::build::<T>, (builder,), result),
    ensures
        result matches Ok(timer) ==> {
            &&& timer@.tick_ms == 100
            &&& timer@.lists.len() == 256
            &&& timer@.vacant.len() == 65_536
        },
{
    reveal_with_fuel(ceil_pow2, 10);
}

} // verus!
