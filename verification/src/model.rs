//! The timer as a mathematical object.
//!
//! A [`TimerView`] is what the contracts of the timer speak of: the entries that
//! are pending, the list in which each slot of the wheel keeps them, and how far
//! the timer has looked. Each operation of the timer is a function on views.
use crate::links::{Tick, Token, TICK_MAX};
use vstd::arithmetic::power2::pow2;
use vstd::prelude::*;

verus! {

/// A timeout that has been set and has neither fired nor been cancelled.
pub struct Pending<T> {
    pub tick: Tick,
    pub state: T,
}

/// The state of a timer.
#[verifier::ext_equal]
pub struct TimerView<T> {
    /// Milliseconds per tick.
    pub tick_ms: u64,
    /// The time of tick 0 in milliseconds.
    pub start: u64,
    /// The tick that the timer looks at.
    pub tick: Tick,
    /// The tokens of each slot, the one set last in front.
    pub lists: Seq<Seq<Token>>,
    /// For each slot a tick before which nothing is due that the timer knows of.
    pub hints: Seq<Tick>,
    /// How many entries of the current slot the timer has looked at.
    pub cursor: int,
    /// The pending timeouts.
    pub pending: Map<Token, Pending<T>>,
    /// The tokens that are free, in the order in which they will be used.
    pub vacant: Seq<Token>,
}

/// The lesser of two ticks.
pub open spec fn lesser(a: Tick, b: Tick) -> Tick {
    if a <= b {
        a
    } else {
        b
    }
}

/// The least of some ticks, and `TICK_MAX` where there is none.
pub open spec fn least(ticks: Seq<Tick>) -> Tick
    decreases ticks.len(),
{
    if ticks.len() == 0 {
        TICK_MAX
    } else {
        lesser(least(ticks.drop_last()), ticks.last())
    }
}

/// The least power of two that is not less than a number.
pub open spec fn ceil_pow2(n: nat) -> nat
    decreases n,
{
    if n <= 1 {
        1
    } else {
        2 * ceil_pow2((n + 1) / 2)
    }
}

/// The tick for a point in time `ms`, where tick 0 begins at `start` and a tick
/// lasts `tick_ms`: the last tick that has begun.
pub open spec fn tick_at(ms: int, start: int, tick_ms: int) -> int {
    (ms - start) / tick_ms
}

/// The tick that a timeout for the point in time `ms` is rounded to: the closest one, and
/// the later of two that are equally close.
pub open spec fn rounded_tick(ms: int, start: int, tick_ms: int) -> int {
    let whole = (ms - start) / tick_ms;
    if 2 * ((ms - start) % tick_ms) >= tick_ms {
        whole + 1
    } else {
        whole
    }
}

impl<T> TimerView<T> {
    /// The slot of the wheel for a tick.
    pub open spec fn slot(self, tick: int) -> int {
        tick % self.lists.len() as int
    }

    /// The slot of the current tick.
    pub open spec fn current(self) -> int {
        self.slot(self.tick as int)
    }

    /// The slot of a pending entry.
    pub open spec fn slot_of(self, token: Token) -> int {
        self.slot(self.pending[token].tick as int)
    }

    /// The place of a pending entry in the list of its slot.
    pub open spec fn place(self, token: Token) -> int {
        self.lists[self.slot_of(token)].index_of(token)
    }

    /// How many timeouts can be pending at a time.
    pub open spec fn capacity(self) -> nat {
        self.pending.len() + self.vacant.len()
    }

    /// The ticks of the entries of a slot from one place on and before another.
    pub open spec fn ticks(self, slot: int, from: int, to: int) -> Seq<Tick> {
        Seq::new((to - from) as nat, |i: int| self.pending[self.lists[slot][from + i]].tick)
    }

    /// There is such a place in the list of that slot.
    pub open spec fn has(self, slot: int, place: int) -> bool {
        0 <= slot < self.lists.len() && 0 <= place < self.lists[slot].len()
    }

    /// The wheel has a power of two of slots, each with a list and a hint, and the
    /// cursor stands within the list of the current slot.
    pub open spec fn shaped(self) -> bool {
        &&& self.lists.len() > 0
        &&& exists|n: nat| self.lists.len() == #[trigger] pow2(n)
        &&& self.hints.len() == self.lists.len()
        &&& 0 <= self.cursor <= self.lists[self.current()].len()
    }

    /// The lists hold pending entries only, each in the slot of its tick, and
    /// hold each of them once.
    pub open spec fn filed(self) -> bool {
        &&& forall|s: int, j: int| #[trigger]
            self.has(s, j) ==> self.pending.contains_key(self.lists[s][j]) && self.slot_of(
                self.lists[s][j],
            ) == s
        &&& forall|s: int| 0 <= s < self.lists.len() ==> #[trigger] self.lists[s].no_duplicates()
        &&& forall|k: Token| #[trigger]
            self.pending.contains_key(k) ==> self.lists[self.slot_of(k)].contains(k)
    }

    /// There are as many tokens as timeouts can be pending, and none is both pending and
    /// vacant.
    pub open spec fn tokens_accounted(self) -> bool {
        &&& self.pending.dom().finite()
        &&& self.capacity() < usize::MAX
        &&& forall|k: Token| #[trigger] self.pending.contains_key(k) ==> k < self.capacity()
        &&& self.vacant.no_duplicates()
        &&& forall|i: int|
            0 <= i < self.vacant.len() ==> (#[trigger] self.vacant[i]) < self.capacity()
                && !self.pending.contains_key(self.vacant[i])
    }

    /// Nothing that is pending has been passed over: an entry is due at the current
    /// tick or later, and if at the current tick, the cursor has not gone past it.
    pub open spec fn timely(self) -> bool {
        forall|s: int, j: int| #[trigger]
            self.has(s, j) ==> {
                &&& self.tick <= self.pending[self.lists[s][j]].tick
                &&& self.tick == self.pending[self.lists[s][j]].tick ==> self.cursor <= j
            }
    }

    /// The hint of a slot is no later than any entry of it, but for those of the
    /// current slot that the cursor has still to reach.
    pub open spec fn hinted(self) -> bool {
        forall|s: int, j: int| #[trigger]
            self.has(s, j) && !(s == self.current() && j >= self.cursor) ==> self.hints[s]
                <= self.pending[self.lists[s][j]].tick
    }

    /// What holds of every timer between operations.
    pub open spec fn wf(self) -> bool {
        &&& self.shaped()
        &&& self.filed()
        &&& self.tokens_accounted()
        &&& self.timely()
        &&& self.hinted()
    }

    /// A new timer.
    pub open spec fn fresh(tick_ms: u64, slots: nat, capacity: nat, start: u64) -> TimerView<T> {
        TimerView {
            tick_ms,
            start,
            tick: 0,
            lists: Seq::new(slots, |i: int| Seq::empty()),
            hints: Seq::new(slots, |i: int| TICK_MAX),
            cursor: 0,
            pending: Map::empty(),
            vacant: Seq::new(capacity, |i: int| i as usize),
        }
    }

    /// The tick for a point in time in milliseconds.
    pub open spec fn tick_at_ms(self, ms: int) -> int {
        tick_at(ms, self.start as int, self.tick_ms as int)
    }

    /// The tick at which a timeout set for the point in time `ms` fires: the tick
    /// that it is rounded to, but at least one tick ahead.
    pub open spec fn target_tick(self, ms: int) -> int {
        let rounded = rounded_tick(ms, self.start as int, self.tick_ms as int);
        if rounded <= self.tick {
            self.tick + 1
        } else {
            rounded
        }
    }

    /// A timeout can be set for that point in time: it is not before the timer's start,
    /// and ticks reach far enough.
    pub open spec fn reaches(self, ms: int) -> bool {
        self.start <= ms && self.target_tick(ms) <= TICK_MAX
    }

    /// After a timeout has been set under the first vacant token. It goes to the
    /// front of the list of its slot.
    pub open spec fn inserted(self, tick: Tick, state: T) -> TimerView<T> {
        let token = self.vacant[0];
        let slot = self.slot(tick as int);
        TimerView {
            lists: self.lists.update(slot, seq![token] + self.lists[slot]),
            hints: self.hints.update(slot, lesser(tick, self.hints[slot])),
            cursor: if slot == self.current() {
                self.cursor + 1
            } else {
                self.cursor
            },
            pending: self.pending.insert(token, Pending { tick, state }),
            vacant: self.vacant.skip(1),
            ..self
        }
    }

    /// After a pending entry has been taken out. Its token is the next to be used.
    pub open spec fn without(self, token: Token) -> TimerView<T> {
        let slot = self.slot_of(token);
        TimerView {
            lists: self.lists.update(slot, self.lists[slot].remove(self.place(token))),
            cursor: if slot == self.current() && self.place(token) < self.cursor {
                self.cursor - 1
            } else {
                self.cursor
            },
            pending: self.pending.remove(token),
            vacant: seq![token] + self.vacant,
            ..self
        }
    }

    /// The hint of a slot after the timer has looked at some of its entries, from one
    /// place on and before another: the least tick among those it left standing. From
    /// the front of the list the hint is found anew; from further on it is lowered.
    pub open spec fn looked_hint(self, slot: int, from: int, to: int, hint: Tick) -> Tick {
        if from == 0 {
            least(self.ticks(slot, from, to))
        } else {
            lesser(hint, least(self.ticks(slot, from, to)))
        }
    }

    /// The place in its slot's list from which the timer looks at the entries when it
    /// comes to a tick: where the cursor stands at the current one, and the front at
    /// a later one.
    pub open spec fn entry_place(self, tick: int) -> int {
        if tick == self.tick {
            self.cursor
        } else {
            0
        }
    }

    /// The hints when the timer comes to a tick, if nothing has fired before it. Each
    /// tick on the way has the slot of that tick looked through to the end; a slot with
    /// nothing left to look at keeps its hint.
    pub open spec fn hints_at(self, tick: int) -> Seq<Tick>
        decreases tick - self.tick,
    {
        if tick <= self.tick {
            self.hints
        } else {
            let before = self.hints_at(tick - 1);
            let slot = self.slot(tick - 1);
            let from = self.entry_place(tick - 1);
            let len = self.lists[slot].len() as int;
            if from < len {
                before.update(slot, self.looked_hint(slot, from, len, before[slot]))
            } else {
                before
            }
        }
    }

    /// A pending timeout has that token and that tick.
    pub open spec fn names_pending(self, token: Token, tick: Tick) -> bool {
        self.pending.contains_key(token) && self.pending[token].tick == tick
    }

    /// Some pending timeout is due by a tick.
    pub open spec fn any_due(self, tick: Tick) -> bool {
        exists|k: Token| #[trigger] self.pending.contains_key(k) && self.pending[k].tick <= tick
    }

    /// The pending timeout that is next to fire: none is due at an earlier tick, and
    /// none at the same tick stands further to the front of the list.
    pub open spec fn next_to_fire(self, token: Token) -> bool {
        &&& self.pending.contains_key(token)
        &&& forall|k: Token| #[trigger]
            self.pending.contains_key(k) ==> {
                &&& self.pending[token].tick <= self.pending[k].tick
                &&& self.pending[token].tick == self.pending[k].tick ==> self.place(token)
                    <= self.place(k)
            }
    }

    /// After a poll that let a timeout fire: the timer stands at the tick of that
    /// timeout, right behind where it was.
    pub open spec fn fired(self, token: Token) -> TimerView<T> {
        let tick = self.pending[token].tick as int;
        let slot = self.slot_of(token);
        let before = self.hints_at(tick);
        TimerView {
            tick: self.pending[token].tick,
            hints: before.update(
                slot,
                self.looked_hint(slot, self.entry_place(tick), self.place(token), before[slot]),
            ),
            cursor: self.place(token),
            ..self.without(token)
        }
    }

    /// After a poll up to a tick that found nothing due: the timer stands at the
    /// front of the list of the tick after it, unless it was there already.
    pub open spec fn swept(self, target: Tick) -> TimerView<T> {
        if target < self.tick {
            self
        } else {
            TimerView {
                tick: (target + 1) as Tick,
                hints: self.hints_at(target + 1),
                cursor: 0,
                ..self
            }
        }
    }

    /// That tick is the next one with a timeout: nothing pending is due earlier, and
    /// something is at it. It is `TICK_MAX` where nothing is pending.
    pub open spec fn is_next_tick(self, tick: Tick) -> bool {
        &&& forall|k: Token| #[trigger]
            self.pending.contains_key(k) ==> tick <= self.pending[k].tick
        &&& tick == TICK_MAX || exists|k: Token| #[trigger]
            self.pending.contains_key(k) && self.pending[k].tick == tick
    }
}

} // verus!
