//! The timer.
use crate::clock::{
    capped_millis, clock_ms, millis, ms_to_tick, now_ms, now_tick, tick_from, ClockError,
};
use crate::error::{TimerError, TimerResult};
use crate::lemmas::{
    hints_while, lemma_advanced_wf, lemma_at, lemma_ceil_pow2, lemma_fresh_wf, lemma_hints_fire,
    lemma_hints_len, lemma_hints_look, lemma_inserted_wf, lemma_last_tick, lemma_limits,
    lemma_next_to_fire, lemma_place, lemma_rehinted_wf, lemma_rounded_tick_fits, lemma_without_wf,
};
use crate::links::{
    slab_contents, slab_vacant, EntryLinks, LinkSlab, Tick, Token, EMPTY, MAX_CAPACITY, MAX_SLOTS,
    TICK_MAX,
};
use crate::model::{ceil_pow2, lesser, Pending, TimerView};
use std::time::{Duration, SystemTime};
use vstd::arithmetic::power2::{
    lemma2_to64, lemma2_to64_rest, lemma_pow2_pos, lemma_pow2_strictly_increases, pow2,
};
use vstd::bits::lemma_u64_low_bits_mask_is_mod;
use vstd::prelude::*;

verus! {

/// A set of timeouts, each with a state of type `T` that is handed out when the
/// timeout fires or is cancelled.
///
/// The timeouts are kept on a wheel of slots. A timeout for some tick is in the slot
/// whose number is the tick modulo the number of slots. As time passes the timer goes
/// from slot to slot and looks through the list of each.
pub struct Timer<T> {
    // Length of a tick in milliseconds
    tick_ms: u64,
    // Tick and list links of each entry
    entries: LinkSlab,
    // State of each entry, at the index that is its token
    states: Vec<Option<T>>,
    // The wheel's slots
    wheel: Vec<WheelEntry>,
    // Time of tick 0 in milliseconds
    start: u64,
    // The current tick
    tick: Tick,
    // The next entry to look at
    next: Token,
    // Masks a tick to get its slot
    mask: u64,
    // The lists that the links form
    lists: Ghost<Seq<Seq<Token>>>,
    // Place of the next entry to look at
    cursor: Ghost<int>,
}

/// A slot of the wheel.
#[derive(Copy, Clone, Debug)]
struct WheelEntry {
    // No entry of the slot that has been looked at is due earlier
    next_tick: Tick,
    // The first entry of the slot
    head: Token,
}

/// Names a timeout that has been set, to cancel it by.
#[derive(Debug)]
pub struct Timeout {
    // Token of the entry
    token: Token,
    // Tick of the entry
    tick: Tick,
}

impl Timeout {
    /// The token under which the timeout was set.
    pub closed spec fn token_of(self) -> Token {
        self.token
    }

    /// The tick that the timeout was set for.
    pub closed spec fn tick_of(self) -> Tick {
        self.tick
    }

    /// The tick that the timeout was set for.
    pub(crate) fn tick(&self) -> (tick: Tick)
        ensures
            tick == self.tick_of(),
    {
        self.tick
    }
}

impl Clone for Timeout {
    fn clone(&self) -> (timeout: Timeout)
        ensures
            timeout == *self,
    {
        Timeout { token: self.token, tick: self.tick }
    }
}

/// What it is to set a timeout for a point in time: under the first vacant token and
/// for the tick that the point in time leads to, if a token is vacant.
pub open spec fn timeout_set<T>(
    before: TimerView<T>,
    ms: int,
    state: T,
    result: TimerResult<Timeout>,
    after: TimerView<T>,
) -> bool {
    match result {
        Ok(timeout) => {
            &&& before.vacant.len() > 0
            &&& timeout.token_of() == before.vacant[0]
            &&& timeout.tick_of() == before.target_tick(ms)
            &&& after == before.inserted(before.target_tick(ms) as Tick, state)
        },
        Err(error) => {
            &&& before.vacant.len() == 0
            &&& error.is_overflow()
            &&& after == before
        },
    }
}

/// What it is to poll up to a tick: the timeout that is next to fire does so if it is
/// due, and otherwise the timer goes on to the tick after.
pub open spec fn polled<T>(
    before: TimerView<T>,
    target: Tick,
    state: Option<T>,
    after: TimerView<T>,
) -> bool {
    match state {
        Some(state) => exists|token: Token|
            {
                &&& #[trigger] before.next_to_fire(token)
                &&& before.pending[token].tick <= target
                &&& state == before.pending[token].state
                &&& after == before.fired(token)
            },
        None => {
            &&& !before.any_due(target)
            &&& after == before.swept(target)
        },
    }
}

/// `usize::next_power_of_two`: the least power of two that is not less than a number,
/// as long as a `usize` can hold it.
pub assume_specification[ usize::next_power_of_two ](n: usize) -> (r: usize)
    requires
        ceil_pow2(n as nat) <= usize::MAX,
    ensures
        r == ceil_pow2(n as nat),
;

/// What stands at a place of a list, and `EMPTY` outside of it.
spec fn token_at(list: Seq<Token>, place: int) -> Token {
    if 0 <= place < list.len() {
        list[place]
    } else {
        EMPTY
    }
}

/// The links of the entry at a place lead to its neighbours in the list.
spec fn linked_at(list: Seq<Token>, place: int, contents: Map<Token, EntryLinks>) -> bool {
    &&& contents.contains_key(list[place])
    &&& contents[list[place]].prev == token_at(list, place - 1)
    &&& contents[list[place]].next == token_at(list, place + 1)
}

/// The links of each entry lead to its neighbours in its list, and the heads to the
/// first entries.
spec fn linked(
    lists: Seq<Seq<Token>>,
    wheel: Seq<WheelEntry>,
    contents: Map<Token, EntryLinks>,
) -> bool {
    &&& wheel.len() == lists.len()
    &&& forall|s: int|
        0 <= s < lists.len() ==> (#[trigger] wheel[s]).head == token_at(lists[s], 0)
    &&& forall|s: int, j: int|
        0 <= s < lists.len() && 0 <= j < lists[s].len() ==> #[trigger] linked_at(
            lists[s],
            j,
            contents,
        )
}

/// The links after an entry has been unlinked: those of its neighbours lead past it.
spec fn bypassed(
    list: Seq<Token>,
    place: int,
    contents: Map<Token, EntryLinks>,
) -> Map<Token, EntryLinks> {
    let (prev, next) = (token_at(list, place - 1), token_at(list, place + 1));
    let half = if place > 0 {
        contents.insert(prev, EntryLinks { next, ..contents[prev] })
    } else {
        contents
    };
    if place + 1 < list.len() {
        half.insert(next, EntryLinks { prev, ..half[next] })
    } else {
        half
    }
}

/// Past an unlinked entry, the lists without it are linked.
proof fn lemma_bypassed_linked<T>(
    v: TimerView<T>,
    token: Token,
    wheel: Seq<WheelEntry>,
    contents: Map<Token, EntryLinks>,
    new_wheel: Seq<WheelEntry>,
)
    requires
        v.wf(),
        v.pending.contains_key(token),
        linked(v.lists, wheel, contents),
        new_wheel == (if v.place(token) == 0 {
            let slot = v.slot_of(token);
            wheel.update(slot, WheelEntry { head: token_at(v.lists[slot], 1), ..wheel[slot] })
        } else {
            wheel
        }),
    ensures
        linked(
            v.without(token).lists,
            new_wheel,
            bypassed(v.lists[v.slot_of(token)], v.place(token), contents),
        ),
{
    let slot = v.slot_of(token);
    let place = v.place(token);
    let list = v.lists[slot];
    let lists = v.without(token).lists;
    let after = bypassed(list, place, contents);
    lemma_place(v, token);
    if place > 0 {
        lemma_at(v, slot, place - 1);
    }
    if place + 1 < list.len() {
        lemma_at(v, slot, place + 1);
    }
    assert forall|s: int, j: int|
        0 <= s < lists.len() && 0 <= j < lists[s].len() implies #[trigger] linked_at(
        lists[s],
        j,
        after,
    ) by {
        let i = if s == slot && j >= place {
            j + 1
        } else {
            j
        };
        assert(v.has(s, i));
        assert(lists[s][j] == v.lists[s][i]);
        assert(linked_at(v.lists[s], i, contents));
        lemma_at(v, s, i);
    }
}

/// The links after an entry has been put in front of a list.
spec fn fronted(
    list: Seq<Token>,
    token: Token,
    tick: Tick,
    contents: Map<Token, EntryLinks>,
) -> Map<Token, EntryLinks> {
    let head = token_at(list, 0);
    let with = contents.insert(token, EntryLinks { tick, prev: EMPTY, next: head });
    if list.len() > 0 {
        with.insert(head, EntryLinks { prev: token, ..with[head] })
    } else {
        with
    }
}

/// With an entry in front of a list, the lists with it are linked.
proof fn lemma_fronted_linked<T>(
    v: TimerView<T>,
    tick: Tick,
    state: T,
    wheel: Seq<WheelEntry>,
    contents: Map<Token, EntryLinks>,
    next_tick: Tick,
)
    requires
        v.wf(),
        v.vacant.len() > 0,
        linked(v.lists, wheel, contents),
    ensures
        linked(
            v.inserted(tick, state).lists,
            wheel.update(v.slot(tick as int), WheelEntry { next_tick, head: v.vacant[0] }),
            fronted(v.lists[v.slot(tick as int)], v.vacant[0], tick, contents),
        ),
{
    let slot = v.slot(tick as int);
    let token = v.vacant[0];
    let list = v.lists[slot];
    let lists = v.inserted(tick, state).lists;
    let after = fronted(list, token, tick, contents);
    if list.len() > 0 {
        lemma_at(v, slot, 0);
    }
    assert forall|s: int, j: int|
        0 <= s < lists.len() && 0 <= j < lists[s].len() implies #[trigger] linked_at(
        lists[s],
        j,
        after,
    ) by {
        let i = if s == slot {
            j - 1
        } else {
            j
        };
        if i >= 0 {
            assert(v.has(s, i));
            assert(lists[s][j] == v.lists[s][i]);
            assert(linked_at(v.lists[s], i, contents));
            lemma_at(v, s, i);
        }
    }
}

impl<T> View for Timer<T> {
    type V = TimerView<T>;

    closed spec fn view(&self) -> TimerView<T> {
        let contents = slab_contents(self.entries);
        TimerView {
            tick_ms: self.tick_ms,
            start: self.start,
            tick: self.tick,
            lists: self.lists@,
            hints: self.wheel@.map_values(|e: WheelEntry| e.next_tick),
            cursor: self.cursor@,
            pending: Map::new(
                |k: Token| contents.contains_key(k),
                |k: Token| Pending { tick: contents[k].tick, state: self.states@[k as int]->0 },
            ),
            vacant: slab_vacant(self.entries),
        }
    }
}

impl<T> Timer<T> {
    /// The timer is in a state that its operations lead to.
    pub closed spec fn wf(self) -> bool {
        &&& self@.wf()
        &&& self.stored()
        &&& linked(self.lists@, self.wheel@, slab_contents(self.entries))
        &&& self.next == token_at(self@.lists[self@.current()], self.cursor@)
    }

    /// The mask fits the wheel, and every entry has a state.
    spec fn stored(self) -> bool {
        &&& self.mask + 1 == self.wheel.len()
        &&& self.states.len() == self.entries.size()
        &&& forall|k: Token| #[trigger]
            slab_contents(self.entries).contains_key(k) ==> k < self.states.len()
                && self.states@[k as int] is Some
    }

    /// What is stated of views holds of the views of timers.
    pub proof fn lemma_view_wf(self)
        requires
            self.wf(),
        ensures
            self@.wf(),
    {
    }

    fn slot_for(&self, tick: Tick) -> (slot: usize)
        requires
            self.mask + 1 == self.wheel.len(),
            self.wheel.len() == self.lists@.len(),
            exists|n: nat| self.lists@.len() == #[trigger] pow2(n),
        ensures
            slot == self@.slot(tick as int),
            slot < self.wheel.len(),
    {
        proof {
            let n = choose|n: nat| self.lists@.len() == #[trigger] pow2(n);
            if n >= 64 {
                lemma2_to64();
                lemma2_to64_rest();
                if n > 64 {
                    lemma_pow2_strictly_increases(64, n);
                }
                assert(false);
            }
            lemma_u64_low_bits_mask_is_mod(tick, n);
            let mask = self.mask;
            assert(mask & tick == tick & mask) by (bit_vector);
        }
        (self.mask & tick) as usize
    }

    fn unlink(&mut self, links: &EntryLinks, token: Token)
        requires
            old(self).wf(),
            old(self)@.pending.contains_key(token),
            *links == slab_contents(old(self).entries)[token],
        ensures
            final(self).lists@ == old(self)@.without(token).lists,
            final(self).cursor@ == old(self)@.without(token).cursor,
            linked(final(self).lists@, final(self).wheel@, slab_contents(final(self).entries)),
            final(self).next == token_at(
                final(self).lists@[old(self)@.current()],
                final(self).cursor@,
            ),
            final(self)@.hints == old(self)@.hints,
            slab_contents(final(self).entries).dom() == slab_contents(old(self).entries).dom(),
            forall|k: Token| #[trigger]
                slab_contents(final(self).entries)[k].tick == slab_contents(
                    old(self).entries,
                )[k].tick,
            slab_vacant(final(self).entries) == slab_vacant(old(self).entries),
            final(self).tick_ms == old(self).tick_ms,
            final(self).states == old(self).states,
            final(self).start == old(self).start,
            final(self).tick == old(self).tick,
            final(self).mask == old(self).mask,
    {
        let ghost v = self@;
        let ghost slot = v.slot_of(token);
        let ghost place = v.place(token);
        let ghost list = v.lists[slot];
        let ghost wheel = self.wheel@;
        let ghost contents = slab_contents(self.entries);
        proof {
            lemma_place(v, token);
            assert(linked_at(list, place, contents));
            if place > 0 {
                assert(linked_at(list, place - 1, contents));
                lemma_at(v, slot, place - 1);
            }
            if place + 1 < list.len() {
                assert(linked_at(list, place + 1, contents));
                lemma_at(v, slot, place + 1);
            }
            if self.cursor@ < v.lists[v.current()].len() {
                lemma_at(v, v.current(), self.cursor@);
            }
        }
        if links.prev == EMPTY {
            let at = self.slot_for(links.tick);
            let mut entry = self.wheel[at];
            entry.head = links.next;
            self.wheel.set(at, entry);
        } else {
            let mut prev = self.entries.at(links.prev);
            prev.next = links.next;
            self.entries.set(links.prev, prev);
        }

        if links.next != EMPTY {
            let mut next = self.entries.at(links.next);
            next.prev = links.prev;
            self.entries.set(links.next, next);

            if token == self.next {
                self.next = links.next;
            }
        } else if token == self.next {
            self.next = EMPTY;
        }
        proof {
            lemma_bypassed_linked(v, token, wheel, contents, self.wheel@);
            assert(slab_contents(self.entries) == bypassed(list, place, contents));
            self.lists@ = v.without(token).lists;
            self.cursor@ = v.without(token).cursor;
        }
    }

    // Unlinks an entry and takes it out of the timer
    fn remove(&mut self, links: &EntryLinks, token: Token) -> (state: Option<T>)
        requires
            old(self).wf(),
            old(self)@.pending.contains_key(token),
            *links == slab_contents(old(self).entries)[token],
        ensures
            final(self).wf(),
            final(self)@ == old(self)@.without(token),
            state == Some(old(self)@.pending[token].state),
    {
        let ghost v = self@;
        proof {
            lemma_place(v, token);
            lemma_without_wf(v, token);
        }
        self.unlink(links, token);
        let ghost contents = slab_contents(self.entries);
        let removed = self.entries.remove(token);
        let state = match removed {
            Some(_) => self.states[token].take(),
            None => None,
        };
        proof {
            let w = v.without(token);
            assert(self@.pending =~= w.pending);
            assert(self@ =~= w);
            assert(slab_contents(self.entries).len() == contents.len() - 1) by {
                assert(contents.dom() =~= v.pending.dom());
            }
            assert forall|s: int, j: int|
                0 <= s < w.lists.len() && 0 <= j < w.lists[s].len() implies #[trigger] linked_at(
                w.lists[s],
                j,
                slab_contents(self.entries),
            ) by {
                assert(w.has(s, j));
                assert(linked_at(w.lists[s], j, contents));
            }
        }
        state
    }

    fn insert(&mut self, tick: Tick, state: T) -> (result: TimerResult<Timeout>)
        requires
            old(self).wf(),
            old(self)@.tick < tick,
        ensures
            final(self).wf(),
            match result {
                Ok(timeout) => {
                    &&& old(self)@.vacant.len() > 0
                    &&& timeout.token_of() == old(self)@.vacant[0]
                    &&& timeout.tick_of() == tick
                    &&& final(self)@ == old(self)@.inserted(tick, state)
                },
                Err(error) => {
                    &&& old(self)@.vacant.len() == 0
                    &&& error.is_overflow()
                    &&& final(self)@ == old(self)@
                },
            },
    {
        let ghost v = self@;
        let ghost wheel = self.wheel@;
        let ghost contents = slab_contents(self.entries);
        proof {
            if self.cursor@ < v.lists[v.current()].len() {
                lemma_at(v, v.current(), self.cursor@);
            }
        }
        // Get the slot for the requested tick
        let slot = self.slot_for(tick);
        let curr = self.wheel[slot];

        // Insert the new entry
        let token = match self.entries.insert(EntryLinks::new(tick, curr.head)) {
            Ok(token) => token,
            Err(_) => {
                proof {
                    assert(self@ =~= v);
                }
                return Err(TimerError::overflow());
            },
        };
        proof {
            lemma_inserted_wf(v, tick, state);
            assert(v.pending.dom() =~= contents.dom());
            assert(v.vacant[0] < v.capacity());
            if v.lists[slot as int].len() > 0 {
                assert(linked_at(v.lists[slot as int], 0, contents));
                lemma_at(v, slot as int, 0);
            }
        }
        self.states.set(token, Some(state));

        if curr.head != EMPTY {
            // If there was a previous entry, set its prev pointer to the new
            // entry
            let mut head = self.entries.at(curr.head);
            head.prev = token;
            self.entries.set(curr.head, head);
        }

        // Update the head slot
        let next_tick = if tick < curr.next_tick {
            tick
        } else {
            curr.next_tick
        };
        self.wheel.set(slot, WheelEntry { next_tick, head: token });
        proof {
            let w = v.inserted(tick, state);
            lemma_fronted_linked(v, tick, state, wheel, contents, next_tick);
            assert(slab_contents(self.entries) == fronted(
                v.lists[slot as int],
                token,
                tick,
                contents,
            ));
            self.lists@ = w.lists;
            self.cursor@ = w.cursor;
            assert(self@.hints =~= w.hints);
            assert(self@.pending =~= w.pending);
            assert(self@ =~= w);
        }

        // Return the new timeout
        Ok(Timeout { token, tick })
    }

    /// Cancels a timeout and returns its state, if it is still pending.
    pub fn cancel_timeout(&mut self, timeout: &Timeout) -> (state: Option<T>)
        requires
            old(self).wf(),
        ensures
            final(self).wf(),
            if old(self)@.names_pending(timeout.token_of(), timeout.tick_of()) {
                &&& state == Some(old(self)@.pending[timeout.token_of()].state)
                &&& final(self)@ == old(self)@.without(timeout.token_of())
            } else {
                &&& state is None
                &&& final(self)@ == old(self)@
            },
    {
        if timeout.token >= self.states.len() {
            return None;
        }
        let links = match self.entries.get(timeout.token) {
            Some(links) => *links,
            None => return None,
        };

        // Sanity check
        if links.tick != timeout.tick {
            return None;
        }
        self.remove(&links, timeout.token)
    }

    // Goes on to the next tick
    fn advance(&mut self)
        requires
            old(self).wf(),
            old(self).next == EMPTY,
            old(self).tick < TICK_MAX,
        ensures
            final(self).wf(),
            final(self)@ == (TimerView {
                tick: (old(self)@.tick + 1) as Tick,
                cursor: 0,
                ..old(self)@
            }),
            old(self)@.cursor == old(self)@.lists[old(self)@.current()].len(),
    {
        let ghost v = self@;
        proof {
            if self.cursor@ < v.lists[v.current()].len() {
                lemma_at(v, v.current(), self.cursor@);
            }
            lemma_advanced_wf(v);
        }
        self.tick = self.tick + 1;
        let slot = self.slot_for(self.tick);
        self.next = self.wheel[slot].head;
        proof {
            self.cursor@ = 0;
            assert(self@ =~= (TimerView { tick: (v.tick + 1) as Tick, cursor: 0, ..v }));
        }
    }

    // Forgets the hint of the current slot, before its first entry is looked at
    fn forget_hint(&mut self, slot: usize)
        requires
            old(self).wf(),
            slot == old(self)@.current(),
            old(self)@.cursor == 0,
        ensures
            final(self).wf(),
            final(self)@ == (TimerView {
                hints: old(self)@.hints.update(slot as int, TICK_MAX),
                ..old(self)@
            }),
            final(self).entries == old(self).entries,
            final(self).next == old(self).next,
    {
        let ghost v = self@;
        proof {
            lemma_rehinted_wf(v, TICK_MAX, 0);
        }
        let mut entry = self.wheel[slot];
        entry.next_tick = TICK_MAX;
        self.wheel.set(slot, entry);
        proof {
            let w = TimerView { hints: v.hints.update(slot as int, TICK_MAX), ..v };
            assert(self@.hints =~= w.hints);
            assert(self@.pending =~= w.pending);
            assert(self@ =~= w);
        }
    }

    // Leaves the next entry where it is, as it is not due
    fn pass(&mut self, slot: usize, links: &EntryLinks)
        requires
            old(self).wf(),
            slot == old(self)@.current(),
            old(self)@.cursor < old(self)@.lists[slot as int].len(),
            *links == slab_contents(old(self).entries)[old(self).next],
            old(self).tick < links.tick,
        ensures
            final(self).wf(),
            final(self)@ == (TimerView {
                hints: old(self)@.hints.update(
                    slot as int,
                    lesser(old(self)@.hints[slot as int], links.tick),
                ),
                cursor: old(self)@.cursor + 1,
                ..old(self)@
            }),
    {
        let ghost v = self@;
        let ghost hint = lesser(v.hints[slot as int], links.tick);
        proof {
            lemma_at(v, v.current(), v.cursor);
            assert(linked_at(v.lists[v.current()], v.cursor, slab_contents(self.entries)));
            assert forall|j: int| 0 <= j < v.cursor + 1 implies hint <= v.pending[
                #[trigger] v.lists[v.current()][j]
            ].tick by {
                assert(v.has(v.current(), j));
            }
            lemma_rehinted_wf(v, hint, v.cursor + 1);
        }
        let mut entry = self.wheel[slot];
        if links.tick < entry.next_tick {
            entry.next_tick = links.tick;
        }
        self.wheel.set(slot, entry);
        self.next = links.next;
        proof {
            self.cursor@ = v.cursor + 1;
            let w = TimerView {
                hints: v.hints.update(slot as int, hint),
                cursor: v.cursor + 1,
                ..v
            };
            assert(self@.hints =~= w.hints);
            assert(self@.pending =~= w.pending);
            assert(self@ =~= w);
        }
    }

    /// Lets the next timeout that is due by a tick fire, and returns its state.
    ///
    /// Timeouts fire in the order of their ticks, and among those for one tick the one
    /// set last fires first.
    pub fn poll_to(&mut self, target_tick: Tick) -> (state: Option<T>)
        requires
            old(self).wf(),
            target_tick < TICK_MAX || old(self)@.any_due(target_tick),
        ensures
            final(self).wf(),
            polled(old(self)@, target_tick, state, final(self)@),
    {
        let ghost v = self@;
        while self.tick <= target_tick
            invariant
                self.wf(),
                v == old(self)@,
                v.wf(),
                target_tick < TICK_MAX || v.any_due(target_tick),
                self@.tick_ms == v.tick_ms,
                self@.start == v.start,
                self@.lists == v.lists,
                self@.pending == v.pending,
                self@.vacant == v.vacant,
                v.tick <= self.tick,
                v.entry_place(self.tick as int) <= self.cursor@,
                self@.hints == hints_while(v, self.tick as int, self.cursor@),
                self.tick > target_tick ==> self@ == v || self.tick == target_tick + 1
                    && self.cursor@ == 0,
                v.tick > target_tick ==> self@ == v,
            decreases
                    target_tick - self.tick + 1,
                    self@.lists[self@.current()].len() - self.cursor@,
        {
            let ghost u = self@;
            let ghost place = self.cursor@;
            let curr = self.next;
            proof {
                if place < u.lists[u.current()].len() {
                    lemma_at(u, u.current(), place);
                }
            }

            if curr == EMPTY {
                proof {
                    lemma_last_tick(u, target_tick);
                }
                self.advance();
            } else {
                let slot = self.slot_for(self.tick);
                proof {
                    lemma_at(u, u.current(), 0);
                }

                if curr == self.wheel[slot].head {
                    self.forget_hint(slot);
                }

                let links = self.entries.at(curr);

                if links.tick <= self.tick {
                    proof {
                        lemma_next_to_fire(v, u, curr);
                        lemma_hints_fire(v, u.tick as int, place);
                        assert(self@.without(curr) =~= v.fired(curr));
                    }
                    // Removing it also advances self.next
                    return self.remove(&links, curr);
                } else {
                    self.pass(slot, &links);
                    proof {
                        lemma_hints_look(v, u.tick as int, place);
                        lemma_hints_len(v, u.tick as int);
                        assert(self@.hints =~= hints_while(v, u.tick as int, place + 1));
                    }
                }
            }
        }
        proof {
            assert forall|k: Token| #[trigger] v.pending.contains_key(k) implies target_tick
                < v.pending[k].tick by {
                lemma_place(self@, k);
            }
            assert(self@ =~= v.swept(target_tick));
        }

        // No more timeouts to poll
        None
    }
}

impl<T> Timer<T> {
    /// A timer without timeouts, whose ticks last `tick_ms` milliseconds and are
    /// counted from `start`. The number of slots is rounded up to a power of two; at most
    /// `capacity` timeouts can be pending at a time.
    pub fn new(tick_ms: u64, num_slots: usize, capacity: usize, start: u64) -> (timer: Timer<T>)
        requires
            num_slots <= MAX_SLOTS,
            capacity <= MAX_CAPACITY,
        ensures
            timer.wf(),
            timer@ == TimerView::<T>::fresh(
                tick_ms,
                ceil_pow2(num_slots as nat),
                capacity as nat,
                start,
            ),
    {
        proof {
            lemma_ceil_pow2(num_slots as nat);
            lemma_limits(num_slots as nat);
        }
        let num_slots: usize = num_slots.next_power_of_two();
        proof {
            assert(num_slots > 0) by {
                let e = choose|e: nat| num_slots == #[trigger] pow2(e);
                lemma_pow2_pos(e);
            }
            lemma_fresh_wf::<T>(tick_ms, num_slots as nat, capacity as nat, start);
        }
        let mask: u64 = (num_slots as u64) - 1;
        let empty = WheelEntry { next_tick: TICK_MAX, head: EMPTY };
        let mut wheel: Vec<WheelEntry> = Vec::new();
        for i in 0..num_slots
            invariant
                wheel.len() == i,
                forall|j: int| 0 <= j < i ==> wheel@[j] == empty,
        {
            wheel.push(empty);
        }
        let mut states: Vec<Option<T>> = Vec::new();
        for i in 0..capacity
            invariant
                states.len() == i,
        {
            states.push(None);
        }
        let ghost v = TimerView::<T>::fresh(tick_ms, num_slots as nat, capacity as nat, start);
        let timer = Timer {
            tick_ms,
            entries: LinkSlab::new(capacity),
            states,
            wheel,
            start,
            tick: 0,
            next: EMPTY,
            mask,
            lists: Ghost(v.lists),
            cursor: Ghost(0),
        };
        proof {
            assert(timer@.hints =~= v.hints);
            assert(timer@.pending =~= v.pending);
            assert(timer@ =~= v);
        }
        timer
    }

    /// Sets a timeout for a time from now, as the system clock shows it, and returns its
    /// name, or the error for too many pending timeouts.
    ///
    /// Fails with a [`ClockError`] and sets no timeout where the clock shows a time that
    /// a `u64` cannot hold in milliseconds, or from which the delay leads to a time
    /// before the timer's start or beyond the last tick.
    pub fn set_timeout(&mut self, delay: Duration, state: T) -> (result: Result<
        TimerResult<Timeout>,
        ClockError,
    >)
        requires
            old(self).wf(),
            old(self)@.tick_ms > 0,
        ensures
            final(self).wf(),
            exists|time: SystemTime|
                {
                    let ms = #[trigger] clock_ms(time) + capped_millis(delay);
                    match result {
                        Ok(result) => {
                            &&& ms <= u64::MAX
                            &&& old(self)@.reaches(ms)
                            &&& timeout_set(old(self)@, ms, state, result, final(self)@)
                        },
                        Err(_) => {
                            &&& ms > u64::MAX || !old(self)@.reaches(ms)
                            &&& final(self)@ == old(self)@
                        },
                    }
                },
    {
        match now_ms() {
            Ok(now) => self.set_timeout_from(now, delay, state),
            Err(error) => Err(error),
        }
    }

    /// Sets a timeout for a time from a point in time in milliseconds, and returns its name,
    /// or the error for too many pending timeouts.
    ///
    /// Fails with a [`ClockError`] and sets no timeout where the delay leads to a time that a
    /// `u64` cannot hold in milliseconds, that is before the timer's start or that is beyond
    /// the last tick.
    pub fn set_timeout_from(&mut self, now: u64, delay: Duration, state: T) -> (result: Result<
        TimerResult<Timeout>,
        ClockError,
    >)
        requires
            old(self).wf(),
            old(self)@.tick_ms > 0,
        ensures
            final(self).wf(),
            ({
                let ms = now + capped_millis(delay);
                match result {
                    Ok(result) => {
                        &&& ms <= u64::MAX
                        &&& old(self)@.reaches(ms)
                        &&& timeout_set(old(self)@, ms, state, result, final(self)@)
                    },
                    Err(_) => {
                        &&& ms > u64::MAX || !old(self)@.reaches(ms)
                        &&& final(self)@ == old(self)@
                    },
                }
            }),
    {
        let at = match now.checked_add(millis(delay)) {
            Some(at) => at,
            None => return Err(ClockError),
        };
        if self.reaches(at) {
            Ok(self.set_timeout_at(at, state))
        } else {
            Err(ClockError)
        }
    }

    /// Whether a timeout can be set for a point in time in milliseconds.
    pub fn reaches(&self, at: u64) -> (yes: bool)
        requires
            self@.tick_ms > 0,
        ensures
            yes == self@.reaches(at as int),
    {
        proof {
            if self.start <= at {
                lemma_rounded_tick_fits(at as int, self.start as int, self.tick_ms as int);
            }
        }
        self.start <= at && self.tick < TICK_MAX
    }

    /// Sets a timeout for a point in time in milliseconds, and returns its name, or the
    /// error for too many pending timeouts.
    pub fn set_timeout_at(&mut self, at: u64, state: T) -> (result: TimerResult<Timeout>)
        requires
            old(self).wf(),
            old(self)@.tick_ms > 0,
            old(self)@.reaches(at as int),
        ensures
            final(self).wf(),
            timeout_set(old(self)@, at as int, state, result, final(self)@),
    {
        // Make relative to start
        let delay: u64 = at - self.start;

        // Calculate tick
        let mut tick: u64 = delay / self.tick_ms;

        // Ensure rounded to the closest tick
        let part: u64 = delay % self.tick_ms;
        if part >= self.tick_ms - part {
            tick = tick + 1;
        }

        // Always target at least 1 tick in the future
        if tick <= self.tick {
            tick = self.tick + 1;
        }
        self.insert(tick, state)
    }

    /// Lets the next timeout that is due by now, as the system clock shows it, fire, and
    /// returns its state.
    ///
    /// Fails with a [`ClockError`] and changes nothing where the clock shows a time that a
    /// `u64` cannot hold in milliseconds or that is before the timer's start, or where
    /// the timer would have to go beyond the last tick.
    pub fn poll(&mut self) -> (result: Result<Option<T>, ClockError>)
        requires
            old(self).wf(),
            old(self)@.tick_ms > 0,
        ensures
            final(self).wf(),
            exists|time: SystemTime|
                {
                    let ms = #[trigger] clock_ms(time);
                    let tick = old(self)@.tick_at_ms(ms);
                    match result {
                        Ok(state) => {
                            &&& old(self)@.start <= ms <= u64::MAX
                            &&& tick < TICK_MAX || old(self)@.pending.len() > 0
                            &&& polled(old(self)@, tick as Tick, state, final(self)@)
                        },
                        Err(_) => {
                            &&& !(old(self)@.start <= ms <= u64::MAX) || tick >= TICK_MAX
                                && old(self)@.pending.len() == 0
                            &&& final(self)@ == old(self)@
                        },
                    }
                },
    {
        match now_ms() {
            Ok(now) => self.poll_from(now),
            Err(error) => Err(error),
        }
    }

    /// Lets the next timeout that is due by a point in time in milliseconds fire, and returns
    /// its state.
    ///
    /// Fails with a [`ClockError`] and changes nothing where the point in time is before the
    /// timer's start, or where the timer would have to go beyond the last tick.
    pub fn poll_from(&mut self, now: u64) -> (result: Result<Option<T>, ClockError>)
        requires
            old(self).wf(),
            old(self)@.tick_ms > 0,
        ensures
            final(self).wf(),
            ({
                let tick = old(self)@.tick_at_ms(now as int);
                match result {
                    Ok(state) => {
                        &&& old(self)@.start <= now
                        &&& tick < TICK_MAX || old(self)@.pending.len() > 0
                        &&& polled(old(self)@, tick as Tick, state, final(self)@)
                    },
                    Err(_) => {
                        &&& now < old(self)@.start || tick >= TICK_MAX
                            && old(self)@.pending.len() == 0
                        &&& final(self)@ == old(self)@
                    },
                }
            }),
    {
        let target_tick = match tick_from(now, self.start, self.tick_ms) {
            Ok(tick) => tick,
            Err(error) => return Err(error),
        };
        if target_tick == TICK_MAX && self.count() == 0 {
            return Err(ClockError);
        }
        proof {
            if self@.pending.len() > 0 {
                assert(self@.pending.contains_key(self@.pending.dom().choose()));
            }
        }
        Ok(self.poll_to(target_tick))
    }

    /// The next tick with a timeout. It is always there, and `TICK_MAX` where nothing is
    /// pending.
    pub fn next_tick(&self) -> (tick: Option<Tick>)
        requires
            self.wf(),
        ensures
            tick matches Some(tick) && self@.is_next_tick(tick),
    {
        let ghost v = self@;
        let current = self.slot_for(self.tick);
        let mut tick: Tick = TICK_MAX;
        for slot in 0..self.wheel.len()
            invariant
                self.wf(),
                v == self@,
                v.wf(),
                self.wheel.len() == v.lists.len(),
                current == v.current(),
                tick == TICK_MAX || exists|k: Token| #[trigger]
                    v.pending.contains_key(k) && v.pending[k].tick == tick,
                forall|s: int, j: int| #[trigger]
                    v.has(s, j) && s < slot ==> tick <= v.pending[v.lists[s][j]].tick,
        {
            // The hint of any other slot is no later than what is in the slot
            if slot == current || self.wheel[slot].next_tick < tick {
                let first = self.first_tick(slot);
                if first < tick {
                    tick = first;
                }
            }
        }
        proof {
            assert forall|k: Token| #[trigger] v.pending.contains_key(k) implies tick
                <= v.pending[k].tick by {
                lemma_place(v, k);
            }
        }
        Some(tick)
    }

    // The least tick in a slot, TICK_MAX if there is none
    fn first_tick(&self, slot: usize) -> (tick: Tick)
        requires
            self.wf(),
            slot < self@.lists.len(),
        ensures
            tick == TICK_MAX || exists|k: Token| #[trigger]
                self@.pending.contains_key(k) && self@.pending[k].tick == tick,
            forall|j: int| #[trigger]
                self@.has(slot as int, j) ==> tick
                    <= self@.pending[self@.lists[slot as int][j]].tick,
    {
        let ghost v = self@;
        let ghost list = v.lists[slot as int];
        let ghost mut place: int = 0;
        let mut tick: Tick = TICK_MAX;
        let mut token: Token = self.wheel[slot].head;
        proof {
            if list.len() > 0 {
                lemma_at(v, slot as int, 0);
            }
        }
        while token != EMPTY
            invariant
                self.wf(),
                v == self@,
                v.wf(),
                slot < v.lists.len(),
                list == v.lists[slot as int],
                0 <= place <= list.len(),
                token == token_at(list, place),
                place < list.len() ==> token != EMPTY,
                tick == TICK_MAX || exists|k: Token| #[trigger]
                    v.pending.contains_key(k) && v.pending[k].tick == tick,
                forall|j: int| #[trigger]
                    v.has(slot as int, j) && j < place ==> tick <= v.pending[list[j]].tick,
            decreases list.len() - place,
        {
            proof {
                lemma_at(v, slot as int, place);
                assert(linked_at(list, place, slab_contents(self.entries)));
            }
            let links = self.entries.at(token);
            if links.tick < tick {
                tick = links.tick;
                assert(v.pending.contains_key(token) && v.pending[token].tick == tick);
            }
            token = links.next;
            proof {
                place = place + 1;
                if place < list.len() {
                    lemma_at(v, slot as int, place);
                }
            }
        }
        tick
    }

    /// The tick for what the system clock shows. Fails where that is before the timer's
    /// start, or where a `u64` cannot hold it in milliseconds.
    pub fn current_tick(&self) -> (tick: Result<Tick, ClockError>)
        requires
            self@.tick_ms > 0,
        ensures
            exists|time: SystemTime|
                match tick {
                    Ok(tick) => {
                        &&& self@.start <= #[trigger] clock_ms(time) <= u64::MAX
                        &&& tick == self@.tick_at_ms(clock_ms(time))
                    },
                    Err(_) => clock_ms(time) < self@.start || clock_ms(time) > u64::MAX,
                },
    {
        now_tick(self.start, self.tick_ms)
    }

    /// The tick for a point in time in milliseconds.
    pub fn ms_to_tick(&self, ms: u64) -> (tick: Tick)
        requires
            self@.start <= ms,
            self@.tick_ms > 0,
        ensures
            tick == self@.tick_at_ms(ms as int),
    {
        ms_to_tick(ms, self.start, self.tick_ms)
    }

    /// The length of a tick in milliseconds.
    pub fn tick_ms(&self) -> (tick_ms: u64)
        ensures
            tick_ms == self@.tick_ms,
    {
        self.tick_ms
    }

    /// The time of tick 0 in milliseconds.
    pub fn start(&self) -> (start: u64)
        ensures
            start == self@.start,
    {
        self.start
    }

    /// The number of pending timeouts.
    pub fn count(&self) -> (count: usize)
        ensures
            count == self@.pending.len(),
    {
        assert(self@.pending.dom() =~= slab_contents(self.entries).dom());
        self.entries.count()
    }
}

} // verus!
