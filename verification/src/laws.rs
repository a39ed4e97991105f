//! What holds of the timer as a whole.
//!
//! Each function states a law over the views that the contracts of the timer's
//! operations speak of.
use crate::lemmas::{
    lemma_advanced_wf, lemma_at, lemma_hints_len, lemma_inserted_wf, lemma_place,
    lemma_place_without, lemma_rehinted_wf, lemma_without_wf,
};
use crate::links::{Tick, Token, TICK_MAX};
use crate::model::{least, rounded_tick, tick_at, TimerView};
use crate::timer::polled;
use vstd::arithmetic::div_mod::{lemma_fundamental_div_mod, lemma_mod_bound};
use vstd::prelude::*;

verus! {

/// The timer when it comes to a tick before which nothing is due.
pub open spec fn reached<T>(v: TimerView<T>, tick: int) -> TimerView<T> {
    TimerView { tick: tick as Tick, hints: v.hints_at(tick), cursor: v.entry_place(tick), ..v }
}

/// The timeouts that are due by a tick.
pub open spec fn due<T>(v: TimerView<T>, tick: Tick) -> Set<Token> {
    v.pending.dom().filter(|k: Token| v.pending[k].tick <= tick)
}

/// No tick is less than the least.
proof fn lemma_least_le(ticks: Seq<Tick>, i: int)
    requires
        0 <= i < ticks.len(),
    ensures
        least(ticks) <= ticks[i],
    decreases ticks.len(),
{
    if i < ticks.len() - 1 {
        lemma_least_le(ticks.drop_last(), i);
    }
}

/// The hint of a slot that has been looked at is no later than what was looked at.
proof fn lemma_looked_hint_le<T>(
    v: TimerView<T>,
    slot: int,
    from: int,
    to: int,
    hint: Tick,
    place: int,
)
    requires
        0 <= from,
        0 <= place < to,
        place < from ==> hint <= v.pending[v.lists[slot][place]].tick,
    ensures
        v.looked_hint(slot, from, to, hint) <= v.pending[v.lists[slot][place]].tick,
{
    if from <= place {
        lemma_least_le(v.ticks(slot, from, to), place - from);
    }
}

/// A timer keeps its invariant on the way to a tick before which nothing is due.
pub proof fn law_reached_wf<T>(v: TimerView<T>, tick: int)
    requires
        v.wf(),
        v.tick <= tick <= TICK_MAX,
        forall|k: Token| #[trigger] v.pending.contains_key(k) ==> tick <= v.pending[k].tick,
    ensures
        reached(v, tick).wf(),
    decreases tick - v.tick,
{
    if tick == v.tick {
        assert(reached(v, tick) =~= v);
    } else {
        law_reached_wf(v, tick - 1);
        lemma_hints_len(v, tick - 1);
        let u = reached(v, tick - 1);
        let slot = u.current();
        let len = u.lists[slot].len() as int;
        let hint = if u.cursor < len {
            v.looked_hint(slot, u.cursor, len, u.hints[slot])
        } else {
            u.hints[slot]
        };
        assert forall|j: int| 0 <= j < len implies hint <= v.pending[
            #[trigger] v.lists[slot][j]
        ].tick by {
            assert(u.has(slot, j));
            if u.cursor < len {
                lemma_looked_hint_le(v, slot, u.cursor, len, u.hints[slot], j);
            }
        }
        assert forall|j: int| u.cursor <= j < len implies u.tick < v.pending[
            #[trigger] v.lists[slot][j]
        ].tick by {
            assert(u.has(slot, j));
        }
        lemma_rehinted_wf(u, hint, len);
        let w = TimerView { hints: u.hints.update(slot, hint), cursor: len, ..u };
        lemma_advanced_wf(w);
        assert(reached(v, tick).hints =~= w.hints);
        assert(reached(v, tick) =~= (TimerView { tick: (w.tick + 1) as Tick, cursor: 0, ..w }));
    }
}

/// A poll that finds nothing due keeps the invariant and the capacity.
pub proof fn law_swept_wf<T>(v: TimerView<T>, target: Tick)
    requires
        v.wf(),
        target < TICK_MAX,
        !v.any_due(target),
    ensures
        v.swept(target).wf(),
        v.swept(target).capacity() == v.capacity(),
{
    if v.tick <= target {
        law_reached_wf(v, target + 1);
        assert(v.swept(target) =~= reached(v, target + 1));
    }
}

/// A timeout that fires leaves the invariant and the capacity as they are.
pub proof fn law_fired_wf<T>(v: TimerView<T>, token: Token)
    requires
        v.wf(),
        v.next_to_fire(token),
    ensures
        v.fired(token).wf(),
        v.fired(token).capacity() == v.capacity(),
{
    let tick = v.pending[token].tick as int;
    let slot = v.slot_of(token);
    let place = v.place(token);
    lemma_place(v, token);
    law_reached_wf(v, tick);
    lemma_hints_len(v, tick);
    let u = reached(v, tick);
    assert(u.has(slot, place));
    let hint = v.looked_hint(slot, u.cursor, place, u.hints[slot]);
    assert forall|j: int| 0 <= j < place implies hint <= v.pending[
        #[trigger] v.lists[slot][j]
    ].tick by {
        assert(u.has(slot, j));
        lemma_looked_hint_le(v, slot, u.cursor, place, u.hints[slot], j);
    }
    assert forall|j: int| u.cursor <= j < place implies u.tick < v.pending[
        #[trigger] v.lists[slot][j]
    ].tick by {
        lemma_at(v, slot, j);
    }
    lemma_rehinted_wf(u, hint, place);
    let w = TimerView { hints: u.hints.update(slot, hint), cursor: place, ..u };
    lemma_without_wf(w, token);
    assert(v.fired(token) =~= w.without(token));
}

/// At most one timeout is next to fire.
pub proof fn law_next_to_fire_is_one<T>(v: TimerView<T>, a: Token, b: Token)
    requires
        v.wf(),
        v.next_to_fire(a),
        v.next_to_fire(b),
    ensures
        a == b,
{
    lemma_place(v, a);
    lemma_place(v, b);
}

/// While anything is pending, some timeout is next to fire.
pub proof fn law_next_to_fire_is_there<T>(v: TimerView<T>, some: Token)
    requires
        v.wf(),
        v.pending.contains_key(some),
    ensures
        exists|token: Token| v.next_to_fire(token),
    decreases v.pending[some].tick, v.place(some),
{
    lemma_place(v, some);
    if !v.next_to_fire(some) {
        let k = choose|k: Token|
            v.pending.contains_key(k) && !(v.pending[some].tick <= v.pending[k].tick && (
            v.pending[some].tick == v.pending[k].tick ==> v.place(some) <= v.place(k)));
        lemma_place(v, k);
        law_next_to_fire_is_there(v, k);
    }
}

/// A poll is determined: what it returns and what it leaves behind depend on nothing but
/// the timer and the tick. It returns a state exactly if something is due.
pub proof fn law_poll_is_determined<T>(
    v: TimerView<T>,
    target: Tick,
    state1: Option<T>,
    after1: TimerView<T>,
    state2: Option<T>,
    after2: TimerView<T>,
)
    requires
        v.wf(),
        polled(v, target, state1, after1),
        polled(v, target, state2, after2),
    ensures
        state1 == state2,
        after1 == after2,
        state1 is Some <==> v.any_due(target),
{
    if state1 is Some && state2 is Some {
        let a = choose|token: Token|
            #[trigger] v.next_to_fire(token) && v.pending[token].tick <= target && state1
                == Some(v.pending[token].state) && after1 == v.fired(token);
        let b = choose|token: Token|
            #[trigger] v.next_to_fire(token) && v.pending[token].tick <= target && state2
                == Some(v.pending[token].state) && after2 == v.fired(token);
        law_next_to_fire_is_one(v, a, b);
    }
}

/// Timeouts fire in the order of their ticks: what fires next is not due earlier.
pub proof fn law_fires_in_order<T>(v: TimerView<T>, first: Token, second: Token)
    requires
        v.wf(),
        v.next_to_fire(first),
        v.fired(first).next_to_fire(second),
    ensures
        v.pending[first].tick <= v.fired(first).pending[second].tick,
        first != second,
{
    assert(v.pending.contains_key(second));
}

/// Among timeouts for one tick the one set last fires first: an earlier one is not next.
pub proof fn law_last_set_fires_first<T>(v: TimerView<T>, tick: Tick, state: T, earlier: Token)
    requires
        v.wf(),
        v.tick < tick,
        v.vacant.len() > 0,
        v.names_pending(earlier, tick),
    ensures
        !v.inserted(tick, state).next_to_fire(earlier),
{
    let w = v.inserted(tick, state);
    let token = v.vacant[0];
    lemma_inserted_wf(v, tick, state);
    assert(!v.pending.contains_key(token));
    lemma_place(w, token);
    lemma_place(w, earlier);
    lemma_at(w, w.slot(tick as int), 0);
}

/// A poll in time lets what is due fire, and nothing else: the timeouts due by the
/// target are those from before without the one that fired, and all others stay.
pub proof fn law_each_due_fires_once<T>(v: TimerView<T>, token: Token, target: Tick)
    requires
        v.wf(),
        v.next_to_fire(token),
        v.pending[token].tick <= target,
    ensures
        due(v.fired(token), target) == due(v, target).remove(token),
        due(v, target).contains(token),
        due(v, target).finite(),
        due(v.fired(token), target).len() == due(v, target).len() - 1,
        forall|k: Token|
            k != token && #[trigger] v.pending.contains_key(k) ==> v.fired(
                token,
            ).pending.contains_key(k) && v.fired(token).pending[k] == v.pending[k],
{
    assert(due(v.fired(token), target) =~= due(v, target).remove(token));
}

/// A timeout that has been set can be cancelled, and hands back the state that it was
/// set with.
pub proof fn law_cancel_finds_what_was_set<T>(v: TimerView<T>, tick: Tick, state: T)
    requires
        v.wf(),
        v.tick < tick,
        v.vacant.len() > 0,
    ensures
        v.inserted(tick, state).names_pending(v.vacant[0], tick),
        v.inserted(tick, state).pending[v.vacant[0]].state == state,
{
}

/// Cancelling undoes setting: all is as before, but for the hint of the slot, which may
/// stay too early.
pub proof fn law_cancel_undoes_set<T>(v: TimerView<T>, tick: Tick, state: T)
    requires
        v.wf(),
        v.tick < tick,
        v.vacant.len() > 0,
    ensures
        v.inserted(tick, state).without(v.vacant[0]) == (TimerView {
            hints: v.inserted(tick, state).hints,
            ..v
        }),
        forall|s: int|
            0 <= s < v.hints.len() ==> #[trigger] v.inserted(tick, state).hints[s] <= v.hints[s],
{
    let w = v.inserted(tick, state);
    let token = v.vacant[0];
    let slot = v.slot(tick as int);
    lemma_inserted_wf(v, tick, state);
    assert(!v.pending.contains_key(token));
    lemma_at(w, slot, 0);
    assert(w.lists[slot].remove(0) =~= v.lists[slot]);
    assert(w.without(token).lists =~= v.lists);
    assert(w.without(token).pending =~= v.pending);
    assert(w.without(token).vacant =~= v.vacant);
    assert(w.without(token) =~= (TimerView { hints: w.hints, ..v }));
}

/// A timeout can be cancelled once: afterwards its name finds nothing.
pub proof fn law_cancelled_is_gone<T>(v: TimerView<T>, token: Token, tick: Tick)
    requires
        v.wf(),
        v.names_pending(token, tick),
    ensures
        !v.without(token).names_pending(token, tick),
{
}

/// A timeout that has fired cannot be cancelled any more.
pub proof fn law_fired_is_gone<T>(v: TimerView<T>, token: Token)
    requires
        v.wf(),
        v.next_to_fire(token),
    ensures
        !v.fired(token).names_pending(token, v.pending[token].tick),
{
}

/// A timeout that is cancelled does not fire, and no other is affected.
pub proof fn law_cancel_leaves_others<T>(v: TimerView<T>, token: Token, other: Token)
    requires
        v.wf(),
        v.pending.contains_key(token),
        other != token,
    ensures
        !v.without(token).next_to_fire(token),
        v.without(token).pending.contains_key(other) == v.pending.contains_key(other),
        v.pending.contains_key(other) ==> v.without(token).pending[other] == v.pending[other],
        v.next_to_fire(other) ==> v.without(token).next_to_fire(other),
{
    let w = v.without(token);
    if v.next_to_fire(other) {
        lemma_without_wf(v, token);
        lemma_place(v, token);
        lemma_place(v, other);
        lemma_place(w, other);
        assert forall|k: Token| #[trigger] w.pending.contains_key(k) implies {
            &&& w.pending[other].tick <= w.pending[k].tick
            &&& w.pending[other].tick == w.pending[k].tick ==> w.place(other) <= w.place(k)
        } by {
            assert(v.pending.contains_key(k));
            lemma_place(v, k);
            lemma_place(w, k);
            if w.slot_of(k) == w.slot_of(other) {
                lemma_place_without(v, token, k);
                lemma_place_without(v, token, other);
            }
        }
    }
}

/// Polling again up to the same tick finds nothing and changes nothing.
pub proof fn law_poll_twice<T>(v: TimerView<T>, target: Tick)
    requires
        v.wf(),
        target < TICK_MAX,
        !v.any_due(target),
    ensures
        !v.swept(target).any_due(target),
        v.swept(target).swept(target) == v.swept(target),
{
}

/// The hints do not depend on whether the timer has been polled on the way.
proof fn lemma_hints_on_the_way<T>(v: TimerView<T>, target: Tick, tick: int)
    requires
        v.wf(),
        v.tick <= target < TICK_MAX,
        target + 1 <= tick,
    ensures
        v.swept(target).hints_at(tick) == v.hints_at(tick),
    decreases tick - target,
{
    let w = v.swept(target);
    if tick > target + 1 {
        lemma_hints_on_the_way(v, target, tick - 1);
        let slot = v.slot(tick - 1);
        assert(w.ticks(slot, 0, w.lists[slot].len() as int) =~= v.ticks(
            slot,
            0,
            v.lists[slot].len() as int,
        ));
    }
}

/// A timer that is polled seldom catches up: polling up to a tick with nothing due and
/// then on comes to the same as polling on at once.
pub proof fn law_catching_up<T>(v: TimerView<T>, target: Tick, later: Tick, token: Token)
    requires
        v.wf(),
        target <= later < TICK_MAX,
        !v.any_due(target),
    ensures
        v.swept(target).any_due(later) == v.any_due(later),
        v.swept(target).swept(later) == v.swept(later),
        v.swept(target).next_to_fire(token) == v.next_to_fire(token),
        v.next_to_fire(token) ==> v.swept(target).fired(token) == v.fired(token),
{
    let w = v.swept(target);
    assert forall|k: Token| w.place(k) == v.place(k) by {
    }
    if v.tick <= target {
        if target < later {
            lemma_hints_on_the_way(v, target, later + 1);
        }
        assert(w.swept(later) =~= v.swept(later));
        if v.next_to_fire(token) {
            let tick = v.pending[token].tick as int;
            let slot = v.slot_of(token);
            assert(target < tick);
            lemma_hints_on_the_way(v, target, tick);
            assert(w.ticks(slot, 0, w.place(token)) =~= v.ticks(slot, 0, v.place(token)));
            assert(w.fired(token) =~= v.fired(token));
        }
    }
}

/// The timer is never woken too late, and never for nothing: the next tick is no later than
/// any pending timeout, and is the tick of one as long as something is pending.
pub proof fn law_woken_in_time<T>(v: TimerView<T>, tick: Tick, token: Token)
    requires
        v.wf(),
        v.is_next_tick(tick),
        v.pending.contains_key(token),
    ensures
        tick <= v.pending[token].tick,
        exists|k: Token| v.names_pending(k, tick),
        v.any_due(tick),
{
    if tick == TICK_MAX {
        assert(v.names_pending(token, tick));
    } else {
        let k = choose|k: Token| #[trigger]
            v.pending.contains_key(k) && v.pending[k].tick == tick;
        assert(v.names_pending(k, tick));
    }
}

/// There is one next tick, and it is that of the timeout that is next to fire.
pub proof fn law_next_tick_is_that_of_the_next_to_fire<T>(
    v: TimerView<T>,
    tick: Tick,
    token: Token,
)
    requires
        v.wf(),
        v.next_to_fire(token),
    ensures
        v.is_next_tick(tick) <==> tick == v.pending[token].tick,
{
}

/// A timeout that has been set is due by its tick and later ones, and by no earlier one.
pub proof fn law_set_is_due_by_its_tick<T>(v: TimerView<T>, tick: Tick, state: T, target: Tick)
    requires
        v.wf(),
        v.tick < tick,
        v.vacant.len() > 0,
    ensures
        due(v.inserted(tick, state), target).contains(v.vacant[0]) <==> tick <= target,
        tick <= target ==> v.inserted(tick, state).any_due(target),
        forall|k: Token|
            k != v.vacant[0] ==> (#[trigger] due(v.inserted(tick, state), target).contains(k)
                <==> due(v, target).contains(k)),
{
    assert(v.inserted(tick, state).pending.contains_key(v.vacant[0]));
}

/// A timeout is due from the beginning of its tick on, and not before.
pub proof fn law_due_from_its_tick_on(ms: int, start: int, tick_ms: int, tick: int)
    requires
        tick_ms > 0,
    ensures
        tick <= tick_at(ms, start, tick_ms) <==> start + tick * tick_ms <= ms,
{
    let d = ms - start;
    lemma_fundamental_div_mod(d, tick_ms);
    lemma_mod_bound(d, tick_ms);
    let q = d / tick_ms;
    let r = d % tick_ms;
    assert(tick <= q <==> tick * tick_ms <= d) by (nonlinear_arith)
        requires
            d == tick_ms * q + r,
            0 <= r < tick_ms,
    ;
}

/// A timeout is rounded to the closest tick: by half a tick at most, and up if by that.
pub proof fn law_rounding(ms: int, start: int, tick_ms: int)
    requires
        tick_ms > 0,
    ensures
        ({
            let at = start + rounded_tick(ms, start, tick_ms) * tick_ms;
            -tick_ms < 2 * (at - ms) <= tick_ms
        }),
{
    let d = ms - start;
    lemma_fundamental_div_mod(d, tick_ms);
    lemma_mod_bound(d, tick_ms);
    let q = d / tick_ms;
    assert((q + 1) * tick_ms == tick_ms * q + tick_ms) by (nonlinear_arith);
    assert(q * tick_ms == tick_ms * q) by (nonlinear_arith);
}

/// A timeout is always set for a tick ahead of the timer.
pub proof fn law_set_ahead<T>(v: TimerView<T>, ms: int)
    ensures
        v.tick < v.target_tick(ms),
{
}

/// No more timeouts are ever pending than the timer can hold, and a timeout can be set
/// exactly while fewer are.
pub proof fn law_capacity<T>(v: TimerView<T>)
    requires
        v.wf(),
    ensures
        v.pending.len() <= v.capacity(),
        v.vacant.len() > 0 <==> v.pending.len() < v.capacity(),
{
}

} // verus!
