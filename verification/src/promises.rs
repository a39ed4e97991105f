//! What the timer's operations are for.
//!
//! Each law takes what a call was given and what it gave back, as far as the contract of
//! the called function ties them together, and says what holds between them: of what is
//! pending, of the ticks and of the lists.
use crate::clock::{capped_millis, clock_ms, duration_nanos, duration_secs, ClockError};
use crate::draining::{firing_order, lemma_next_token, next_token};
use crate::error::{TimerErrorKind, TimerResult};
use crate::laws::{
    law_due_from_its_tick_on, law_fired_wf, law_next_to_fire_is_one, law_rounding, law_swept_wf,
};
use crate::lemmas::{
    lemma_at, lemma_ceil_pow2, lemma_inserted_wf, lemma_place, lemma_rounded_tick_fits,
    lemma_without_wf,
};
use crate::links::{Tick, Token, TICK_MAX};
use crate::model::{rounded_tick, Pending, TimerView};
use crate::timer::{polled, timeout_set, Timeout, Timer};
use std::time::{Duration, SystemTime};
use vstd::arithmetic::power2::pow2;
use vstd::prelude::*;

verus! {

/// A new timer stands at tick 0 with the length of a tick and the start that it was given.
/// Nothing is pending, and as many tokens are vacant as it was asked to have room for. Its
/// wheel has the least power of two of slots that is no less than what it was asked for.
pub proof fn law_new<T>(
    tick_ms: u64,
    num_slots: usize,
    capacity: usize,
    start: u64,
    timer: Timer<T>,
)
    requires
        call_ensures(Timer::<T>::new, (tick_ms, num_slots, capacity, start), timer),
    ensures
        timer.wf(),
        timer@.tick_ms == tick_ms,
        timer@.start == start,
        timer@.tick == 0,
        forall|k: Token| !timer@.pending.contains_key(k),
        timer@.vacant.len() == capacity,
        forall|i: int| 0 <= i < capacity ==> #[trigger] timer@.vacant[i] == i,
        exists|e: nat| timer@.lists.len() == #[trigger] pow2(e),
        num_slots <= timer@.lists.len(),
        forall|e: nat| num_slots <= #[trigger] pow2(e) ==> timer@.lists.len() <= pow2(e),
        forall|s: int| 0 <= s < timer@.lists.len() ==> (#[trigger] timer@.lists[s]).len() == 0,
{
    lemma_ceil_pow2(num_slots as nat);
}

/// A new timer is what it was given: at tick 0, with that length of a tick and that start,
/// and with nothing pending. A timeout set in it goes to the closest tick, if that is not
/// tick 0, and else to tick 1.
pub proof fn law_fresh<T>(tick_ms: u64, slots: nat, capacity: nat, start: u64, ms: int)
    requires
        capacity <= usize::MAX,
    ensures
        ({
            let v = TimerView::<T>::fresh(tick_ms, slots, capacity, start);
            let rounded = rounded_tick(ms, start as int, tick_ms as int);
            &&& v.tick == 0
            &&& v.tick_ms == tick_ms
            &&& v.start == start
            &&& v.pending.dom() == Set::<Token>::empty()
            &&& v.vacant.len() == capacity
            &&& v.lists.len() == slots
            &&& rounded >= 1 ==> v.target_tick(ms) == rounded
            &&& rounded < 1 ==> v.target_tick(ms) == 1
        }),
{
    assert(TimerView::<T>::fresh(tick_ms, slots, capacity, start).pending.dom()
        =~= Set::<Token>::empty());
}

/// The tick that a timeout is set for is ahead of the timer. It is the closest to the point
/// in time, the later of two that are equally close, as long as that is ahead; else it is
/// the tick right after that of the timer.
pub proof fn law_target_tick<T>(v: TimerView<T>, ms: int, tick: int)
    requires
        v.tick_ms > 0,
    ensures
        v.tick < v.target_tick(ms),
        -v.tick_ms < 2 * (v.start + v.target_tick(ms) * v.tick_ms - ms),
        2 * (v.start + v.target_tick(ms) * v.tick_ms - ms) <= v.tick_ms || v.target_tick(ms)
            == v.tick + 1,
        v.tick < rounded_tick(ms, v.start as int, v.tick_ms as int) ==> -v.tick_ms < 2 * (v.start
            + v.target_tick(ms) * v.tick_ms - ms) <= v.tick_ms,
        !(v.tick < rounded_tick(ms, v.start as int, v.tick_ms as int)) ==> v.target_tick(ms)
            == v.tick + 1,
        v.tick < tick && -v.tick_ms < 2 * (v.start + tick * v.tick_ms - ms) && (2 * (v.start + tick
            * v.tick_ms - ms) <= v.tick_ms || tick == v.tick + 1) ==> tick == v.target_tick(ms),
{
    let (start, tick_ms) = (v.start as int, v.tick_ms as int);
    let closest = rounded_tick(ms, start, tick_ms);
    let target = v.target_tick(ms);
    law_rounding(ms, start, tick_ms);
    assert(closest <= target ==> closest * tick_ms <= target * tick_ms) by (nonlinear_arith)
        requires
            tick_ms > 0,
    ;
    assert(tick < closest ==> tick * tick_ms <= closest * tick_ms - tick_ms) by (nonlinear_arith)
        requires
            tick_ms > 0,
    ;
    assert(closest < tick ==> closest * tick_ms + tick_ms <= tick * tick_ms) by (nonlinear_arith)
        requires
            tick_ms > 0,
    ;
}

/// A timeout can be set for any point in time from the timer's start on, unless the timer has
/// come to the last tick.
pub proof fn law_reaches<T>(timer: &Timer<T>, at: u64, yes: bool)
    requires
        timer@.tick_ms > 0,
        call_ensures(Timer::<T>::reaches, (timer, at), yes),
    ensures
        yes <==> timer@.start <= at && timer@.tick < TICK_MAX,
        yes <==> timer@.reaches(at as int),
{
    if timer@.start <= at {
        lemma_rounded_tick_fits(at as int, timer@.start as int, timer@.tick_ms as int);
    }
}

/// What setting a timeout does. It is refused exactly if no token is vacant, and then nothing
/// changes. Otherwise one timeout more is pending, with the state and under a token that was
/// vacant. It stands in front of the list of its tick, and all else stays.
pub proof fn law_timeout_set<T>(
    v: TimerView<T>,
    ms: int,
    state: T,
    result: TimerResult<Timeout>,
    after: TimerView<T>,
)
    requires
        v.wf(),
        v.tick_ms > 0,
        v.start <= ms,
        v.target_tick(ms) <= TICK_MAX,
        timeout_set(v, ms, state, result, after),
    ensures
        after.wf(),
        result is Ok <==> v.vacant.len() > 0,
        result matches Err(error) ==> {
            &&& after == v
            &&& error.kind_of() == TimerErrorKind::TimerOverflow
            &&& error.said() == "too many timer entries"@
        },
        result matches Ok(timeout) ==> {
            let (k, t) = (timeout.token_of(), timeout.tick_of());
            let slot = t as int % v.lists.len() as int;
            &&& v.tick < t
            &&& -v.tick_ms < 2 * (v.start + t * v.tick_ms - ms)
            &&& 2 * (v.start + t * v.tick_ms - ms) <= v.tick_ms || t == v.tick + 1
            &&& !v.pending.contains_key(k)
            &&& after.pending == v.pending.insert(k, Pending { tick: t, state })
            &&& v.vacant == seq![k] + after.vacant
            &&& after.lists == v.lists.update(slot, seq![k] + v.lists[slot])
            &&& after.tick == v.tick
            &&& after.tick_ms == v.tick_ms
            &&& after.start == v.start
        },
{
    if result is Ok {
        law_target_tick(v, ms, 0);
        lemma_inserted_wf(v, v.target_tick(ms) as Tick, state);
        assert(!v.pending.contains_key(v.vacant[0]));
        assert(v.vacant =~= seq![v.vacant[0]] + v.vacant.skip(1));
    }
}

/// A timeout set for a point in time is pending under its name for the closest tick that is
/// ahead, or refused if as many are pending as the timer has room for.
pub proof fn law_set_timeout_at<T>(
    timer: &mut Timer<T>,
    at: u64,
    state: T,
    result: TimerResult<Timeout>,
)
    requires
        old(timer).wf(),
        old(timer)@.tick_ms > 0,
        old(timer)@.start <= at,
        old(timer)@.tick < TICK_MAX,
        call_ensures(Timer::<T>::set_timeout_at, (timer, at, state), result),
    ensures
        final(timer).wf(),
        timeout_set(old(timer)@, at as int, state, result, final(timer)@),
        result is Ok <==> old(timer)@.vacant.len() > 0,
        result is Err ==> final(timer)@ == old(timer)@,
        result matches Ok(timeout) ==> {
            let (v, t) = (old(timer)@, timeout.tick_of());
            &&& v.tick < t
            &&& -v.tick_ms < 2 * (v.start + t * v.tick_ms - at)
            &&& 2 * (v.start + t * v.tick_ms - at) <= v.tick_ms || t == v.tick + 1
            &&& !v.pending.contains_key(timeout.token_of())
            &&& final(timer)@.pending == v.pending.insert(
                timeout.token_of(),
                Pending { tick: t, state },
            )
        },
{
    let v = old(timer)@;
    old(timer).lemma_view_wf();
    lemma_rounded_tick_fits(at as int, v.start as int, v.tick_ms as int);
    law_timeout_set(v, at as int, state, result, final(timer)@);
}

/// A name finds the timeout that is pending under its token for exactly its tick, and no
/// other.
pub proof fn law_name_finds_its_tick<T>(v: TimerView<T>, token: Token, tick: Tick)
    ensures
        v.names_pending(token, tick) <==> v.pending.contains_key(token) && v.pending[token].tick
            == tick,
{
}

/// What cancelling a timeout does. It hands back a state exactly if a timeout is pending under
/// the token of the name for the tick of the name. Then that one is not pending any more, its
/// token is vacant and it has left the list of its tick; all else stays. Otherwise nothing
/// changes.
pub proof fn law_cancel_timeout<T>(timer: &mut Timer<T>, timeout: &Timeout, state: Option<T>)
    requires
        old(timer).wf(),
        call_ensures(Timer::<T>::cancel_timeout, (timer, timeout), state),
    ensures
        final(timer).wf(),
        final(timer)@.wf(),
        state is Some <==> {
            &&& old(timer)@.pending.contains_key(timeout.token_of())
            &&& old(timer)@.pending[timeout.token_of()].tick == timeout.tick_of()
        },
        state is None ==> final(timer)@ == old(timer)@,
        state matches Some(state) ==> {
            let (v, after, k) = (old(timer)@, final(timer)@, timeout.token_of());
            let slot = timeout.tick_of() as int % v.lists.len() as int;
            &&& state == v.pending[k].state
            &&& after.pending == v.pending.remove(k)
            &&& after.vacant == seq![k] + v.vacant
            &&& after.lists.len() == v.lists.len()
            &&& forall|s: int| 0 <= s < v.lists.len() && s != slot ==> after.lists[s] == v.lists[s]
            &&& exists|i: int|
                {
                    &&& 0 <= i < v.lists[slot].len()
                    &&& #[trigger] v.lists[slot][i] == k
                    &&& after.lists[slot] == v.lists[slot].remove(i)
                }
            &&& after.tick == v.tick
            &&& after.tick_ms == v.tick_ms
            &&& after.start == v.start
        },
{
    let v = old(timer)@;
    old(timer).lemma_view_wf();
    if state is Some {
        lemma_place(v, timeout.token_of());
        lemma_without_wf(v, timeout.token_of());
    }
}

/// A timeout that has been set can be cancelled at once: its name hands back the state that it
/// was set with, and then what is pending, the vacant tokens and the lists are as they were.
pub proof fn law_set_then_cancel<T>(
    timer: &mut Timer<T>,
    at: u64,
    state: T,
    timeout: Timeout,
    then: &mut Timer<T>,
    cancelled: Option<T>,
)
    requires
        old(timer).wf(),
        old(timer)@.tick_ms > 0,
        old(timer)@.start <= at,
        old(timer)@.tick < TICK_MAX,
        call_ensures(Timer::<T>::set_timeout_at, (timer, at, state), Ok(timeout)),
        *old(then) == *final(timer),
        call_ensures(Timer::<T>::cancel_timeout, (then, &timeout), cancelled),
    ensures
        cancelled == Some(state),
        final(then)@.pending == old(timer)@.pending,
        final(then)@.vacant == old(timer)@.vacant,
        final(then)@.lists == old(timer)@.lists,
        final(then)@.tick == old(timer)@.tick,
{
    let (v, w, x) = (old(timer)@, old(then)@, final(then)@);
    old(timer).lemma_view_wf();
    lemma_rounded_tick_fits(at as int, v.start as int, v.tick_ms as int);
    law_timeout_set(v, at as int, state, Ok(timeout), w);
    law_cancel_timeout(then, &timeout, cancelled);
    let slot = timeout.tick_of() as int % v.lists.len() as int;
    assert(w.lists[slot][0] == timeout.token_of());
    assert(w.lists[slot].no_duplicates());
    assert(w.lists[slot].remove(0) =~= v.lists[slot]);
    assert(x.pending =~= v.pending);
    assert(x.vacant =~= v.vacant);
    assert(x.lists =~= v.lists);
}

/// A timeout can be cancelled once: its name then finds nothing, and cancelling it again
/// changes nothing.
pub proof fn law_cancel_twice<T>(
    timer: &mut Timer<T>,
    timeout: &Timeout,
    first: Option<T>,
    then: &mut Timer<T>,
    second: Option<T>,
)
    requires
        old(timer).wf(),
        call_ensures(Timer::<T>::cancel_timeout, (timer, timeout), first),
        *old(then) == *final(timer),
        call_ensures(Timer::<T>::cancel_timeout, (then, timeout), second),
    ensures
        second is None,
        final(then)@ == old(then)@,
{
}

/// The name of a timeout that has been cancelled does not find one that has got its token
/// since, if that is for another tick.
pub proof fn law_old_name_after_cancel<T>(v: TimerView<T>, token: Token, tick: Tick, state: T)
    requires
        v.wf(),
        v.pending.contains_key(token),
        v.tick < tick,
        tick != v.pending[token].tick,
    ensures
        v.without(token).inserted(tick, state).pending[token] == (Pending { tick, state }),
        !v.without(token).inserted(tick, state).names_pending(token, v.pending[token].tick),
        v.without(token).inserted(tick, state).names_pending(token, tick),
{
}

/// The name of a timeout that has fired does not find one that has got its token since, if
/// that is for another tick.
pub proof fn law_old_name_after_firing<T>(v: TimerView<T>, token: Token, tick: Tick, state: T)
    requires
        v.wf(),
        v.next_to_fire(token),
        v.pending[token].tick < tick,
    ensures
        v.fired(token).inserted(tick, state).pending[token] == (Pending { tick, state }),
        !v.fired(token).inserted(tick, state).names_pending(token, v.pending[token].tick),
        v.fired(token).inserted(tick, state).names_pending(token, tick),
{
}

/// What a poll up to a tick does. It returns a state exactly if a pending timeout is due by the
/// tick. The state is that of the one at a place of a list: none is due earlier, and none
/// further to the front of that list is due at the same tick. That one, and no other, is not
/// pending any more, and the timer stands at its tick. If no state is returned, what is
/// pending stays, and the timer stands past the tick.
pub proof fn law_polled<T>(
    v: TimerView<T>,
    target: Tick,
    state: Option<T>,
    after: TimerView<T>,
) -> (token: Token)
    requires
        v.wf(),
        target < TICK_MAX || state is Some,
        polled(v, target, state, after),
    ensures
        after.wf(),
        after.tick_ms == v.tick_ms,
        after.start == v.start,
        after.lists.len() == v.lists.len(),
        state is Some <==> exists|k: Token| #[trigger]
            v.pending.contains_key(k) && v.pending[k].tick <= target,
        state is None ==> {
            &&& after.pending == v.pending
            &&& after.vacant == v.vacant
            &&& after.lists == v.lists
            &&& after.tick == if v.tick <= target {
                target + 1
            } else {
                v.tick as int
            }
        },
        state matches Some(state) ==> {
            let slot = v.pending[token].tick as int % v.lists.len() as int;
            &&& v.pending.contains_key(token)
            &&& v.pending[token].tick <= target
            &&& state == v.pending[token].state
            &&& forall|k: Token| #[trigger]
                v.pending.contains_key(k) ==> v.pending[token].tick <= v.pending[k].tick
            &&& after.pending == v.pending.remove(token)
            &&& after.vacant == seq![token] + v.vacant
            &&& after.tick == v.pending[token].tick
            &&& forall|s: int| 0 <= s < v.lists.len() && s != slot ==> after.lists[s] == v.lists[s]
            &&& exists|i: int|
                {
                    &&& 0 <= i < v.lists[slot].len()
                    &&& #[trigger] v.lists[slot][i] == token
                    &&& after.lists[slot] == v.lists[slot].remove(i)
                    &&& forall|j: int|
                        0 <= j < i ==> v.pending[#[trigger] v.lists[slot][j]].tick
                            != v.pending[token].tick
                }
        },
        state is Some ==> v.next_to_fire(token) && after == v.fired(token),
{
    match state {
        Some(state) => {
            let token = choose|token: Token|
                #[trigger] v.next_to_fire(token) && v.pending[token].tick <= target && state
                    == v.pending[token].state && after == v.fired(token);
            let slot = v.slot_of(token);
            lemma_place(v, token);
            law_fired_wf(v, token);
            let i = v.place(token);
            assert forall|j: int| 0 <= j < i implies v.pending[#[trigger] v.lists[slot][j]].tick
                != v.pending[token].tick by {
                lemma_at(v, slot, j);
            }
            assert(v.lists[slot][i] == token);
            token
        },
        None => {
            law_swept_wf(v, target);
            arbitrary()
        },
    }
}

/// A poll up to a tick returns a state exactly if something pending is due by the tick. What
/// is pending afterwards is exactly what was pending before, without the one timeout whose
/// state was returned, and nothing is due earlier than that one.
pub proof fn law_poll_to<T>(timer: &mut Timer<T>, target: Tick, state: Option<T>)
    requires
        old(timer).wf(),
        target < TICK_MAX || state is Some,
        call_ensures(Timer::<T>::poll_to, (timer, target), state),
    ensures
        final(timer).wf(),
        polled(old(timer)@, target, state, final(timer)@),
        final(timer)@.wf(),
        state is Some <==> exists|k: Token| #[trigger]
            old(timer)@.pending.contains_key(k) && old(timer)@.pending[k].tick <= target,
        state is None ==> final(timer)@.pending == old(timer)@.pending,
        state matches Some(state) ==> exists|token: Token|
            {
                &&& #[trigger] old(timer)@.pending.contains_key(token)
                &&& old(timer)@.pending[token].state == state
                &&& old(timer)@.pending[token].tick <= target
                &&& final(timer)@.pending == old(timer)@.pending.remove(token)
                &&& forall|k: Token| #[trigger]
                    old(timer)@.pending.contains_key(k) ==> old(timer)@.pending[token].tick
                        <= old(timer)@.pending[k].tick
            },
{
    old(timer).lemma_view_wf();
    law_polled(old(timer)@, target, state, final(timer)@);
}

// A poll that returns a state lets the first in the order of firing fire
proof fn lemma_polled_first<T>(
    v: TimerView<T>,
    target: Tick,
    state: T,
    after: TimerView<T>,
) -> (token: Token)
    requires
        v.wf(),
        polled(v, target, Some(state), after),
    ensures
        after.wf(),
        v.pending.contains_key(token),
        v.pending[token].tick <= target,
        v.pending[token].state == state,
        forall|k: Token| #[trigger]
            v.pending.contains_key(k) ==> v.pending[token].tick <= v.pending[k].tick,
        after.pending == v.pending.remove(token),
        firing_order(v, target) == seq![token] + firing_order(after, target),
{
    let token = law_polled(v, target, Some(state), after);
    assert(v.any_due(target));
    lemma_next_token(v, target);
    law_next_to_fire_is_one(v, token, next_token(v));
    token
}

/// Polls in a row up to a tick return the states of as many timeouts that are due by it, each
/// once and in the order of their ticks. All others stay pending as they are.
pub proof fn law_polls_in_a_row<T>(
    views: Seq<TimerView<T>>,
    target: Tick,
    states: Seq<T>,
) -> (tokens: Seq<Token>)
    requires
        views.len() == states.len() + 1,
        views[0].wf(),
        forall|i: int|
            0 <= i < states.len() ==> polled(
                #[trigger] views[i],
                target,
                Some(states[i]),
                views[i + 1],
            ),
    ensures
        tokens.len() == states.len(),
        tokens.no_duplicates(),
        forall|i: int|
            0 <= i < tokens.len() ==> {
                &&& views[0].pending.contains_key(#[trigger] tokens[i])
                &&& views[0].pending[tokens[i]].tick <= target
                &&& views[0].pending[tokens[i]].state == states[i]
            },
        forall|i: int, j: int|
            0 <= i < j < tokens.len() ==> views[0].pending[#[trigger] tokens[i]].tick
                <= views[0].pending[#[trigger] tokens[j]].tick,
        forall|k: Token| #[trigger]
            views.last().pending.contains_key(k) <==> views[0].pending.contains_key(k)
                && !tokens.contains(k),
        forall|k: Token| #[trigger]
            views.last().pending.contains_key(k) ==> views.last().pending[k]
                == views[0].pending[k],
        views.last().wf(),
        firing_order(views[0], target) == tokens + firing_order(views.last(), target),
    decreases states.len(),
{
    let v = views[0];
    if states.len() == 0 {
        assert(firing_order(v, target) =~= Seq::<Token>::empty() + firing_order(v, target));
        Seq::empty()
    } else {
        let w = views[1];
        assert(polled(views[0], target, Some(states[0]), views[1]));
        let token = lemma_polled_first(v, target, states[0], w);
        let (less, fewer) = (views.drop_first(), states.drop_first());
        assert forall|i: int| 0 <= i < fewer.len() implies polled(
            #[trigger] less[i],
            target,
            Some(fewer[i]),
            less[i + 1],
        ) by {
            assert(polled(views[i + 1], target, Some(states[i + 1]), views[i + 1 + 1]));
        }
        let rest = law_polls_in_a_row(less, target, fewer);
        let tokens = seq![token] + rest;
        assert(less.last() == views.last());
        assert(firing_order(v, target) =~= tokens + firing_order(views.last(), target));
        assert forall|i: int| 0 <= i < tokens.len() implies {
            &&& v.pending.contains_key(#[trigger] tokens[i])
            &&& v.pending[tokens[i]].tick <= target
            &&& v.pending[tokens[i]].state == states[i]
            &&& i > 0 ==> tokens[i] == rest[i - 1] && tokens[i] != token
                && w.pending.contains_key(tokens[i])
        } by {
            if i > 0 {
                assert(tokens[i] == rest[i - 1]);
                assert(w.pending.contains_key(rest[i - 1]));
            }
        }
        assert(tokens.no_duplicates());
        assert forall|k: Token| #[trigger] views.last().pending.contains_key(k) <==> {
            v.pending.contains_key(k) && !tokens.contains(k)
        } by {
            if tokens.contains(k) && k != token {
                let i = choose|i: int| 0 <= i < tokens.len() && tokens[i] == k;
                assert(rest[i - 1] == k);
            }
            if rest.contains(k) {
                let i = choose|i: int| 0 <= i < rest.len() && rest[i] == k;
                assert(tokens[i + 1] == k);
            }
            if k == token {
                assert(tokens[0] == k);
            }
        }
        tokens
    }
}

/// A timer that is polled up to a tick until nothing is returned any more has returned the
/// state of every timeout due by the tick, each once and in the order of firing. What is
/// left pending is exactly what is due later.
pub proof fn law_polls_until_nothing_is_due<T>(
    views: Seq<TimerView<T>>,
    target: Tick,
    states: Seq<T>,
    after: TimerView<T>,
) -> (tokens: Seq<Token>)
    requires
        views.len() == states.len() + 1,
        views[0].wf(),
        target < TICK_MAX,
        forall|i: int|
            0 <= i < states.len() ==> polled(
                #[trigger] views[i],
                target,
                Some(states[i]),
                views[i + 1],
            ),
        polled(views.last(), target, None, after),
    ensures
        tokens == firing_order(views[0], target),
        tokens.len() == states.len(),
        tokens.no_duplicates(),
        forall|i: int|
            0 <= i < tokens.len() ==> views[0].pending[#[trigger] tokens[i]].state == states[i],
        forall|i: int, j: int|
            0 <= i < j < tokens.len() ==> views[0].pending[#[trigger] tokens[i]].tick
                <= views[0].pending[#[trigger] tokens[j]].tick,
        forall|k: Token| #[trigger]
            tokens.contains(k) <==> views[0].pending.contains_key(k) && views[0].pending[k].tick
                <= target,
        forall|k: Token| #[trigger]
            after.pending.contains_key(k) <==> views[0].pending.contains_key(k)
                && views[0].pending[k].tick > target,
        forall|k: Token| #[trigger]
            after.pending.contains_key(k) ==> after.pending[k] == views[0].pending[k],
{
    let (v, last) = (views[0], views.last());
    let tokens = law_polls_in_a_row(views, target, states);
    law_polled(last, target, None, after);
    assert(!last.any_due(target));
    assert(firing_order(last, target) =~= Seq::<Token>::empty());
    assert(tokens =~= firing_order(v, target));
    assert forall|k: Token| #[trigger]
        tokens.contains(k) <==> v.pending.contains_key(k) && v.pending[k].tick <= target by {
        assert(last.pending.contains_key(k) <==> v.pending.contains_key(k) && !tokens.contains(k));
    }
    tokens
}

/// Among timeouts for one tick the one set last fires first: as long as it is pending, no poll
/// lets one fire that was set for that tick before.
pub proof fn law_set_last_fires_before<T>(
    v: TimerView<T>,
    ms: int,
    state: T,
    timeout: Timeout,
    after: TimerView<T>,
    earlier: Token,
    target: Tick,
    returned: Option<T>,
    then: TimerView<T>,
)
    requires
        v.wf(),
        v.tick_ms > 0,
        v.start <= ms,
        v.target_tick(ms) <= TICK_MAX,
        timeout_set(v, ms, state, Ok(timeout), after),
        v.pending.contains_key(earlier),
        v.pending[earlier].tick == timeout.tick_of(),
        target < TICK_MAX || returned is Some,
        polled(after, target, returned, then),
    ensures
        then.pending.contains_key(earlier),
        then.pending[earlier] == v.pending[earlier],
{
    law_timeout_set(v, ms, state, Ok(timeout), after);
    let token = law_polled(after, target, returned, then);
    if returned is Some && token == earlier {
        let new = timeout.token_of();
        lemma_place(after, new);
        lemma_place(after, earlier);
        lemma_at(after, after.slot_of(new), 0);
    }
}

/// Setting a timeout adds one to what is pending if it succeeds, a poll that returns a state and
/// a timeout that is cancelled take one away, and nothing else changes the number. It is
/// never more than the timer has room for, and how many that is never changes.
pub proof fn law_counting<T>(
    v: TimerView<T>,
    ms: int,
    state: T,
    result: TimerResult<Timeout>,
    set: TimerView<T>,
    target: Tick,
    returned: Option<T>,
    then: TimerView<T>,
    token: Token,
)
    requires
        v.wf(),
        v.tick_ms > 0,
        v.start <= ms,
        v.target_tick(ms) <= TICK_MAX,
        timeout_set(v, ms, state, result, set),
        target < TICK_MAX || returned is Some,
        polled(v, target, returned, then),
    ensures
        set.pending.len() == v.pending.len() + if result is Ok {
            1int
        } else {
            0
        },
        set.pending.len() + set.vacant.len() == v.pending.len() + v.vacant.len(),
        then.pending.len() == v.pending.len() - if returned is Some {
            1int
        } else {
            0
        },
        then.pending.len() + then.vacant.len() == v.pending.len() + v.vacant.len(),
        v.pending.contains_key(token) ==> {
            &&& v.without(token).pending.len() == v.pending.len() - 1
            &&& v.without(token).vacant.len() == v.vacant.len() + 1
        },
{
    law_timeout_set(v, ms, state, result, set);
    law_polled(v, target, returned, then);
}

/// The count is that of the tokens under which a timeout is pending: each of them is counted,
/// and each once.
pub proof fn law_count<T>(timer: &Timer<T>, count: usize)
    requires
        timer.wf(),
        call_ensures(Timer::<T>::count, (timer,), count),
    ensures
        timer@.pending.dom().finite(),
        count == timer@.pending.dom().len(),
        count == 0 <==> forall|k: Token| !timer@.pending.contains_key(k),
{
    timer.lemma_view_wf();
    let tokens = timer@.pending.dom();
    if count == 0 {
        assert forall|k: Token| !timer@.pending.contains_key(k) by {
            if tokens.contains(k) {
                assert(tokens.remove(k).len() == tokens.len() - 1);
            }
        }
    } else {
        assert(timer@.pending.contains_key(tokens.choose()));
    }
}

/// A timer tells the length of a tick and the start that it was made with.
pub proof fn law_new_tells<T>(
    tick_ms: u64,
    num_slots: usize,
    capacity: usize,
    start: u64,
    timer: Timer<T>,
    told_tick_ms: u64,
    told_start: u64,
    count: usize,
)
    requires
        call_ensures(Timer::<T>::new, (tick_ms, num_slots, capacity, start), timer),
        call_ensures(Timer::<T>::tick_ms, (&timer,), told_tick_ms),
        call_ensures(Timer::<T>::start, (&timer,), told_start),
        call_ensures(Timer::<T>::count, (&timer,), count),
    ensures
        told_tick_ms == tick_ms,
        told_start == start,
        count == 0,
{
}

/// The tick for a point in time is the one tick that has begun by then and whose successor
/// has not.
pub proof fn law_ms_to_tick<T>(timer: &Timer<T>, ms: u64, tick: Tick)
    requires
        timer@.start <= ms,
        timer@.tick_ms > 0,
        call_ensures(Timer::<T>::ms_to_tick, (timer, ms), tick),
    ensures
        timer@.start + tick * timer@.tick_ms <= ms,
        ms < timer@.start + (tick + 1) * timer@.tick_ms,
{
    let (start, tick_ms) = (timer@.start as int, timer@.tick_ms as int);
    law_due_from_its_tick_on(ms as int, start, tick_ms, tick as int);
    law_due_from_its_tick_on(ms as int, start, tick_ms, tick + 1);
}

/// The current tick is the one that some reading of the clock falls into.
pub proof fn law_current_tick<T>(timer: &Timer<T>, result: Result<Tick, ClockError>)
    requires
        timer@.tick_ms > 0,
        call_ensures(Timer::<T>::current_tick, (timer,), result),
    ensures
        exists|time: SystemTime|
            {
                let ms = #[trigger] clock_ms(time);
                &&& result is Ok <==> timer@.start <= ms <= u64::MAX
                &&& result matches Ok(tick) ==> timer@.start + tick * timer@.tick_ms <= ms
                    < timer@.start + (tick + 1) * timer@.tick_ms
            },
{
    let (start, tick_ms) = (timer@.start as int, timer@.tick_ms as int);
    let time = choose|time: SystemTime|
        match result {
            Ok(tick) => {
                &&& start <= #[trigger] clock_ms(time) <= u64::MAX
                &&& tick == timer@.tick_at_ms(clock_ms(time))
            },
            Err(_) => clock_ms(time) < start || clock_ms(time) > u64::MAX,
        };
    let ms = clock_ms(time);
    if let Ok(tick) = result {
        law_due_from_its_tick_on(ms, start, tick_ms, tick as int);
        law_due_from_its_tick_on(ms, start, tick_ms, tick + 1);
    }
}

/// The next tick is the least among the ticks of what is pending, and the last tick there is
/// if nothing is pending.
pub proof fn law_next_tick<T>(timer: &Timer<T>, tick: Option<Tick>)
    requires
        timer.wf(),
        call_ensures(Timer::<T>::next_tick, (timer,), tick),
    ensures
        tick is Some,
        forall|k: Token| #[trigger]
            timer@.pending.contains_key(k) ==> tick->0 <= timer@.pending[k].tick,
        (exists|k: Token| timer@.pending.contains_key(k)) ==> exists|k: Token| #[trigger]
            timer@.pending.contains_key(k) && timer@.pending[k].tick == tick->0,
        (forall|k: Token| !timer@.pending.contains_key(k)) ==> tick->0 == u64::MAX,
{
    if tick->0 == TICK_MAX && exists|k: Token| timer@.pending.contains_key(k) {
        let k = choose|k: Token| timer@.pending.contains_key(k);
        assert(timer@.pending[k].tick == TICK_MAX);
    }
}

/// A poll at a point in time fails if that is before the timer's start, or if it falls into the
/// last tick there is and nothing is pending, and then changes nothing. Otherwise a state
/// is returned exactly if the tick of a pending timeout has begun: that of one with the
/// earliest tick, which is all that is not pending afterwards.
pub proof fn law_poll_from<T>(
    timer: &mut Timer<T>,
    now: u64,
    result: Result<Option<T>, ClockError>,
)
    requires
        old(timer).wf(),
        old(timer)@.tick_ms > 0,
        call_ensures(Timer::<T>::poll_from, (timer, now), result),
    ensures
        final(timer).wf(),
        result is Err <==> now < old(timer)@.start || (old(timer)@.start + u64::MAX
            * old(timer)@.tick_ms <= now && forall|k: Token|
            !old(timer)@.pending.contains_key(k)),
        result is Err ==> final(timer)@ == old(timer)@,
        result matches Ok(state) ==> {
            let v = old(timer)@;
            &&& exists|tick: Tick|
                {
                    &&& v.start + tick * v.tick_ms <= now < v.start + (tick + 1) * v.tick_ms
                    &&& #[trigger] polled(v, tick, state, final(timer)@)
                }
            &&& state is Some <==> exists|k: Token| #[trigger]
                v.pending.contains_key(k) && v.start + v.pending[k].tick * v.tick_ms <= now
            &&& state is None ==> final(timer)@.pending == v.pending
            &&& state matches Some(state) ==> exists|token: Token|
                {
                    &&& #[trigger] v.pending.contains_key(token)
                    &&& v.pending[token].state == state
                    &&& v.start + v.pending[token].tick * v.tick_ms <= now
                    &&& final(timer)@.pending == v.pending.remove(token)
                    &&& forall|k: Token| #[trigger]
                        v.pending.contains_key(k) ==> v.pending[token].tick <= v.pending[k].tick
                }
        },
{
    let v = old(timer)@;
    let (start, tick_ms) = (v.start as int, v.tick_ms as int);
    let tick = v.tick_at_ms(now as int);
    old(timer).lemma_view_wf();
    law_due_from_its_tick_on(now as int, start, tick_ms, u64::MAX as int);
    law_due_from_its_tick_on(now as int, start, tick_ms, 0);
    law_due_from_its_tick_on(now as int, start, tick_ms, u64::MAX + 1);
    assert((u64::MAX + 1) * tick_ms > u64::MAX) by (nonlinear_arith)
        requires
            tick_ms > 0,
    ;
    assert forall|k: Token| #[trigger] v.pending.contains_key(k) implies (v.pending[k].tick <= tick
        <==> v.start + v.pending[k].tick * v.tick_ms <= now) by {
        law_due_from_its_tick_on(now as int, start, tick_ms, v.pending[k].tick as int);
    }
    if v.pending.len() == 0 {
        assert forall|k: Token| !v.pending.contains_key(k) by {
            if v.pending.dom().contains(k) {
                assert(v.pending.dom().remove(k).len() == v.pending.dom().len() - 1);
            }
        }
    } else {
        let k = v.pending.dom().choose();
        assert(v.pending.contains_key(k));
        assert(tick >= TICK_MAX ==> v.pending[k].tick <= tick);
    }
    if let Ok(state) = result {
        if tick >= TICK_MAX {
            assert(v.any_due(tick as Tick));
        }
        law_due_from_its_tick_on(now as int, start, tick_ms, tick);
        law_due_from_its_tick_on(now as int, start, tick_ms, tick + 1);
        law_polled(v, tick as Tick, state, final(timer)@);
        assert(polled(v, tick as Tick, state, final(timer)@));
    }
}

/// A poll is one at some reading of the clock, if a `u64` can hold that.
pub proof fn law_poll<T>(timer: &mut Timer<T>, result: Result<Option<T>, ClockError>)
    requires
        old(timer).wf(),
        old(timer)@.tick_ms > 0,
        call_ensures(Timer::<T>::poll, (timer,), result),
    ensures
        final(timer).wf(),
        result is Err ==> final(timer)@ == old(timer)@,
        exists|time: SystemTime|
            {
                let now = #[trigger] clock_ms(time);
                let v = old(timer)@;
                &&& result is Ok ==> v.start <= now <= u64::MAX
                &&& v.start <= now < u64::MAX ==> result is Ok
                &&& result matches Ok(state) ==> {
                    &&& exists|tick: Tick|
                        {
                            &&& v.start + tick * v.tick_ms <= now < v.start + (tick + 1)
                                * v.tick_ms
                            &&& #[trigger] polled(v, tick, state, final(timer)@)
                        }
                    &&& state is Some <==> exists|k: Token| #[trigger]
                        v.pending.contains_key(k) && v.start + v.pending[k].tick * v.tick_ms <= now
                    &&& state is None ==> final(timer)@.pending == v.pending
                    &&& state matches Some(state) ==> exists|token: Token|
                        {
                            &&& #[trigger] v.pending.contains_key(token)
                            &&& v.pending[token].state == state
                            &&& v.start + v.pending[token].tick * v.tick_ms <= now
                            &&& final(timer)@.pending == v.pending.remove(token)
                            &&& forall|k: Token| #[trigger]
                                v.pending.contains_key(k) ==> v.pending[token].tick
                                    <= v.pending[k].tick
                        }
                }
            },
{
    let v = old(timer)@;
    let (start, tick_ms) = (v.start as int, v.tick_ms as int);
    old(timer).lemma_view_wf();
    let time = choose|time: SystemTime|
        {
            let ms = #[trigger] clock_ms(time);
            let tick = v.tick_at_ms(ms);
            match result {
                Ok(state) => {
                    &&& v.start <= ms <= u64::MAX
                    &&& tick < TICK_MAX || v.pending.len() > 0
                    &&& polled(v, tick as Tick, state, final(timer)@)
                },
                Err(_) => {
                    &&& !(v.start <= ms <= u64::MAX) || tick >= TICK_MAX && v.pending.len() == 0
                    &&& final(timer)@ == v
                },
            }
        };
    let now = clock_ms(time);
    let tick = v.tick_at_ms(now);
    law_due_from_its_tick_on(now, start, tick_ms, 0);
    law_due_from_its_tick_on(now, start, tick_ms, u64::MAX as int);
    law_due_from_its_tick_on(now, start, tick_ms, u64::MAX + 1);
    assert(u64::MAX * tick_ms >= u64::MAX && (u64::MAX + 1) * tick_ms > u64::MAX)
        by (nonlinear_arith)
        requires
            tick_ms > 0,
    ;
    assert forall|k: Token| #[trigger] v.pending.contains_key(k) implies (v.pending[k].tick <= tick
        <==> v.start + v.pending[k].tick * v.tick_ms <= now) by {
        law_due_from_its_tick_on(now, start, tick_ms, v.pending[k].tick as int);
    }
    if v.pending.len() > 0 {
        let k = v.pending.dom().choose();
        assert(v.pending.contains_key(k));
        assert(tick >= TICK_MAX ==> v.pending[k].tick <= tick);
    }
    if let Ok(state) = result {
        if tick >= TICK_MAX {
            assert(v.any_due(tick as Tick));
        }
        law_due_from_its_tick_on(now, start, tick_ms, tick);
        law_due_from_its_tick_on(now, start, tick_ms, tick + 1);
        law_polled(v, tick as Tick, state, final(timer)@);
        assert(polled(v, tick as Tick, state, final(timer)@));
    }
}

/// A timeout set for a time from a point in time goes to the closest tick ahead, where the time
/// is counted in milliseconds: the least number of them that covers it, but no more than a
/// `u64` can hold. Only where the time that this leads to is too large for a `u64` or before
/// the timer's start, or where the timer has come to the last tick, does that fail, and then
/// nothing changes.
pub proof fn law_set_timeout_from<T>(
    timer: &mut Timer<T>,
    now: u64,
    delay: Duration,
    state: T,
    result: Result<TimerResult<Timeout>, ClockError>,
    ms: int,
)
    requires
        old(timer).wf(),
        old(timer)@.tick_ms > 0,
        call_ensures(Timer::<T>::set_timeout_from, (timer, now, delay, state), result),
        0 <= ms <= u64::MAX,
        (ms - 1) * 1_000_000 < duration_secs(delay) * 1_000_000_000 + duration_nanos(delay),
        duration_secs(delay) * 1_000_000_000 + duration_nanos(delay) <= ms * 1_000_000 || ms
            == u64::MAX,
    ensures
        final(timer).wf(),
        result is Ok <==> old(timer)@.start <= now + ms <= u64::MAX && old(timer)@.tick < TICK_MAX,
        result is Err ==> final(timer)@ == old(timer)@,
        result matches Ok(result) ==> {
            &&& timeout_set(old(timer)@, now + ms, state, result, final(timer)@)
            &&& result is Ok <==> old(timer)@.vacant.len() > 0
            &&& result matches Ok(timeout) ==> {
                let (v, t) = (old(timer)@, timeout.tick_of());
                &&& v.tick < t
                &&& -v.tick_ms < 2 * (v.start + t * v.tick_ms - (now + ms))
                &&& 2 * (v.start + t * v.tick_ms - (now + ms)) <= v.tick_ms || t == v.tick + 1
                &&& final(timer)@.pending == v.pending.insert(
                    timeout.token_of(),
                    Pending { tick: t, state },
                )
            }
        },
{
    let v = old(timer)@;
    old(timer).lemma_view_wf();
    assert(capped_millis(delay) == ms);
    if v.start <= now + ms <= u64::MAX {
        lemma_rounded_tick_fits(now + ms, v.start as int, v.tick_ms as int);
    }
    if let Ok(result) = result {
        law_timeout_set(v, now + ms, state, result, final(timer)@);
    }
}

/// A timeout set for a time from now is one set for that time from some reading of the clock.
pub proof fn law_set_timeout<T>(
    timer: &mut Timer<T>,
    delay: Duration,
    state: T,
    result: Result<TimerResult<Timeout>, ClockError>,
    ms: int,
)
    requires
        old(timer).wf(),
        old(timer)@.tick_ms > 0,
        call_ensures(Timer::<T>::set_timeout, (timer, delay, state), result),
        0 <= ms <= u64::MAX,
        (ms - 1) * 1_000_000 < duration_secs(delay) * 1_000_000_000 + duration_nanos(delay),
        duration_secs(delay) * 1_000_000_000 + duration_nanos(delay) <= ms * 1_000_000 || ms
            == u64::MAX,
    ensures
        final(timer).wf(),
        result is Err ==> final(timer)@ == old(timer)@,
        exists|time: SystemTime|
            {
                let now = #[trigger] clock_ms(time);
                let v = old(timer)@;
                &&& result is Ok <==> v.start <= now + ms <= u64::MAX && v.tick < TICK_MAX
                &&& result matches Ok(result) ==> {
                    &&& timeout_set(v, now + ms, state, result, final(timer)@)
                    &&& result is Ok <==> v.vacant.len() > 0
                    &&& result matches Ok(timeout) ==> {
                        let t = timeout.tick_of();
                        &&& v.tick < t
                        &&& -v.tick_ms < 2 * (v.start + t * v.tick_ms - (now + ms))
                        &&& 2 * (v.start + t * v.tick_ms - (now + ms)) <= v.tick_ms || t == v.tick
                            + 1
                        &&& final(timer)@.pending == v.pending.insert(
                            timeout.token_of(),
                            Pending { tick: t, state },
                        )
                    }
                }
            },
{
    let v = old(timer)@;
    old(timer).lemma_view_wf();
    assert(capped_millis(delay) == ms);
    let time = choose|time: SystemTime|
        {
            let ms = #[trigger] clock_ms(time) + capped_millis(delay);
            match result {
                Ok(result) => {
                    &&& ms <= u64::MAX
                    &&& v.reaches(ms)
                    &&& timeout_set(v, ms, state, result, final(timer)@)
                },
                Err(_) => {
                    &&& ms > u64::MAX || !v.reaches(ms)
                    &&& final(timer)@ == v
                },
            }
        };
    let now = clock_ms(time);
    if v.start <= now + ms <= u64::MAX {
        lemma_rounded_tick_fits(now + ms, v.start as int, v.tick_ms as int);
    }
    if let Ok(result) = result {
        law_timeout_set(v, now + ms, state, result, final(timer)@);
    }
}

/// A timeout fires in time. As long as it is pending, a poll returns none exactly if the tick of
/// nothing that is pending has begun: so not before the beginning of its tick, which is half
/// a tick at most before the point in time that it was set for, and at every poll from then on
/// until it has fired.
pub proof fn law_fires_in_time<T>(
    timer: &mut Timer<T>,
    now: u64,
    state: Option<T>,
    timeout: &Timeout,
)
    requires
        old(timer).wf(),
        old(timer)@.tick_ms > 0,
        old(timer)@.pending.contains_key(timeout.token_of()),
        old(timer)@.pending[timeout.token_of()].tick == timeout.tick_of(),
        call_ensures(Timer::<T>::poll_from, (timer, now), Ok(state)),
    ensures
        now < old(timer)@.start + timeout.tick_of() * old(timer)@.tick_ms ==> {
            &&& final(timer)@.pending.contains_key(timeout.token_of())
            &&& final(timer)@.pending[timeout.token_of()].tick == timeout.tick_of()
        },
        old(timer)@.start + timeout.tick_of() * old(timer)@.tick_ms <= now ==> state is Some,
{
    law_poll_from(timer, now, Ok(state));
}

/// A copy of a name finds what the name finds.
pub proof fn law_copied_name(timeout: &Timeout, copy: Timeout)
    requires
        call_ensures(Timeout::clone, (timeout,), copy),
    ensures
        copy.token_of() == timeout.token_of(),
        copy.tick_of() == timeout.tick_of(),
{
}

/// Whatever has been done with a timer, all else can be done next: a timeout set for a point in
/// time from the start on, unless the timer has come to the last tick, and any timeout
/// cancelled. It can be polled up to any tick but the last, and up to that one if something
/// is pending.
pub proof fn law_callable<T>(
    timer: &mut Timer<T>,
    at: u64,
    delay: Duration,
    state: T,
    timeout: &Timeout,
    target: Tick,
    token: Token,
)
    requires
        old(timer).wf(),
        old(timer)@.tick_ms > 0,
    ensures
        old(timer)@.start <= at && old(timer)@.tick < TICK_MAX ==> call_requires(
            Timer::<T>::set_timeout_at,
            (timer, at, state),
        ),
        call_requires(Timer::<T>::set_timeout_from, (timer, at, delay, state)),
        call_requires(Timer::<T>::set_timeout, (timer, delay, state)),
        call_requires(Timer::<T>::cancel_timeout, (timer, timeout)),
        target < TICK_MAX || old(timer)@.pending.contains_key(token) ==> call_requires(
            Timer::<T>::poll_to,
            (timer, target),
        ),
        call_requires(Timer::<T>::poll_from, (timer, at)),
        call_requires(Timer::<T>::poll, (timer,)),
        call_requires(Timer::<T>::next_tick, (old(timer),)),
{
    let v = old(timer)@;
    if v.start <= at {
        lemma_rounded_tick_fits(at as int, v.start as int, v.tick_ms as int);
    }
}

} // verus!
