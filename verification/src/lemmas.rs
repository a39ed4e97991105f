//! Facts about views that the timer's proofs rest on.
use crate::links::{Tick, Token, MAX_CAPACITY, MAX_SLOTS, SLOT_BYTES, TICK_MAX};
use crate::model::{ceil_pow2, least, lesser, rounded_tick, TimerView};
use vstd::arithmetic::div_mod::{lemma_fundamental_div_mod, lemma_mod_bound};
use vstd::arithmetic::power2::{
    lemma2_to64, lemma2_to64_rest, lemma_pow2_pos, lemma_pow2_unfold, pow2,
};
use vstd::prelude::*;

verus! {

/// A pending entry stands at its place.
pub proof fn lemma_place<T>(v: TimerView<T>, token: Token)
    requires
        v.wf(),
        v.pending.contains_key(token),
    ensures
        v.has(v.slot_of(token), v.place(token)),
        v.lists[v.slot_of(token)][v.place(token)] == token,
{
    assert(v.lists[v.slot_of(token)].contains(token));
}

/// What stands at a place of a slot has that slot and that place.
pub proof fn lemma_at<T>(v: TimerView<T>, slot: int, place: int)
    requires
        v.wf(),
        v.has(slot, place),
    ensures
        v.pending.contains_key(v.lists[slot][place]),
        v.slot_of(v.lists[slot][place]) == slot,
        v.place(v.lists[slot][place]) == place,
{
    let token = v.lists[slot][place];
    lemma_place(v, token);
    assert(v.lists[slot].no_duplicates());
}

/// Setting a timeout keeps the invariant.
pub proof fn lemma_inserted_wf<T>(v: TimerView<T>, tick: Tick, state: T)
    requires
        v.wf(),
        v.tick < tick,
        v.vacant.len() > 0,
    ensures
        v.inserted(tick, state).wf(),
        v.inserted(tick, state).capacity() == v.capacity(),
{
    let w = v.inserted(tick, state);
    let token = v.vacant[0];
    let slot = v.slot(tick as int);
    assert(!v.pending.contains_key(token));
    assert(w.pending.len() == v.pending.len() + 1);
    assert forall|s: int, j: int| #[trigger] w.has(s, j) implies {
        &&& w.pending.contains_key(w.lists[s][j])
        &&& w.slot_of(w.lists[s][j]) == s
        &&& w.tick <= w.pending[w.lists[s][j]].tick
        &&& w.tick == w.pending[w.lists[s][j]].tick ==> w.cursor <= j
        &&& !(s == w.current() && j >= w.cursor) ==> w.hints[s] <= w.pending[w.lists[s][j]].tick
    } by {
        if s == slot {
            if j > 0 {
                assert(v.has(s, j - 1));
                assert(w.lists[s][j] == v.lists[s][j - 1]);
            }
        } else {
            assert(v.has(s, j));
        }
    }
    assert forall|s: int| 0 <= s < w.lists.len() implies #[trigger] w.lists[s].no_duplicates() by {
        assert(v.lists[s].no_duplicates());
        if s == slot {
            assert forall|i: int, j: int|
                0 <= i < w.lists[s].len() && 0 <= j < w.lists[s].len() && i
                    != j implies w.lists[s][i] != w.lists[s][j] by {
                if i > 0 {
                    assert(v.has(s, i - 1));
                }
                if j > 0 {
                    assert(v.has(s, j - 1));
                }
            }
        }
    }
    assert forall|k: Token| #[trigger] w.pending.contains_key(k) implies w.lists[w.slot_of(
        k,
    )].contains(k) by {
        if k == token {
            assert(w.lists[slot][0] == token);
        } else {
            lemma_place(v, k);
            if v.slot_of(k) == slot {
                assert(w.lists[slot][v.place(k) + 1] == k);
            }
        }
    }
}

/// Taking an entry out keeps the invariant.
pub proof fn lemma_without_wf<T>(v: TimerView<T>, token: Token)
    requires
        v.wf(),
        v.pending.contains_key(token),
    ensures
        v.without(token).wf(),
        v.without(token).capacity() == v.capacity(),
{
    let w = v.without(token);
    let slot = v.slot_of(token);
    let place = v.place(token);
    lemma_place(v, token);
    assert(v.lists[slot].no_duplicates());
    assert(w.pending.len() == v.pending.len() - 1);
    assert forall|s: int, j: int| #[trigger] w.has(s, j) implies {
        &&& w.pending.contains_key(w.lists[s][j])
        &&& w.slot_of(w.lists[s][j]) == s
        &&& w.tick <= w.pending[w.lists[s][j]].tick
        &&& w.tick == w.pending[w.lists[s][j]].tick ==> w.cursor <= j
        &&& !(s == w.current() && j >= w.cursor) ==> w.hints[s] <= w.pending[w.lists[s][j]].tick
    } by {
        if s == slot && j >= place {
            assert(v.has(s, j + 1));
            assert(w.lists[s][j] == v.lists[s][j + 1]);
        } else {
            assert(v.has(s, j));
        }
    }
    assert forall|s: int| 0 <= s < w.lists.len() implies #[trigger] w.lists[s].no_duplicates() by {
        assert(v.lists[s].no_duplicates());
    }
    assert forall|k: Token| #[trigger] w.pending.contains_key(k) implies w.lists[w.slot_of(
        k,
    )].contains(k) by {
        lemma_place(v, k);
        let p = v.place(k);
        if v.slot_of(k) == slot {
            if p > place {
                assert(w.lists[slot][p - 1] == k);
            } else {
                assert(w.lists[slot][p] == k);
            }
        }
    }
}

/// The hints while the timer looks through the slot of a tick, when it has come from
/// where it entered the list to some place.
pub open spec fn hints_while<T>(v: TimerView<T>, tick: int, place: int) -> Seq<Tick> {
    let before = v.hints_at(tick);
    let slot = v.slot(tick);
    let from = v.entry_place(tick);
    if place == from {
        before
    } else {
        before.update(slot, v.looked_hint(slot, from, place, before[slot]))
    }
}

/// Hints come and go, but each slot keeps one.
pub proof fn lemma_hints_len<T>(v: TimerView<T>, tick: int)
    requires
        v.shaped(),
    ensures
        v.hints_at(tick).len() == v.hints.len(),
    decreases tick - v.tick,
{
    if tick > v.tick {
        lemma_hints_len(v, tick - 1);
    }
}

/// Looking at one more entry lowers the least tick to that of the entry.
pub proof fn lemma_least_step<T>(v: TimerView<T>, slot: int, from: int, place: int)
    requires
        0 <= from <= place < v.lists[slot].len(),
    ensures
        least(v.ticks(slot, from, place + 1)) == lesser(
            least(v.ticks(slot, from, place)),
            v.pending[v.lists[slot][place]].tick,
        ),
{
    let more = v.ticks(slot, from, place + 1);
    assert(more.drop_last() =~= v.ticks(slot, from, place));
}

/// How looking at an entry that stays changes the hints.
pub proof fn lemma_hints_look<T>(v: TimerView<T>, tick: int, place: int)
    requires
        v.shaped(),
        v.tick <= tick,
        v.entry_place(tick) <= place < v.lists[v.slot(tick)].len(),
    ensures
        ({
            let slot = v.slot(tick);
            let now = hints_while(v, tick, place);
            let hint = if place == 0 {
                TICK_MAX
            } else {
                now[slot]
            };
            hints_while(v, tick, place + 1) == now.update(
                slot,
                lesser(hint, v.pending[v.lists[slot][place]].tick),
            )
        }),
{
    let slot = v.slot(tick);
    let from = v.entry_place(tick);
    let before = v.hints_at(tick);
    lemma_hints_len(v, tick);
    lemma_least_step(v, slot, from, place);
    assert(least(v.ticks(slot, place, place)) == TICK_MAX);
    let now = hints_while(v, tick, place);
    let hint = if place == 0 {
        TICK_MAX
    } else {
        now[slot]
    };
    assert(hints_while(v, tick, place + 1) =~= now.update(
        slot,
        lesser(hint, v.pending[v.lists[slot][place]].tick),
    ));
}

/// The hints when the timer finds an entry that is due.
pub proof fn lemma_hints_fire<T>(v: TimerView<T>, tick: int, place: int)
    requires
        v.shaped(),
        v.tick <= tick,
        v.entry_place(tick) <= place < v.lists[v.slot(tick)].len(),
    ensures
        ({
            let slot = v.slot(tick);
            let before = v.hints_at(tick);
            let now = hints_while(v, tick, place);
            before.update(
                slot,
                v.looked_hint(slot, v.entry_place(tick), place, before[slot]),
            ) == if place == 0 {
                now.update(slot, TICK_MAX)
            } else {
                now
            }
        }),
{
    let slot = v.slot(tick);
    let before = v.hints_at(tick);
    let now = hints_while(v, tick, place);
    lemma_hints_len(v, tick);
    assert(least(v.ticks(slot, place, place)) == TICK_MAX);
    assert(before.update(
        slot,
        v.looked_hint(slot, v.entry_place(tick), place, before[slot]),
    ) =~= if place == 0 {
        now.update(slot, TICK_MAX)
    } else {
        now
    });
}

/// Going on to the next tick keeps the invariant.
pub proof fn lemma_advanced_wf<T>(v: TimerView<T>)
    requires
        v.wf(),
        v.cursor == v.lists[v.current()].len(),
        v.tick < TICK_MAX,
    ensures
        (TimerView { tick: (v.tick + 1) as Tick, cursor: 0, ..v }).wf(),
{
    let w = TimerView { tick: (v.tick + 1) as Tick, cursor: 0, ..v };
    assert forall|s: int, j: int| #[trigger] w.has(s, j) implies {
        &&& w.pending.contains_key(w.lists[s][j])
        &&& w.slot_of(w.lists[s][j]) == s
        &&& w.tick <= w.pending[w.lists[s][j]].tick
        &&& !(s == w.current() && j >= w.cursor) ==> w.hints[s] <= w.pending[w.lists[s][j]].tick
    } by {
        assert(v.has(s, j));
    }
    assert forall|k: Token| #[trigger] w.pending.contains_key(k) implies w.lists[w.slot_of(
        k,
    )].contains(k) by {
        assert(v.pending.contains_key(k));
    }
    assert(w.capacity() == v.capacity());
    assert forall|s: int| 0 <= s < w.lists.len() implies #[trigger] w.lists[s].no_duplicates() by {
        assert(v.lists[s].no_duplicates());
    }
}

/// Another hint for the current slot, and a step of the cursor past an entry that is
/// not due, keep the invariant as long as the hint fits what was looked at.
pub proof fn lemma_rehinted_wf<T>(v: TimerView<T>, hint: Tick, cursor: int)
    requires
        v.wf(),
        v.cursor <= cursor <= v.lists[v.current()].len(),
        forall|j: int|
            v.cursor <= j < cursor ==> v.tick < v.pending[#[trigger] v.lists[v.current()][j]].tick,
        forall|j: int|
            0 <= j < cursor ==> hint <= v.pending[#[trigger] v.lists[v.current()][j]].tick,
    ensures
        (TimerView { hints: v.hints.update(v.current(), hint), cursor, ..v }).wf(),
{
    let w = TimerView { hints: v.hints.update(v.current(), hint), cursor, ..v };
    assert forall|s: int, j: int| #[trigger] w.has(s, j) implies {
        &&& w.pending.contains_key(w.lists[s][j])
        &&& w.slot_of(w.lists[s][j]) == s
        &&& w.tick <= w.pending[w.lists[s][j]].tick
        &&& w.tick == w.pending[w.lists[s][j]].tick ==> w.cursor <= j
        &&& !(s == w.current() && j >= w.cursor) ==> w.hints[s] <= w.pending[w.lists[s][j]].tick
    } by {
        assert(v.has(s, j));
        if s == v.current() {
            assert(v.lists[v.current()][j] == w.lists[s][j]);
        }
    }
    assert forall|k: Token| #[trigger] w.pending.contains_key(k) implies w.lists[w.slot_of(
        k,
    )].contains(k) by {
        assert(v.pending.contains_key(k));
    }
    assert(w.capacity() == v.capacity());
    assert forall|s: int| 0 <= s < w.lists.len() implies #[trigger] w.lists[s].no_duplicates() by {
        assert(v.lists[s].no_duplicates());
    }
}

/// A timer that has looked through the last slot of its time has nothing due.
pub proof fn lemma_last_tick<T>(v: TimerView<T>, target: Tick)
    requires
        v.wf(),
        v.cursor == v.lists[v.current()].len(),
        target < TICK_MAX || v.any_due(target),
        v.tick <= target,
    ensures
        v.tick < TICK_MAX,
{
    if v.tick == TICK_MAX {
        let k = choose|k: Token| #[trigger]
            v.pending.contains_key(k) && v.pending[k].tick <= target;
        lemma_place(v, k);
    }
}

/// The entry at the cursor, if it is due, is next to fire. Going to its tick has
/// changed neither the lists nor what is pending.
pub proof fn lemma_next_to_fire<T>(v: TimerView<T>, u: TimerView<T>, token: Token)
    requires
        u.wf(),
        u.lists == v.lists,
        u.pending == v.pending,
        u.has(u.current(), u.cursor),
        token == u.lists[u.current()][u.cursor],
        u.pending[token].tick <= u.tick,
    ensures
        v.next_to_fire(token),
        v.pending[token].tick == u.tick,
        v.slot_of(token) == u.current(),
        v.place(token) == u.cursor,
{
    lemma_at(u, u.current(), u.cursor);
    assert forall|k: Token| #[trigger] v.pending.contains_key(k) implies {
        &&& v.pending[token].tick <= v.pending[k].tick
        &&& v.pending[token].tick == v.pending[k].tick ==> v.place(token) <= v.place(k)
    } by {
        lemma_place(u, k);
    }
}

/// `ceil_pow2` is a power of two, and the least that is not less than its argument.
pub proof fn lemma_ceil_pow2(n: nat)
    ensures
        exists|e: nat| ceil_pow2(n) == #[trigger] pow2(e),
        n <= ceil_pow2(n),
        forall|e: nat| n <= #[trigger] pow2(e) ==> ceil_pow2(n) <= pow2(e),
    decreases n,
{
    lemma2_to64();
    if n <= 1 {
        assert(ceil_pow2(n) == pow2(0));
        assert forall|e: nat| n <= #[trigger] pow2(e) implies ceil_pow2(n) <= pow2(e) by {
            lemma_pow2_pos(e);
        }
    } else {
        let half = (n + 1) / 2;
        lemma_ceil_pow2(half);
        let e = choose|e: nat| ceil_pow2(half) == #[trigger] pow2(e);
        lemma_pow2_unfold(e + 1);
        assert(ceil_pow2(n) == pow2(e + 1));
        assert forall|e: nat| n <= #[trigger] pow2(e) implies ceil_pow2(n) <= pow2(e) by {
            if e > 0 {
                lemma_pow2_unfold(e);
                assert(half <= pow2((e - 1) as nat));
            }
        }
    }
}

/// Rounding up to a power of two stays within the limit for slots, and the limit for
/// timeouts keeps the slab within what can be allocated.
pub proof fn lemma_limits(n: nat)
    ensures
        n <= MAX_SLOTS ==> ceil_pow2(n) <= MAX_SLOTS,
        MAX_CAPACITY * SLOT_BYTES <= isize::MAX,
{
    lemma_ceil_pow2(n);
    lemma2_to64();
    lemma2_to64_rest();
    assert(usize::MAX == 0xffff_ffff || usize::MAX == 0xffff_ffff_ffff_ffff);
    assert(MAX_SLOTS == pow2(31) || MAX_SLOTS == pow2(63));
}

/// Rounding to a tick does not go beyond the last one.
pub proof fn lemma_rounded_tick_fits(ms: int, start: int, tick_ms: int)
    requires
        0 <= start <= ms <= u64::MAX,
        tick_ms > 0,
    ensures
        0 <= rounded_tick(ms, start, tick_ms) <= TICK_MAX,
{
    let d = ms - start;
    lemma_fundamental_div_mod(d, tick_ms);
    lemma_mod_bound(d, tick_ms);
    let q = d / tick_ms;
    let r = d % tick_ms;
    assert(q >= 0 && (2 * r >= tick_ms ==> q + 1 <= d) && q <= d) by (nonlinear_arith)
        requires
            d >= 0,
            tick_ms > 0,
            d == tick_ms * q + r,
            0 <= r < tick_ms,
    ;
}

/// A new timer is in order.
pub proof fn lemma_fresh_wf<T>(tick_ms: u64, slots: nat, capacity: nat, start: u64)
    requires
        exists|e: nat| slots == #[trigger] pow2(e),
        slots > 0,
        capacity < usize::MAX,
    ensures
        TimerView::<T>::fresh(tick_ms, slots, capacity, start).wf(),
        TimerView::<T>::fresh(tick_ms, slots, capacity, start).capacity() == capacity,
{
    let v = TimerView::<T>::fresh(tick_ms, slots, capacity, start);
    assert forall|s: int| 0 <= s < v.lists.len() implies #[trigger] v.lists[s].no_duplicates() by {
        assert(v.lists[s] == Seq::<Token>::empty());
    }
    assert(v.vacant.no_duplicates());
    assert(v.lists[0] == Seq::<Token>::empty());
}

/// Where an entry stands after another has been taken out.
pub proof fn lemma_place_without<T>(v: TimerView<T>, token: Token, other: Token)
    requires
        v.wf(),
        v.pending.contains_key(token),
        v.pending.contains_key(other),
        other != token,
    ensures
        v.without(token).place(other) == (if v.slot_of(other) == v.slot_of(token) && v.place(token)
            < v.place(other) {
            v.place(other) - 1
        } else {
            v.place(other)
        }),
{
    let w = v.without(token);
    let slot = v.slot_of(other);
    lemma_without_wf(v, token);
    lemma_place(v, token);
    lemma_place(v, other);
    let place = if slot == v.slot_of(token) && v.place(token) < v.place(other) {
        v.place(other) - 1
    } else {
        v.place(other)
    };
    assert(w.lists[slot][place] == other);
    lemma_at(w, slot, place);
}

/// Where an entry stands after another has been put in.
pub proof fn lemma_place_inserted<T>(v: TimerView<T>, tick: Tick, state: T, other: Token)
    requires
        v.wf(),
        v.tick < tick,
        v.vacant.len() > 0,
        v.inserted(tick, state).pending.contains_key(other),
    ensures
        v.inserted(tick, state).place(other) == (if other == v.vacant[0] {
            0
        } else if v.slot_of(other) == v.slot(tick as int) {
            v.place(other) + 1
        } else {
            v.place(other)
        }),
        other != v.vacant[0] ==> v.pending.contains_key(other) && v.place(other) >= 0,
{
    let w = v.inserted(tick, state);
    lemma_inserted_wf(v, tick, state);
    assert(!v.pending.contains_key(v.vacant[0]));
    if other == v.vacant[0] {
        assert(w.lists[v.slot(tick as int)][0] == other);
        lemma_at(w, v.slot(tick as int), 0);
    } else {
        lemma_place(v, other);
        let slot = v.slot_of(other);
        let place = if slot == v.slot(tick as int) {
            v.place(other) + 1
        } else {
            v.place(other)
        };
        assert(w.lists[slot][place] == other);
        lemma_at(w, slot, place);
    }
}

} // verus!
