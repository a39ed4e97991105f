//! What fires when a timer is polled until nothing is due.
use crate::laws::{
    due, law_catching_up, law_each_due_fires_once, law_fired_wf, law_next_to_fire_is_one,
    law_next_to_fire_is_there, law_swept_wf,
};
use crate::lemmas::{
    lemma_place, lemma_place_inserted, lemma_place_without, lemma_without_wf,
};
use crate::links::{Tick, Token, TICK_MAX};
use crate::model::TimerView;
use vstd::prelude::*;

verus! {

/// The timeout that is next to fire.
pub open spec fn next_token<T>(v: TimerView<T>) -> Token {
    choose|k: Token| v.next_to_fire(k)
}

/// The timeouts that fire when a timer is polled up to a tick until nothing is due, in the
/// order in which they do.
pub open spec fn firing_order<T>(v: TimerView<T>, target: Tick) -> Seq<Token>
    decreases due(v, target).len(),
{
    if v.wf() && v.any_due(target) {
        proof {
            lemma_next_token(v, target);
        }
        seq![next_token(v)] + firing_order(v.fired(next_token(v)), target)
    } else {
        Seq::empty()
    }
}

/// The timer when it has been polled up to a tick until nothing is due.
pub open spec fn drained<T>(v: TimerView<T>, target: Tick) -> TimerView<T>
    decreases due(v, target).len(),
{
    if v.wf() && v.any_due(target) {
        proof {
            lemma_next_token(v, target);
        }
        drained(v.fired(next_token(v)), target)
    } else {
        v.swept(target)
    }
}

/// While something is due, the next timeout is, and firing it leaves one less.
pub proof fn lemma_next_token<T>(v: TimerView<T>, target: Tick)
    requires
        v.wf(),
        v.any_due(target),
    ensures
        v.next_to_fire(next_token(v)),
        v.pending[next_token(v)].tick <= target,
        v.fired(next_token(v)).wf(),
        due(v.fired(next_token(v)), target).len() < due(v, target).len(),
{
    let k = choose|k: Token| #[trigger] v.pending.contains_key(k) && v.pending[k].tick <= target;
    law_next_to_fire_is_there(v, k);
    law_fired_wf(v, next_token(v));
    law_each_due_fires_once(v, next_token(v), target);
}

/// What fires is what is due, each once, in the order of the ticks.
pub proof fn law_drain_fires_what_is_due<T>(v: TimerView<T>, target: Tick)
    requires
        v.wf(),
    ensures
        forall|k: Token| #[trigger]
            firing_order(v, target).contains(k) <==> due(v, target).contains(k),
        firing_order(v, target).no_duplicates(),
        forall|i: int, j: int|
            0 <= i < j < firing_order(v, target).len() ==> v.pending[#[trigger] firing_order(
                v,
                target,
            )[i]].tick <= v.pending[#[trigger] firing_order(v, target)[j]].tick,
    decreases due(v, target).len(),
{
    let order = firing_order(v, target);
    if v.any_due(target) {
        let token = next_token(v);
        let w = v.fired(token);
        let rest = firing_order(w, target);
        lemma_next_token(v, target);
        law_each_due_fires_once(v, token, target);
        law_drain_fires_what_is_due(w, target);
        assert(order == seq![token] + rest);
        assert forall|k: Token| #[trigger] order.contains(k) <==> due(v, target).contains(k) by {
            if k == token {
                assert(order[0] == k);
            } else {
                if rest.contains(k) {
                    let i = choose|i: int| 0 <= i < rest.len() && rest[i] == k;
                    assert(order[i + 1] == k);
                }
                if order.contains(k) {
                    let i = choose|i: int| 0 <= i < order.len() && order[i] == k;
                    assert(rest[i - 1] == k);
                }
                assert(rest.contains(k) <==> due(w, target).contains(k));
            }
        }
        assert forall|i: int, j: int| 0 <= i < j < order.len() implies v.pending[
            #[trigger] order[i]
        ].tick <= v.pending[#[trigger] order[j]].tick && order[i] != order[j] by {
            assert(rest.contains(rest[j - 1]));
            assert(due(w, target).contains(rest[j - 1]));
            assert(v.pending.contains_key(order[j]));
            if i > 0 {
                assert(rest.contains(rest[i - 1]));
                assert(due(w, target).contains(rest[i - 1]));
            }
        }
    } else {
        assert(due(v, target) =~= Set::empty());
    }
}

/// After draining, nothing is due, and the timer is in order.
pub proof fn law_drained_wf<T>(v: TimerView<T>, target: Tick)
    requires
        v.wf(),
        target < TICK_MAX,
    ensures
        drained(v, target).wf(),
        !drained(v, target).any_due(target),
    decreases due(v, target).len(),
{
    if v.any_due(target) {
        lemma_next_token(v, target);
        law_drained_wf(v.fired(next_token(v)), target);
    } else {
        law_swept_wf(v, target);
    }
}

/// Draining in two goes comes to the same as draining in one.
pub proof fn law_drain_in_two_goes<T>(v: TimerView<T>, target: Tick, later: Tick)
    requires
        v.wf(),
        target <= later < TICK_MAX,
    ensures
        firing_order(v, later) == firing_order(v, target) + firing_order(
            drained(v, target),
            later,
        ),
        drained(v, later) == drained(drained(v, target), later),
    decreases due(v, target).len(),
{
    if v.any_due(target) {
        let token = next_token(v);
        lemma_next_token(v, target);
        law_drain_in_two_goes(v.fired(token), target, later);
        assert(v.any_due(later));
        assert(firing_order(v, later) =~= firing_order(v, target) + firing_order(
            drained(v, target),
            later,
        ));
    } else {
        let w = v.swept(target);
        law_swept_wf(v, target);
        law_catching_up(v, target, later, next_token(v));
        law_catching_up(v, target, later, next_token(w));
        if v.any_due(later) {
            lemma_next_token(v, later);
            lemma_next_token(w, later);
            law_next_to_fire_is_one(v, next_token(v), next_token(w));
        }
        assert(firing_order(v, later) =~= Seq::<Token>::empty() + firing_order(w, later));
    }
}

/// What is pending in one timer is pending in the other, for the same tick and with the same
/// state, and entries for one tick stand in the same order.
pub open spec fn within<T>(w: TimerView<T>, v: TimerView<T>) -> bool {
    &&& forall|k: Token| #[trigger]
        w.pending.contains_key(k) ==> v.pending.contains_key(k) && w.pending[k] == v.pending[k]
    &&& forall|a: Token, b: Token|
        #![trigger w.pending.contains_key(a), w.pending.contains_key(b)]
        w.pending.contains_key(a) && w.pending.contains_key(b) && w.pending[a].tick
            == w.pending[b].tick ==> (w.place(a) <= w.place(b) <==> v.place(a) <= v.place(b))
}

/// Taking an entry out changes the order of no others.
proof fn lemma_within_without<T>(v: TimerView<T>, token: Token)
    requires
        v.wf(),
        v.pending.contains_key(token),
    ensures
        within(v.without(token), v),
{
    let w = v.without(token);
    assert forall|a: Token, b: Token|
        #![trigger w.pending.contains_key(a), w.pending.contains_key(b)]
        w.pending.contains_key(a) && w.pending.contains_key(b) && w.pending[a].tick
            == w.pending[b].tick implies (w.place(a) <= w.place(b) <==> v.place(a) <= v.place(
        b,
    )) by {
        lemma_place(v, token);
        lemma_place(v, a);
        lemma_place(v, b);
        lemma_place_without(v, token, a);
        lemma_place_without(v, token, b);
    }
}

/// Of two timers that fire the same entry, or of which only the larger has it to fire, one
/// stays within the other.
proof fn lemma_within_fired<T>(w: TimerView<T>, v: TimerView<T>, token: Token)
    requires
        w.wf(),
        v.wf(),
        within(w, v),
        v.pending.contains_key(token),
    ensures
        !w.pending.contains_key(token) ==> within(w, v.fired(token)),
        w.pending.contains_key(token) ==> within(w.fired(token), v.fired(token)),
{
    let after = v.fired(token);
    let x = if w.pending.contains_key(token) {
        w.fired(token)
    } else {
        w
    };
    lemma_within_without(v, token);
    if w.pending.contains_key(token) {
        lemma_within_without(w, token);
    }
    assert forall|k: Token| #[trigger] x.pending.contains_key(k) implies after.pending.contains_key(
        k,
    ) && x.pending[k] == after.pending[k] by {
        assert(w.pending.contains_key(k));
    }
    assert forall|a: Token, b: Token|
        #![trigger x.pending.contains_key(a), x.pending.contains_key(b)]
        x.pending.contains_key(a) && x.pending.contains_key(b) && x.pending[a].tick
            == x.pending[b].tick implies (x.place(a) <= x.place(b) <==> after.place(a)
        <= after.place(b)) by {
        assert(w.pending.contains_key(a) && w.pending.contains_key(b));
        assert(v.without(token).pending.contains_key(a));
        assert(v.without(token).pending.contains_key(b));
        assert(after.place(a) == v.without(token).place(a));
        assert(after.place(b) == v.without(token).place(b));
        if w.pending.contains_key(token) {
            assert(w.without(token).pending.contains_key(a));
            assert(w.without(token).pending.contains_key(b));
            assert(x.place(a) == w.without(token).place(a));
            assert(x.place(b) == w.without(token).place(b));
        }
    }
}

/// Two conditions that agree on a sequence keep the same of it.
proof fn lemma_filters_agree(s: Seq<Token>, p: spec_fn(Token) -> bool, q: spec_fn(Token) -> bool)
    requires
        forall|i: int| 0 <= i < s.len() ==> p(#[trigger] s[i]) == q(s[i]),
    ensures
        s.filter(p) == s.filter(q),
    decreases s.len(),
{
    reveal(Seq::filter);
    if s.len() > 0 {
        lemma_filters_agree(s.drop_last(), p, q);
    }
}

/// What fires in a timer within another is what fires in the other, without what is not
/// pending in the first.
proof fn lemma_within_order<T>(w: TimerView<T>, v: TimerView<T>, target: Tick)
    requires
        w.wf(),
        v.wf(),
        within(w, v),
    ensures
        firing_order(w, target) == firing_order(v, target).filter(
            |k: Token| w.pending.contains_key(k),
        ),
    decreases due(v, target).len(),
{
    reveal(Seq::filter);
    let keep = |k: Token| w.pending.contains_key(k);
    if v.any_due(target) {
        let token = next_token(v);
        let after = v.fired(token);
        lemma_next_token(v, target);
        lemma_within_fired(w, v, token);
        let rest = firing_order(after, target);
        Seq::filter_distributes_over_add(seq![token], rest, keep);
        assert(seq![token].drop_last() =~= Seq::<Token>::empty());
        assert(Seq::<Token>::empty().filter(keep) =~= Seq::<Token>::empty());
        assert(seq![token].last() == token);
        if w.pending.contains_key(token) {
            let x = w.fired(token);
            assert(w.next_to_fire(token)) by {
                assert forall|k: Token| #[trigger] w.pending.contains_key(k) implies {
                    &&& w.pending[token].tick <= w.pending[k].tick
                    &&& w.pending[token].tick == w.pending[k].tick ==> w.place(token) <= w.place(k)
                } by {
                    assert(v.pending.contains_key(k));
                }
            }
            assert(w.any_due(target));
            lemma_next_token(w, target);
            law_next_to_fire_is_one(w, token, next_token(w));
            lemma_within_order(x, after, target);
            law_drain_fires_what_is_due(after, target);
            assert forall|i: int| 0 <= i < rest.len() implies keep(#[trigger] rest[i])
                == x.pending.contains_key(rest[i]) by {
                assert(rest.contains(rest[i]));
                assert(due(after, target).contains(rest[i]));
            }
            lemma_filters_agree(rest, |k: Token| x.pending.contains_key(k), keep);
            assert(seq![token].filter(keep) =~= seq![token]);
        } else {
            lemma_within_order(w, after, target);
            assert(seq![token].filter(keep) =~= Seq::<Token>::empty());
            assert(Seq::<Token>::empty() + rest.filter(keep) =~= rest.filter(keep));
        }
    } else {
        assert(!w.any_due(target)) by {
            if w.any_due(target) {
                let k = choose|k: Token| #[trigger]
                    w.pending.contains_key(k) && w.pending[k].tick <= target;
                assert(v.pending.contains_key(k));
            }
        }
        assert(firing_order(v, target) =~= Seq::empty());
    }
}

/// Cancelling a timeout takes just that one out of what fires.
pub proof fn law_drain_after_cancel<T>(v: TimerView<T>, token: Token, target: Tick)
    requires
        v.wf(),
        v.pending.contains_key(token),
    ensures
        firing_order(v.without(token), target) == firing_order(v, target).filter(
            |k: Token| k != token,
        ),
{
    let w = v.without(token);
    let order = firing_order(v, target);
    lemma_without_wf(v, token);
    lemma_within_without(v, token);
    lemma_within_order(w, v, target);
    law_drain_fires_what_is_due(v, target);
    assert forall|i: int| 0 <= i < order.len() implies w.pending.contains_key(#[trigger] order[i])
        == (order[i] != token) by {
        assert(order.contains(order[i]));
        assert(due(v, target).contains(order[i]));
    }
    lemma_filters_agree(order, |k: Token| w.pending.contains_key(k), |k: Token| k != token);
}

/// Two timers that differ in nothing but their wheels: in the number of slots, in the lists
/// that this puts the entries in, and in what is known of the slots.
pub open spec fn alike<T>(v: TimerView<T>, w: TimerView<T>) -> bool {
    &&& v.tick_ms == w.tick_ms
    &&& v.start == w.start
    &&& v.tick == w.tick
    &&& v.pending == w.pending
    &&& v.vacant == w.vacant
    &&& within(v, w)
}

/// The number of slots makes no difference to a new timer.
pub proof fn law_slots_new<T>(tick_ms: u64, slots1: nat, slots2: nat, capacity: nat, start: u64)
    ensures
        alike(
            TimerView::<T>::fresh(tick_ms, slots1, capacity, start),
            TimerView::<T>::fresh(tick_ms, slots2, capacity, start),
        ),
{
}

/// The number of slots makes no difference to setting a timeout: it is set for the same tick
/// and under the same token, or refused.
pub proof fn law_slots_set<T>(v: TimerView<T>, w: TimerView<T>, ms: int, tick: Tick, state: T)
    requires
        v.wf(),
        w.wf(),
        alike(v, w),
        v.tick < tick,
    ensures
        v.reaches(ms) == w.reaches(ms),
        v.target_tick(ms) == w.target_tick(ms),
        v.vacant.len() > 0 ==> alike(v.inserted(tick, state), w.inserted(tick, state)),
{
    if v.vacant.len() > 0 {
        let x = v.inserted(tick, state);
        let y = w.inserted(tick, state);
        assert forall|a: Token, b: Token|
            #![trigger x.pending.contains_key(a), x.pending.contains_key(b)]
            x.pending.contains_key(a) && x.pending.contains_key(b) && x.pending[a].tick
                == x.pending[b].tick implies (x.place(a) <= x.place(b) <==> y.place(a)
            <= y.place(b)) by {
            lemma_place_inserted(v, tick, state, a);
            lemma_place_inserted(v, tick, state, b);
            lemma_place_inserted(w, tick, state, a);
            lemma_place_inserted(w, tick, state, b);
        }
    }
}

/// The number of slots makes no difference to cancelling.
pub proof fn law_slots_cancel<T>(v: TimerView<T>, w: TimerView<T>, token: Token, tick: Tick)
    requires
        v.wf(),
        w.wf(),
        alike(v, w),
    ensures
        v.names_pending(token, tick) == w.names_pending(token, tick),
        v.pending.contains_key(token) ==> alike(v.without(token), w.without(token)),
{
    if v.pending.contains_key(token) {
        let x = v.without(token);
        let y = w.without(token);
        lemma_within_without(v, token);
        lemma_within_without(w, token);
        assert forall|a: Token, b: Token|
            #![trigger x.pending.contains_key(a), x.pending.contains_key(b)]
            x.pending.contains_key(a) && x.pending.contains_key(b) && x.pending[a].tick
                == x.pending[b].tick implies (x.place(a) <= x.place(b) <==> y.place(a)
            <= y.place(b)) by {
            assert(v.pending.contains_key(a) && v.pending.contains_key(b));
            assert(y.pending.contains_key(a) && y.pending.contains_key(b));
        }
    }
}

/// The number of slots makes no difference to a poll: the same timeout fires, or none.
pub proof fn law_slots_poll<T>(v: TimerView<T>, w: TimerView<T>, target: Tick, token: Token)
    requires
        v.wf(),
        w.wf(),
        alike(v, w),
    ensures
        v.any_due(target) == w.any_due(target),
        v.next_to_fire(token) == w.next_to_fire(token),
        v.next_to_fire(token) ==> alike(v.fired(token), w.fired(token)),
        alike(v.swept(target), w.swept(target)),
{
    let (a, b) = (v.swept(target), w.swept(target));
    assert forall|k: Token| a.place(k) == v.place(k) && b.place(k) == w.place(k) by {
    }
    if v.pending.contains_key(token) {
        assert forall|k: Token| v.pending.contains_key(k) implies (v.place(token) <= v.place(k)
            <==> w.place(token) <= w.place(k)) || v.pending[token].tick != v.pending[k].tick by {
        }
        lemma_within_fired(v, w, token);
    }
}

/// The number of slots makes no difference to what fires, nor to its order.
pub proof fn law_slots_drain<T>(v: TimerView<T>, w: TimerView<T>, target: Tick)
    requires
        v.wf(),
        w.wf(),
        alike(v, w),
    ensures
        firing_order(v, target) == firing_order(w, target),
    decreases due(v, target).len(),
{
    if v.any_due(target) {
        let token = next_token(v);
        law_slots_poll(v, w, target, token);
        lemma_next_token(v, target);
        lemma_next_token(w, target);
        law_next_to_fire_is_one(w, token, next_token(w));
        law_slots_drain(v.fired(token), w.fired(token), target);
    } else {
        law_slots_poll(v, w, target, 0);
    }
}

} // verus!
