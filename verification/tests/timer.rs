use mio_timer::{Timer, TimerErrorKind};

const TICK: u64 = 100;
const SLOTS: usize = 16;
const CAPACITY: usize = 32;

fn count<T>(timer: &Timer<T>) -> usize {
    timer.count()
}

fn timer() -> Timer<&'static str> {
    Timer::new(TICK, SLOTS, CAPACITY, 0)
}

#[test]
pub fn test_timeout_next_tick() {
    let mut t = timer();
    let mut tick;

    t.set_timeout_at(100, "a").unwrap();

    tick = t.ms_to_tick(50);
    assert_eq!(None, t.poll_to(tick));

    tick = t.ms_to_tick(100);
    assert_eq!(Some("a"), t.poll_to(tick));
    assert_eq!(None, t.poll_to(tick));

    tick = t.ms_to_tick(150);
    assert_eq!(None, t.poll_to(tick));

    tick = t.ms_to_tick(200);
    assert_eq!(None, t.poll_to(tick));

    assert_eq!(count(&t), 0);
}

#[test]
pub fn test_clearing_timeout() {
    let mut t = timer();
    let mut tick;

    let to = t.set_timeout_at(100, "a").unwrap();
    assert_eq!("a", t.cancel_timeout(&to).unwrap());

    tick = t.ms_to_tick(100);
    assert_eq!(None, t.poll_to(tick));

    tick = t.ms_to_tick(200);
    assert_eq!(None, t.poll_to(tick));

    assert_eq!(count(&t), 0);
}

#[test]
pub fn test_multiple_timeouts_same_tick() {
    let mut t = timer();
    let mut tick;

    t.set_timeout_at(100, "a").unwrap();
    t.set_timeout_at(100, "b").unwrap();

    let mut rcv = vec![];

    tick = t.ms_to_tick(100);
    rcv.push(t.poll_to(tick).unwrap());
    rcv.push(t.poll_to(tick).unwrap());

    assert_eq!(None, t.poll_to(tick));

    rcv.sort();
    assert!(rcv == ["a", "b"], "actual={:?}", rcv);

    tick = t.ms_to_tick(200);
    assert_eq!(None, t.poll_to(tick));

    assert_eq!(count(&t), 0);
}

#[test]
pub fn test_multiple_timeouts_diff_tick() {
    let mut t = timer();
    let mut tick;

    t.set_timeout_at(110, "a").unwrap();
    t.set_timeout_at(220, "b").unwrap();
    t.set_timeout_at(230, "c").unwrap();
    t.set_timeout_at(440, "d").unwrap();
    t.set_timeout_at(560, "e").unwrap();

    tick = t.ms_to_tick(100);
    assert_eq!(Some("a"), t.poll_to(tick));
    assert_eq!(None, t.poll_to(tick));

    tick = t.ms_to_tick(200);
    assert_eq!(Some("c"), t.poll_to(tick));
    assert_eq!(Some("b"), t.poll_to(tick));
    assert_eq!(None, t.poll_to(tick));

    tick = t.ms_to_tick(300);
    assert_eq!(None, t.poll_to(tick));

    tick = t.ms_to_tick(400);
    assert_eq!(Some("d"), t.poll_to(tick));
    assert_eq!(None, t.poll_to(tick));

    tick = t.ms_to_tick(500);
    assert_eq!(None, t.poll_to(tick));

    tick = t.ms_to_tick(600);
    assert_eq!(Some("e"), t.poll_to(tick));
    assert_eq!(None, t.poll_to(tick));
}

#[test]
pub fn test_catching_up() {
    let mut t = timer();

    t.set_timeout_at(110, "a").unwrap();
    t.set_timeout_at(220, "b").unwrap();
    t.set_timeout_at(230, "c").unwrap();
    t.set_timeout_at(440, "d").unwrap();

    let tick = t.ms_to_tick(600);
    assert_eq!(Some("a"), t.poll_to(tick));
    assert_eq!(Some("c"), t.poll_to(tick));
    assert_eq!(Some("b"), t.poll_to(tick));
    assert_eq!(Some("d"), t.poll_to(tick));
    assert_eq!(None, t.poll_to(tick));
}

#[test]
pub fn test_timeout_hash_collision() {
    let mut t = timer();
    let mut tick;

    t.set_timeout_at(100, "a").unwrap();
    t.set_timeout_at(100 + TICK * SLOTS as u64, "b").unwrap();

    tick = t.ms_to_tick(100);
    assert_eq!(Some("a"), t.poll_to(tick));
    assert_eq!(1, count(&t));

    tick = t.ms_to_tick(200);
    assert_eq!(None, t.poll_to(tick));
    assert_eq!(1, count(&t));

    tick = t.ms_to_tick(100 + TICK * SLOTS as u64);
    assert_eq!(Some("b"), t.poll_to(tick));
    assert_eq!(0, count(&t));
}

#[test]
pub fn test_clearing_timeout_between_triggers() {
    let mut t = timer();
    let mut tick;

    let a = t.set_timeout_at(100, "a").unwrap();
    let _ = t.set_timeout_at(100, "b").unwrap();
    let _ = t.set_timeout_at(200, "c").unwrap();

    tick = t.ms_to_tick(100);
    assert_eq!(Some("b"), t.poll_to(tick));
    assert_eq!(2, count(&t));

    t.cancel_timeout(&a);
    assert_eq!(1, count(&t));

    assert_eq!(None, t.poll_to(tick));

    tick = t.ms_to_tick(200);
    assert_eq!(Some("c"), t.poll_to(tick));
    assert_eq!(0, count(&t));
}

#[test]
fn too_many_timeouts_are_refused() {
    let mut t: Timer<u32> = Timer::new(TICK, SLOTS, 3, 0);
    for i in 0..3 {
        t.set_timeout_at(100 * i, i as u32).unwrap();
    }
    let error = t.set_timeout_at(100, 9).unwrap_err();
    assert_eq!(error.description(), "too many timer entries");
    assert_eq!(error.to_string(), "TimerOverflow: too many timer entries");
    assert_eq!(TimerErrorKind::TimerOverflow.to_string(), "TimerOverflow");
    assert_eq!(t.count(), 3);

    // Room again once one has fired
    assert!(t.poll_to(1).is_some());
    assert_eq!(t.count(), 2);
    t.set_timeout_at(100, 9).unwrap();
    assert_eq!(t.count(), 3);
    assert!(t.set_timeout_at(100, 10).is_err());
}

#[test]
fn a_timer_may_hold_no_timeouts() {
    let mut t: Timer<u32> = Timer::new(TICK, SLOTS, 0, 0);
    assert!(t.set_timeout_at(100, 1).is_err());
    assert_eq!(t.poll_to(5), None);
    assert_eq!(t.next_tick(), Some(u64::MAX));
}

#[test]
fn timeouts_are_rounded_to_the_closest_tick() {
    // The later of two that are equally close
    let mut t: Timer<u32> = Timer::new(100, 16, 32, 1000);
    t.set_timeout_at(1349, 3).unwrap();
    t.set_timeout_at(1350, 4).unwrap();
    assert_eq!(None, t.poll_to(2));
    assert_eq!(Some(3), t.poll_to(3));
    assert_eq!(None, t.poll_to(3));
    assert_eq!(Some(4), t.poll_to(4));

    // Ticks of an odd length
    let mut t: Timer<&str> = Timer::new(3, 16, 32, 0);
    t.set_timeout_at(4, "a").unwrap();
    assert_eq!(t.next_tick(), Some(1));
    t.set_timeout_at(5, "b").unwrap();
    assert_eq!(Some("a"), t.poll_to(1));
    assert_eq!(t.next_tick(), Some(2));

    // Every millisecond is a tick
    let mut t: Timer<&str> = Timer::new(1, 16, 32, 0);
    t.set_timeout_at(5, "a").unwrap();
    assert_eq!(t.next_tick(), Some(5));
    assert_eq!(None, t.poll_to(4));
    assert_eq!(Some("a"), t.poll_to(5));
}

#[test]
fn timeouts_are_set_at_least_one_tick_ahead() {
    let mut t = timer();
    assert_eq!(None, t.poll_to(9));
    t.set_timeout_at(0, "late").unwrap();
    // The timer stands at the tick after the one polled to
    assert_eq!(None, t.poll_to(10));
    assert_eq!(Some("late"), t.poll_to(11));
}

#[test]
fn ticks_are_rounded_down() {
    let t: Timer<u32> = Timer::new(100, 16, 32, 1000);
    assert_eq!(t.ms_to_tick(1000), 0);
    assert_eq!(t.ms_to_tick(1099), 0);
    assert_eq!(t.ms_to_tick(1100), 1);
    assert_eq!(t.tick_ms(), 100);
    assert_eq!(t.start(), 1000);
}

#[test]
fn reach_of_a_timer() {
    let t: Timer<u32> = Timer::new(100, 16, 32, 1000);
    assert!(!t.reaches(999));
    assert!(t.reaches(1000));
    assert!(t.reaches(u64::MAX));
    let t: Timer<u32> = Timer::new(1, 16, 32, 0);
    assert!(t.reaches(u64::MAX));
}

#[test]
fn a_timeout_is_cancelled_once() {
    let mut t = timer();
    let a = t.set_timeout_at(100, "a").unwrap();
    let b = t.set_timeout_at(300, "b").unwrap();
    let again = a.clone();
    assert_eq!(Some("a"), t.cancel_timeout(&a));
    assert_eq!(None, t.cancel_timeout(&again));

    // The token of the first is in use again, for another tick
    t.set_timeout_at(200, "c").unwrap();
    assert_eq!(None, t.cancel_timeout(&a));
    assert_eq!(2, t.count());

    assert_eq!(Some("c"), t.poll_to(3));
    assert_eq!(Some("b"), t.poll_to(3));
    assert_eq!(None, t.cancel_timeout(&b));
}

#[test]
fn a_timeout_of_a_larger_timer_is_not_found() {
    let mut large = timer();
    let mut last = large.set_timeout_at(100, "x").unwrap();
    for _ in 0..20 {
        last = large.set_timeout_at(100, "x").unwrap();
    }
    let mut small: Timer<&str> = Timer::new(TICK, SLOTS, 4, 0);
    small.set_timeout_at(100, "a").unwrap();
    assert_eq!(None, small.cancel_timeout(&last));
    assert_eq!(1, small.count());
}

#[test]
fn setting_and_cancelling_leaves_the_rest_alone() {
    let mut t = timer();
    let mut names = vec![];
    for i in 0..5 {
        names.push(t.set_timeout_at(100, ["a", "b", "c", "d", "e"][i]).unwrap());
    }
    // From the middle, the front and the end of the list
    assert_eq!(Some("c"), t.cancel_timeout(&names[2]));
    assert_eq!(Some("e"), t.cancel_timeout(&names[4]));
    assert_eq!(Some("a"), t.cancel_timeout(&names[0]));
    assert_eq!(Some("d"), t.poll_to(1));
    assert_eq!(Some("b"), t.poll_to(1));
    assert_eq!(None, t.poll_to(1));
}

#[test]
fn cancelling_what_is_next_moves_on() {
    let mut t = timer();
    let a = t.set_timeout_at(100, "a").unwrap();
    t.set_timeout_at(100, "b").unwrap();
    let c = t.set_timeout_at(100, "c").unwrap();
    t.set_timeout_at(100, "d").unwrap();
    assert_eq!(Some("d"), t.poll_to(1));
    assert_eq!(Some("c"), t.cancel_timeout(&c));
    assert_eq!(Some("b"), t.poll_to(1));
    assert_eq!(Some("a"), t.cancel_timeout(&a));
    assert_eq!(None, t.poll_to(1));
}

#[test]
fn the_one_set_last_fires_first() {
    let mut t = timer();
    t.set_timeout_at(300, "a").unwrap();
    t.set_timeout_at(300, "b").unwrap();
    t.set_timeout_at(200, "c").unwrap();
    t.set_timeout_at(300, "d").unwrap();
    assert_eq!(Some("c"), t.poll_to(20));
    assert_eq!(Some("d"), t.poll_to(20));
    assert_eq!(Some("b"), t.poll_to(20));
    assert_eq!(Some("a"), t.poll_to(20));
    assert_eq!(None, t.poll_to(20));
}

#[test]
fn one_slot_is_enough() {
    let mut t: Timer<u32> = Timer::new(10, 0, 8, 0);
    for i in [5u32, 2, 7, 2] {
        t.set_timeout_at(i as u64 * 10, i).unwrap();
    }
    let mut fired = vec![];
    for tick in 0..10 {
        while let Some(i) = t.poll_to(tick) {
            assert_eq!(i as u64, tick);
            fired.push(i);
        }
    }
    assert_eq!(fired, [2, 2, 5, 7]);
}

#[test]
fn polling_up_to_the_last_tick() {
    let mut t: Timer<u32> = Timer::new(10, 4, 8, 0);
    t.set_timeout_at(30, 3).unwrap();
    t.set_timeout_at(20, 2).unwrap();
    assert_eq!(Some(2), t.poll_to(u64::MAX));
    assert_eq!(Some(3), t.poll_to(u64::MAX));
}

#[test]
fn polling_on_the_way_makes_no_difference() {
    let fill = |t: &mut Timer<u32>| {
        for i in [3u32, 19, 3, 40, 12, 35] {
            t.set_timeout_at(i as u64 * TICK, i).unwrap();
        }
    };
    let mut often: Timer<u32> = Timer::new(TICK, SLOTS, CAPACITY, 0);
    let mut seldom: Timer<u32> = Timer::new(TICK, SLOTS, CAPACITY, 0);
    fill(&mut often);
    fill(&mut seldom);
    let mut a = vec![];
    let mut b = vec![];
    for tick in 0..60 {
        while let Some(i) = often.poll_to(tick) {
            a.push(i);
        }
    }
    while let Some(i) = seldom.poll_to(59) {
        b.push(i);
    }
    assert_eq!(a, b);
    assert_eq!(often.next_tick(), seldom.next_tick());
}

#[test]
fn wake_up_ticks() {
    let mut t = timer();
    assert_eq!(t.next_tick(), Some(u64::MAX));
    t.set_timeout_at(500, "a").unwrap();
    t.set_timeout_at(300, "b").unwrap();
    assert_eq!(t.next_tick(), Some(3));
    t.set_timeout_at(100 + TICK * SLOTS as u64, "far").unwrap();
    assert_eq!(None, t.poll_to(2));
    // The timer stands at a tick with something due
    assert_eq!(t.next_tick(), Some(3));
    assert_eq!(Some("b"), t.poll_to(3));
    assert_eq!(None, t.poll_to(3));
    assert_eq!(t.next_tick(), Some(5));
    assert_eq!(Some("a"), t.poll_to(5));
    assert_eq!(None, t.poll_to(5));
    assert_eq!(t.next_tick(), Some(17));
}

#[test]
fn the_next_tick_after_a_cancel() {
    let mut t = timer();
    let a = t.set_timeout_at(100, "a").unwrap();
    t.set_timeout_at(300, "b").unwrap();
    assert_eq!(t.next_tick(), Some(1));
    assert_eq!(Some("a"), t.cancel_timeout(&a));
    assert_eq!(t.next_tick(), Some(3));
}

#[test]
fn the_next_tick_while_one_of_two_has_fired() {
    let mut t = timer();
    t.set_timeout_at(100, "a").unwrap();
    t.set_timeout_at(100, "b").unwrap();
    assert_eq!(t.poll_to(1), Some("b"));
    assert_eq!(t.next_tick(), Some(1));
    assert_eq!(t.poll_to(1), Some("a"));
    assert_eq!(t.next_tick(), Some(u64::MAX));
}

#[test]
fn the_number_of_slots_makes_no_difference() {
    let mut fired: Vec<Vec<u32>> = vec![];
    for slots in [1, 2, 8, 64] {
        let mut t: Timer<u32> = Timer::new(TICK, slots, CAPACITY, 0);
        let mut out = vec![];
        for (i, at) in [5u64, 13, 5, 21, 29, 13, 6, 5].into_iter().enumerate() {
            t.set_timeout_at(at * TICK, i as u32).unwrap();
        }
        for tick in [5, 12, 13, 40] {
            while let Some(i) = t.poll_to(tick) {
                out.push(i);
            }
        }
        fired.push(out);
    }
    assert_eq!(fired[0], [7, 2, 0, 6, 5, 1, 3, 4]);
    assert!(fired.iter().all(|out| *out == fired[0]));
}

#[test]
fn draining_after_a_cancel() {
    let mut t = timer();
    let mut names = vec![];
    for (at, state) in
        [(100, "a"), (300, "b"), (100, "c"), (200, "d"), (1900, "e"), (300, "f")]
    {
        names.push(t.set_timeout_at(at, state).unwrap());
    }
    t.cancel_timeout(&names[5]);
    let mut out = vec![];
    while let Some(x) = t.poll_to(30) {
        out.push(x);
    }
    assert_eq!(out, ["c", "a", "d", "b", "e"]);
}

#[test]
fn many_timeouts_against_a_plain_list() {
    // A timer against a list that is searched for the least tick
    let mut t: Timer<u32> = Timer::new(10, 8, 64, 0);
    let mut list: Vec<(u64, u32)> = vec![];
    let mut names = vec![];
    let mut seed: u64 = 12345;
    let mut now: u64 = 0;
    for round in 0..2000u32 {
        seed = seed.wrapping_mul(6364136223846793005).wrapping_add(1442695040888963407);
        let pick = (seed >> 33) % 10;
        let at = now + (seed >> 40) % 50;
        if pick < 5 {
            if let Ok(name) = t.set_timeout_at(at * 10, round) {
                list.push((at.max(now + 1), round));
                names.push((round, name));
            } else {
                assert_eq!(list.len(), 64);
            }
        } else if pick < 7 {
            if !names.is_empty() {
                let (id, name) = names.swap_remove((seed >> 50) as usize % names.len());
                let there = list.iter().position(|e| e.1 == id);
                if let Some(i) = there {
                    list.remove(i);
                    assert_eq!(t.cancel_timeout(&name), Some(id));
                }
            }
        } else {
            let target = now + (seed >> 55) % 4;
            while let Some(id) = t.poll_to(target) {
                let least = list.iter().map(|e| e.0).min().unwrap();
                let i = list.iter().position(|e| e.1 == id).unwrap();
                assert_eq!(list[i].0, least);
                assert!(least <= target);
                list.remove(i);
                names.retain(|e| e.0 != id);
            }
            assert!(list.iter().all(|e| e.0 > target));
            now = target + 1;
        }
        assert_eq!(t.count(), list.len());
        let next = list.iter().map(|e| e.0).min().unwrap_or(u64::MAX);
        assert_eq!(t.next_tick(), Some(next));
    }
}
