use mio_timer::clock::{epoch_ms, millis, ms_to_tick, now_ms, now_tick, tick_from};
use mio_timer::{Builder, ClockError, Timer};
use std::time::{Duration, SystemTime, UNIX_EPOCH};

fn system_ms() -> u64 {
    SystemTime::now().duration_since(UNIX_EPOCH).unwrap().as_millis() as u64
}

#[test]
fn durations_are_rounded_up() {
    assert_eq!(millis(Duration::from_millis(1500)), 1500);
    assert_eq!(millis(Duration::new(2, 0)), 2000);
    assert_eq!(millis(Duration::new(2, 1)), 2001);
    assert_eq!(millis(Duration::new(2, 999_000_000)), 2999);
    assert_eq!(millis(Duration::new(2, 999_000_001)), 3000);
    assert_eq!(millis(Duration::new(0, 0)), 0);
}

#[test]
fn long_durations_are_capped() {
    assert_eq!(millis(Duration::new(u64::MAX, 0)), u64::MAX);
    assert_eq!(millis(Duration::new(u64::MAX / 1000, 999_999_999)), u64::MAX);
}

#[test]
fn time_since_the_epoch_is_rounded_down() {
    assert_eq!(epoch_ms(Duration::new(3, 1_999_999)), Ok(3001));
    assert_eq!(epoch_ms(Duration::new(u64::MAX / 1000, 615_000_000)), Ok(u64::MAX));
    assert_eq!(epoch_ms(Duration::new(u64::MAX / 1000, 616_000_000)), Err(ClockError));
    assert_eq!(epoch_ms(Duration::new(u64::MAX / 1000 + 1, 0)), Err(ClockError));
}

#[test]
fn the_clock_shows_the_time() {
    let before = system_ms();
    let now = now_ms().unwrap();
    let after = system_ms();
    assert!(before <= now && now <= after);
}

#[test]
fn ticks_of_the_clock() {
    assert_eq!(ms_to_tick(250, 50, 100), 2);
    assert_eq!(ms_to_tick(249, 50, 100), 1);
    assert_eq!(tick_from(250, 50, 100), Ok(2));
    assert_eq!(tick_from(49, 50, 100), Err(ClockError));
    let start = system_ms() - 10_000;
    let tick = now_tick(start, 1000).unwrap();
    assert!(10 <= tick && tick < 20);
    assert_eq!(now_tick(u64::MAX, 1000), Err(ClockError));
}

#[test]
fn default_settings() {
    let before = system_ms();
    let t: Timer<u32> = Builder::default().build().unwrap();
    let after = system_ms();
    assert_eq!(t.tick_ms(), 100);
    assert!(before <= t.start() && t.start() <= after);
}

#[test]
fn limits_of_settings() {
    assert!(Builder::default().fits());
    assert!(Builder::default().num_slots(usize::MAX / 2 + 1).fits());
    assert!(!Builder::default().num_slots(usize::MAX / 2 + 2).fits());
    assert!(Builder::default().capacity(usize::MAX / 64).fits());
    assert!(!Builder::default().capacity(usize::MAX / 64 + 1).fits());
}

#[test]
fn settings_are_kept() {
    let mut t: Timer<u32> = Builder::default()
        .tick_duration(Duration::new(0, 1_000_001))
        .num_slots(3)
        .capacity(5)
        .build()
        .unwrap();
    assert_eq!(t.tick_ms(), 2);
    for i in 0..5 {
        assert!(t.set_timeout(Duration::from_millis(60_000), i).unwrap().is_ok());
    }
    assert!(t.set_timeout(Duration::from_millis(60_000), 5).unwrap().is_err());
}

#[test]
fn a_timeout_by_the_clock() {
    let mut t: Timer<&str> =
        Builder::default().tick_duration(Duration::from_millis(10)).build().unwrap();
    t.set_timeout(Duration::from_millis(60_000), "later").unwrap().unwrap();
    t.set_timeout(Duration::from_millis(30), "soon").unwrap().unwrap();
    let begin = system_ms();
    let mut fired = None;
    while fired.is_none() && system_ms() < begin + 5_000 {
        fired = t.poll().unwrap();
    }
    assert_eq!(fired, Some("soon"));
    assert_eq!(t.poll().unwrap(), None);
    assert_eq!(t.count(), 1);
    assert!(t.current_tick().unwrap() >= 2);
}

#[test]
fn a_timer_that_starts_in_the_future_cannot_be_polled() {
    let mut t: Timer<u32> = Timer::new(100, 16, 32, u64::MAX - 1_000);
    assert_eq!(t.poll(), Err(ClockError));
    assert_eq!(t.current_tick(), Err(ClockError));
    assert!(matches!(t.set_timeout(Duration::from_millis(5), 1), Err(ClockError)));
    assert!(matches!(t.set_timeout(Duration::new(u64::MAX, 0), 1), Err(ClockError)));
    assert_eq!(t.count(), 0);
}

#[test]
fn timeouts_and_polls_from_a_point_in_time() {
    let mut t: Timer<&str> = Timer::new(100, 16, 2, 1000);
    t.set_timeout_from(1200, Duration::new(0, 99_000_001), "a").unwrap().unwrap();
    assert_eq!(t.next_tick(), Some(3));
    // The point in time may be before the start if the delay leads past it
    t.set_timeout_from(900, Duration::from_millis(600), "b").unwrap().unwrap();
    assert!(t.set_timeout_from(900, Duration::from_millis(600), "c").unwrap().is_err());
    assert!(t.set_timeout_from(900, Duration::from_millis(99), "c").is_err());
    assert!(t.set_timeout_from(u64::MAX, Duration::from_millis(1), "c").is_err());
    assert_eq!(t.count(), 2);

    assert_eq!(t.poll_from(999), Err(ClockError));
    assert_eq!(t.poll_from(1299), Ok(None));
    assert_eq!(t.poll_from(1300), Ok(Some("a")));
    assert_eq!(t.poll_from(5000), Ok(Some("b")));
    assert_eq!(t.poll_from(5000), Ok(None));

    let mut t: Timer<&str> = Timer::new(1, 16, 2, 0);
    assert_eq!(t.poll_from(u64::MAX), Err(ClockError));
    t.set_timeout_from(3, Duration::new(0, 0), "a").unwrap().unwrap();
    assert_eq!(t.poll_from(u64::MAX), Ok(Some("a")));
}
