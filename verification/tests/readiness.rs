use mio_timer::readiness::{
    exchange_step, schedule_step, ExchangeStep, Readiness, ScheduleStep, Sleeper, WakeupStep,
    TERMINATE_THREAD, UNSCHEDULED,
};
use mio_timer::registration::{Registration, RegistrationError};
use mio_timer::Timer;

#[test]
fn scheduling_lowers_the_wake_up_tick() {
    assert_eq!(
        schedule_step(UNSCHEDULED, 7),
        ScheduleStep::Exchange { expected: UNSCHEDULED, new: 7 }
    );
    assert_eq!(schedule_step(9, 7), ScheduleStep::Exchange { expected: 9, new: 7 });
    assert_eq!(schedule_step(7, 7), ScheduleStep::Settled);
    assert_eq!(schedule_step(5, 7), ScheduleStep::Settled);
    assert_eq!(schedule_step(UNSCHEDULED, u64::MAX), ScheduleStep::Settled);
    assert_eq!(exchange_step(9, 9), ExchangeStep::Unpark);
    assert_eq!(exchange_step(9, 4), ExchangeStep::Retry { curr: 4 });
}

#[test]
fn the_thread_sleeps_and_fires() {
    let mut sleeper = Sleeper::new(12);
    assert!(!sleeper.terminates());
    assert_eq!(sleeper.step(10, 100), WakeupStep::Sleep { ms: 200 });
    assert_eq!(sleeper.step(12, 100), WakeupStep::Fire { expected: 12 });
    assert_eq!(sleeper.step(13, 100), WakeupStep::Fire { expected: 12 });

    // Another tick was scheduled meanwhile
    assert!(!sleeper.exchanged(20));
    assert_eq!(sleeper.step(13, 100), WakeupStep::Sleep { ms: 700 });

    // Woken by an earlier one
    sleeper.slept(14);
    assert_eq!(sleeper.step(13, 100), WakeupStep::Sleep { ms: 100 });
    assert!(sleeper.exchanged(14));
    assert_eq!(sleeper.step(13, 100), WakeupStep::Sleep { ms: u64::MAX });

    sleeper.slept(TERMINATE_THREAD);
    assert!(sleeper.terminates());
}

#[test]
fn a_timer_is_registered_once() {
    let mut registration = Registration::new();
    assert_eq!(registration.reregister(), Err(RegistrationError::NotRegistered));
    assert_eq!(registration.deregister(), Err(RegistrationError::NotRegistered));
    assert_eq!(registration.register(), Ok(()));
    assert_eq!(registration.register(), Err(RegistrationError::AlreadyRegistered));
    assert_eq!(registration.reregister(), Ok(()));
    assert_eq!(registration.deregister(), Ok(()));
    assert_eq!(registration.register(), Err(RegistrationError::AlreadyRegistered));
    assert_eq!(registration.deregister(), Ok(()));
    assert_eq!(RegistrationError::AlreadyRegistered.message(), "timer already registered");
    assert_eq!(RegistrationError::NotRegistered.message(), "receiver not registered");
}

#[test]
fn what_operations_mean_for_readiness() {
    let mut t: Timer<u32> = Timer::new(100, 16, 1, 0);
    let set = t.set_timeout_at(300, 1);
    assert_eq!(Timer::<u32>::readiness_after_set(&set), Readiness::Schedule { tick: 3 });
    let full = t.set_timeout_at(300, 2);
    assert_eq!(Timer::<u32>::readiness_after_set(&full), Readiness::Keep);
    assert_eq!(t.readiness_after_register(), Readiness::Schedule { tick: 3 });
    let none = t.poll_to(1);
    assert_eq!(t.readiness_after_poll(none.is_some()), Readiness::Clear { wake: 3 });
    let some = t.poll_to(3);
    assert_eq!(some, Some(1));
    assert_eq!(t.readiness_after_poll(some.is_some()), Readiness::Keep);
}

#[test]
fn registering_between_two_timeouts_of_a_tick() {
    let mut t: Timer<u32> = Timer::new(100, 16, 4, 0);
    t.set_timeout_at(100, 1).unwrap();
    t.set_timeout_at(100, 2).unwrap();
    assert_eq!(t.poll_to(1), Some(2));
    assert_eq!(t.readiness_after_register(), Readiness::Schedule { tick: 1 });
}
