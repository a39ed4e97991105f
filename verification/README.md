# mio_timer

Timers on a hashed timing wheel, with proofs.

A `Timer<T>` holds timeouts, each with a state of type `T`. `set_timeout` sets one for a
time from now, `cancel_timeout` takes it back, and `poll` hands out the state of the next
one that is due. Time is counted in ticks of a fixed length.

    src/model.rs          the timer as a mathematical object, which the contracts speak of
    src/timer.rs          the timer
    src/builder.rs        its settings
    src/readiness.rs      when a registered timer is to be woken
    src/registration.rs   whether it is registered
    src/clock.rs          the system clock, durations and ticks
    src/links.rs          the slab that keeps the links of the timer's lists
    src/error.rs          what can go wrong
    src/lemmas.rs         facts that the proofs rest on
    src/laws.rs           what holds of the timer as a whole
    src/draining.rs       what fires when it is polled until nothing is due
    app/                  a timer with a thread that wakes it

What is taken on trust stands in `src/links.rs` (the slab), `src/clock.rs` (durations and
the clock) and `src/timer.rs` (rounding to a power of two), with a comment for each item.
