//! What can go wrong when a timeout is set.
use vstd::prelude::*;
use vstd::string::*;

verus! {

/// The outcome of setting a timeout.
pub type TimerResult<T> = core::result::Result<T, TimerError>;

/// Another name for [`TimerResult`].
pub type OldTimerResult<T> = TimerResult<T>;

/// Why a timeout could not be set.
#[derive(Debug)]
pub struct TimerError {
    kind: TimerErrorKind,
    desc: &'static str,
}

/// The kinds of [`TimerError`].
#[derive(Copy, Clone, Debug, PartialEq, Eq, Structural)]
pub enum TimerErrorKind {
    /// As many timeouts are pending as the timer can hold.
    TimerOverflow,
}

impl TimerErrorKind {
    /// The name of the kind.
    pub open spec fn name(self) -> Seq<char> {
        match self {
            TimerErrorKind::TimerOverflow => "TimerOverflow"@,
        }
    }

    /// The name of the kind, as text.
    pub fn to_string(&self) -> (text: String)
        ensures
            text@ == self.name(),
    {
        match *self {
            TimerErrorKind::TimerOverflow => "TimerOverflow".to_owned(),
        }
    }
}

impl TimerError {
    /// The kind of the error.
    pub closed spec fn kind_of(self) -> TimerErrorKind {
        self.kind
    }

    /// What the error says of itself.
    pub closed spec fn said(self) -> Seq<char> {
        self.desc@
    }

    /// This is the error for too many pending timeouts.
    pub open spec fn is_overflow(self) -> bool {
        self.kind_of() == TimerErrorKind::TimerOverflow && self.said()
            == "too many timer entries"@
    }

    /// The error for too many pending timeouts.
    pub fn overflow() -> (error: TimerError)
        ensures
            error.is_overflow(),
    {
        TimerError { kind: TimerErrorKind::TimerOverflow, desc: "too many timer entries" }
    }

    /// A description of the error.
    pub fn description(&self) -> (text: &str)
        ensures
            text@ == self.said(),
    {
        self.desc
    }

    /// The name of the error's kind and its description, as text.
    pub fn to_string(&self) -> (text: String)
        ensures
            text@ == self.kind_of().name() + ": "@ + self.said(),
    {
        self.kind.to_string().concat(": ").concat(self.desc)
    }
}

/// The error for too many pending timeouts says so, and is shown as its kind and what it says.
pub proof fn law_overflow(error: TimerError, description: &str, text: String, kind: String)
    requires
        call_ensures(TimerError::overflow, (), error),
        call_ensures(TimerError::description, (&error,), description),
        call_ensures(TimerError::to_string, (&error,), text),
        call_ensures(TimerErrorKind::to_string, (&TimerErrorKind::TimerOverflow,), kind),
    ensures
        description@ == "too many timer entries"@,
        kind@ == "TimerOverflow"@,
        text@ == "TimerOverflow"@ + ": "@ + "too many timer entries"@,
{
}

} // verus!
