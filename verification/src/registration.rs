//! Whether a timer is registered with a readiness queue.
//!
//! A timer is registered once in its life. Its registration can be changed and taken out
//! of the queue, but neither makes room for another one.
use vstd::prelude::*;

verus! {

/// What can be asked of a timer's registration.
#[derive(Copy, Clone, Debug, PartialEq, Eq, Structural)]
pub enum Request {
    /// To register the timer.
    Register,
    /// To change how it is registered.
    Reregister,
    /// To take it out of the queue.
    Deregister,
}

/// Why a request is refused.
#[derive(Copy, Clone, Debug, PartialEq, Eq, Structural)]
pub enum RegistrationError {
    /// The timer has been registered already.
    AlreadyRegistered,
    /// The timer has not been registered.
    NotRegistered,
}

impl RegistrationError {
    /// What the error says.
    pub open spec fn text(self) -> Seq<char> {
        match self {
            RegistrationError::AlreadyRegistered => "timer already registered"@,
            RegistrationError::NotRegistered => "receiver not registered"@,
        }
    }

    /// What the error says.
    pub fn message(&self) -> (text: &'static str)
        ensures
            text@ == self.text(),
    {
        match *self {
            RegistrationError::AlreadyRegistered => "timer already registered",
            RegistrationError::NotRegistered => "receiver not registered",
        }
    }
}

/// The answer to a request: a timer can be registered if it has not been, and its
/// registration can be changed or taken out if it has.
pub open spec fn answer(registered: bool, request: Request) -> Result<(), RegistrationError> {
    match request {
        Request::Register => if registered {
            Err(RegistrationError::AlreadyRegistered)
        } else {
            Ok(())
        },
        Request::Reregister | Request::Deregister => if registered {
            Ok(())
        } else {
            Err(RegistrationError::NotRegistered)
        },
    }
}

/// Whether a timer has been registered, after a request.
pub open spec fn registered_after(registered: bool, request: Request) -> bool {
    registered || request == Request::Register
}

/// Whether a timer has been registered, after some requests.
pub open spec fn registered_after_all(registered: bool, requests: Seq<Request>) -> bool
    decreases requests.len(),
{
    if requests.len() == 0 {
        registered
    } else {
        registered_after(registered_after_all(registered, requests.drop_last()), requests.last())
    }
}

/// The registration of a timer.
#[derive(Copy, Clone, Debug, PartialEq, Eq, Structural)]
pub struct Registration {
    registered: bool,
}

impl Registration {
    /// The timer has been registered.
    pub closed spec fn registered(self) -> bool {
        self.registered
    }

    /// The registration of a new timer, which has not been registered.
    pub fn new() -> (registration: Registration)
        ensures
            !registration.registered(),
    {
        Registration { registered: false }
    }

    /// Asks to register the timer. From then on it has been registered.
    pub fn register(&mut self) -> (result: Result<(), RegistrationError>)
        ensures
            result == answer(old(self).registered(), Request::Register),
            final(self).registered() == registered_after(
                old(self).registered(),
                Request::Register,
            ),
    {
        if self.registered {
            return Err(RegistrationError::AlreadyRegistered);
        }
        self.registered = true;
        Ok(())
    }

    /// Asks to change how the timer is registered.
    pub fn reregister(&mut self) -> (result: Result<(), RegistrationError>)
        ensures
            result == answer(old(self).registered(), Request::Reregister),
            final(self).registered() == registered_after(
                old(self).registered(),
                Request::Reregister,
            ),
    {
        if self.registered {
            Ok(())
        } else {
            Err(RegistrationError::NotRegistered)
        }
    }

    /// Asks to take the timer out of the queue. It still has been registered.
    pub fn deregister(&mut self) -> (result: Result<(), RegistrationError>)
        ensures
            result == answer(old(self).registered(), Request::Deregister),
            final(self).registered() == registered_after(
                old(self).registered(),
                Request::Deregister,
            ),
    {
        if self.registered {
            Ok(())
        } else {
            Err(RegistrationError::NotRegistered)
        }
    }
}

/// A timer is registered once in its life: whatever is asked after it has been registered,
/// another request to register it is refused.
pub proof fn law_registered_once(before: bool, requests: Seq<Request>)
    ensures
        answer(
            registered_after_all(registered_after(before, Request::Register), requests),
            Request::Register,
        ) == Err::<(), RegistrationError>(RegistrationError::AlreadyRegistered),
    decreases requests.len(),
{
    if requests.len() > 0 {
        law_registered_once(before, requests.drop_last());
    }
}

/// A request to register a timer is granted exactly if there was none before.
pub proof fn law_first_register_is_granted(requests: Seq<Request>)
    ensures
        answer(registered_after_all(false, requests), Request::Register) is Ok
            <==> !requests.contains(Request::Register),
    decreases requests.len(),
{
    if requests.len() > 0 {
        let less = requests.drop_last();
        law_first_register_is_granted(less);
        if less.contains(Request::Register) {
            let i = choose|i: int| 0 <= i < less.len() && less[i] == Request::Register;
            assert(requests[i] == Request::Register);
        }
        if requests.contains(Request::Register) && requests.last() != Request::Register {
            let i = choose|i: int| 0 <= i < requests.len() && requests[i] == Request::Register;
            assert(less[i] == Request::Register);
        }
    }
}

/// The registration of a timer over its life. Starting from a new one, a request to register is
/// granted exactly if it is the first, and a request to change the registration or to take it
/// out exactly if there was one to register before; a request that is not granted is refused
/// for that reason.
pub proof fn law_registration(
    states: Seq<bool>,
    requests: Seq<Request>,
    answers: Seq<Result<(), RegistrationError>>,
    i: int,
)
    requires
        states.len() == requests.len() + 1,
        answers.len() == requests.len(),
        !states[0],
        forall|j: int|
            0 <= j < requests.len() ==> answers[j] == answer(#[trigger] states[j], requests[j])
                && states[j + 1] == registered_after(states[j], requests[j]),
        0 <= i < requests.len(),
    ensures
        ({
            let before = exists|j: int| 0 <= j < i && requests[j] == Request::Register;
            &&& answers[i] is Ok <==> (before <==> requests[i] != Request::Register)
            &&& answers[i] matches Err(error) ==> error == if before {
                RegistrationError::AlreadyRegistered
            } else {
                RegistrationError::NotRegistered
            }
        }),
{
    lemma_registered_from(states, requests, i);
}

// A timer has been registered exactly if that has been asked for
proof fn lemma_registered_from(states: Seq<bool>, requests: Seq<Request>, i: int)
    requires
        states.len() == requests.len() + 1,
        !states[0],
        forall|j: int|
            0 <= j < requests.len() ==> states[j + 1] == registered_after(
                #[trigger] states[j],
                requests[j],
            ),
        0 <= i < states.len(),
    ensures
        states[i] <==> exists|j: int| 0 <= j < i && requests[j] == Request::Register,
    decreases i,
{
    if i > 0 {
        lemma_registered_from(states, requests, i - 1);
        assert(states[i - 1 + 1] == registered_after(states[i - 1], requests[i - 1]));
        if states[i - 1] {
            let j = choose|j: int| 0 <= j < i - 1 && requests[j] == Request::Register;
            assert(0 <= j < i && requests[j] == Request::Register);
        }
    }
}

/// A new registration can be made once and then changed and taken out, any number of times.
pub proof fn law_requests(
    new: Registration,
    registration: &mut Registration,
    registered: Result<(), RegistrationError>,
    reregistered: Result<(), RegistrationError>,
    deregistered: Result<(), RegistrationError>,
)
    requires
        call_ensures(Registration::new, (), new),
    ensures
        !new.registered(),
        call_ensures(Registration::register, (registration,), registered) ==> {
            &&& registered is Ok <==> !old(registration).registered()
            &&& registered matches Err(error) ==> error == RegistrationError::AlreadyRegistered
            &&& final(registration).registered()
        },
        call_ensures(Registration::reregister, (registration,), reregistered) ==> {
            &&& reregistered is Ok <==> old(registration).registered()
            &&& reregistered matches Err(error) ==> error == RegistrationError::NotRegistered
            &&& final(registration).registered() == old(registration).registered()
        },
        call_ensures(Registration::deregister, (registration,), deregistered) ==> {
            &&& deregistered is Ok <==> old(registration).registered()
            &&& deregistered matches Err(error) ==> error == RegistrationError::NotRegistered
            &&& final(registration).registered() == old(registration).registered()
        },
{
}

/// Each refusal says its own reason.
pub proof fn law_message(error: &RegistrationError, text: &'static str)
    requires
        call_ensures(RegistrationError::message, (error,), text),
    ensures
        *error == RegistrationError::AlreadyRegistered <==> text@ == "timer already registered"@,
        *error == RegistrationError::NotRegistered <==> text@ == "receiver not registered"@,
{
    reveal_strlit("timer already registered");
    reveal_strlit("receiver not registered");
    assert("timer already registered"@[0] == 't');
    assert("receiver not registered"@[0] == 'r');
}

} // verus!
