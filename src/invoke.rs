//! The decisions of an invocation: of transmission failure, the first result
//! payload and the first error payload, whichever comes first settles the
//! call.
use vstd::prelude::*;

verus! {

/// What can happen while an invocation waits.
#[derive(Debug, Clone, Copy, PartialEq, Eq, Structural)]
pub enum InvocationEvent {
    /// Sending the parameters failed.
    TransmissionFailed,
    /// The first payload arrived on the result subject.
    ResultReceived,
    /// The first payload arrived on the error subject.
    ErrorReceived,
}

/// How an invocation was settled.
#[derive(Debug, Clone, Copy, PartialEq, Eq, Structural)]
pub enum Resolution {
    Results,
    Error,
    TransmissionFailure,
}

/// What to do on an event.
#[derive(Debug, Clone, Copy, PartialEq, Eq, Structural)]
pub enum InvocationAction {
    /// Decode the results from the result payload, with the planned
    /// subscriptions.
    DecodeResults,
    /// Decode the error string and fail the call with it.
    DecodeError,
    /// Wait for the transmission to learn why it failed, and fail the call.
    AwaitTransmission,
    /// The call is settled already: drop the event.
    Ignore,
}

/// The settlement that an event brings.
pub open spec fn resolution_of(ev: InvocationEvent) -> Resolution {
    match ev {
        InvocationEvent::TransmissionFailed => Resolution::TransmissionFailure,
        InvocationEvent::ResultReceived => Resolution::Results,
        InvocationEvent::ErrorReceived => Resolution::Error,
    }
}

/// The action that settles a call on an event.
pub open spec fn action_of(ev: InvocationEvent) -> InvocationAction {
    match ev {
        InvocationEvent::TransmissionFailed => InvocationAction::AwaitTransmission,
        InvocationEvent::ResultReceived => InvocationAction::DecodeResults,
        InvocationEvent::ErrorReceived => InvocationAction::DecodeError,
    }
}

/// The race of an invocation between its result, its error and its
/// transmission.
#[derive(Debug, Clone, Copy, PartialEq, Eq, Structural)]
pub struct InvocationRace {
    pub resolution: Option<Resolution>,
}

impl InvocationRace {
    /// A race that nothing has settled yet.
    pub fn new() -> (r: InvocationRace)
        ensures
            r.resolution is None,
    {
        InvocationRace { resolution: None }
    }

    /// Takes an event: the first one settles the call and says what to do;
    /// every later one is ignored.
    pub fn on_event(&mut self, ev: InvocationEvent) -> (a: InvocationAction)
        ensures
            old(self).resolution is Some ==> *final(self) == *old(self) && a
                == InvocationAction::Ignore,
            old(self).resolution is None ==> final(self).resolution == Some(resolution_of(ev)) && a
                == action_of(ev),
    {
        if self.resolution.is_some() {
            return InvocationAction::Ignore;
        }
        match ev {
            InvocationEvent::TransmissionFailed => {
                self.resolution = Some(Resolution::TransmissionFailure);
                InvocationAction::AwaitTransmission
            },
            InvocationEvent::ResultReceived => {
                self.resolution = Some(Resolution::Results);
                InvocationAction::DecodeResults
            },
            InvocationEvent::ErrorReceived => {
                self.resolution = Some(Resolution::Error);
                InvocationAction::DecodeError
            },
        }
    }
}

/// The race after the events `evs`, in order.
pub open spec fn race_after(r: InvocationRace, evs: Seq<InvocationEvent>) -> InvocationRace
    decreases evs.len(),
{
    if evs.len() == 0 {
        r
    } else {
        let next = match r.resolution {
            Some(_) => r,
            None => InvocationRace { resolution: Some(resolution_of(evs[0])) },
        };
        race_after(next, evs.drop_first())
    }
}

/// The first event settles an invocation for good: whatever follows, the
/// settlement stays the one the first event brought, so a call settled by
/// its result is never also settled by an error.
pub proof fn lemma_first_event_wins(evs: Seq<InvocationEvent>)
    requires
        evs.len() > 0,
    ensures
        race_after(InvocationRace { resolution: None }, evs).resolution == Some(
            resolution_of(evs[0]),
        ),
{
    lemma_settled_stays(
        InvocationRace { resolution: Some(resolution_of(evs[0])) },
        evs.drop_first(),
    );
}

proof fn lemma_settled_stays(r: InvocationRace, evs: Seq<InvocationEvent>)
    requires
        r.resolution is Some,
    ensures
        race_after(r, evs) == r,
    decreases evs.len(),
{
    if evs.len() > 0 {
        lemma_settled_stays(r, evs.drop_first());
    }
}

} // verus!
