//! The loop that hands the requests of an inbound to an outbound.

use vstd::prelude::*;

use crate::error::{SError, SResult};

verus! {

/// What happened.
pub enum Event<R> {
    /// The inbound was initialized, or could not be.
    Initialized(SResult<()>),
    /// The inbound accepted a request, or failed to.
    Accepted(SResult<R>),
    /// The outbound took a request, or failed to.
    Handled(SResult<()>),
}

/// What to do next.
pub enum Action<R> {
    /// Let the inbound accept the next request.
    Accept,
    /// Hand the request to the outbound.
    Handle(R),
    /// Give up.
    Stop(SError),
}

/// An error that is reported and otherwise ignored.
pub enum Report {
    Nothing,
    /// Accepting a request failed.
    Accepting(SError),
    /// Handling a request failed.
    Handling(SError),
}

/// What to do after `event`.
pub open spec fn next_action<R>(event: Event<R>) -> Action<R> {
    match event {
        Event::Initialized(Err(e)) => Action::Stop(e),
        Event::Accepted(Ok(request)) => Action::Handle(request),
        _ => Action::Accept,
    }
}

/// Decides what the manager does after an event, and what error it reports.
pub fn run_step<R>(event: Event<R>) -> (r: (Action<R>, Report))
    ensures
        r.0 == next_action(event),
        r.1 == match event {
            Event::Accepted(Err(e)) => Report::Accepting(e),
            Event::Handled(Err(e)) => Report::Handling(e),
            _ => Report::Nothing,
        },
{
    match event {
        Event::Initialized(Err(e)) => (Action::Stop(e), Report::Nothing),
        Event::Initialized(Ok(())) => (Action::Accept, Report::Nothing),
        Event::Accepted(Ok(request)) => (Action::Handle(request), Report::Nothing),
        Event::Accepted(Err(e)) => (Action::Accept, Report::Accepting(e)),
        Event::Handled(Ok(())) => (Action::Accept, Report::Nothing),
        Event::Handled(Err(e)) => (Action::Accept, Report::Handling(e)),
    }
}

/// Once the inbound is initialized, the manager never stops: a request that cannot be accepted
/// or handled does not keep the next one from being accepted.
pub proof fn law_only_initialization_stops_the_manager<R>(event: Event<R>)
    ensures
        next_action(event) is Stop <==> event matches Event::Initialized(Err(_)),
        event matches Event::Handled(_) ==> next_action(event) is Accept,
        event matches Event::Accepted(Err(_)) ==> next_action(event) is Accept,
{
}

/// Once the inbound is initialized, requests are accepted one after the other, and each is
/// handed to the outbound as it was accepted.
pub proof fn law_every_accepted_request_is_handled<R>(request: R, e: SError)
    ensures
        next_action(Event::<R>::Initialized(Ok(()))) is Accept,
        next_action(Event::<R>::Initialized(Err(e))) == Action::<R>::Stop(e),
        next_action(Event::<R>::Accepted(Ok(request))) == Action::<R>::Handle(request),
        next_action(Event::<R>::Accepted(Err(e))) is Accept,
        next_action(Event::<R>::Handled(Ok(()))) is Accept,
        next_action(Event::<R>::Handled(Err(e))) is Accept,
{
}

} // verus!
