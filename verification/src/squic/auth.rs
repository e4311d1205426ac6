//! Authentication of a connection by user name and password.

use vstd::prelude::*;

use crate::error::{SError, SResult};

verus! {

/// How long a connection waits for its peer to authenticate, in milliseconds.
pub const AUTH_TIMEOUT_MILLIS: u64 = 3200;

/// What waiting for authentication comes to: the user name, or why there is none. `outcome`
/// is what the authentication came to, unless the wait timed out.
pub fn wait_sunny_auth(outcome: Option<&SResult<String>>) -> (r: SResult<String>)
    requires
        outcome matches Some(Err(e)) ==> e is SunnyAuthError,
    ensures
        match outcome {
            Some(Ok(name)) => r matches Ok(user) && user@ == name@,
            Some(Err(_)) => r matches Err(SError::SunnyAuthError(reason)) && reason@
                == "Wrong password/username"@,
            None => r matches Err(SError::SunnyAuthError(reason)) && reason@ == "timeout"@,
        },
{
    match outcome {
        Some(Ok(name)) => Ok(name.clone()),
        Some(Err(_)) => Err(
            SError::SunnyAuthError(String::from_str("Wrong password/username")),
        ),
        None => Err(SError::SunnyAuthError(String::from_str("timeout"))),
    }
}

/// What happened while a connection authenticates itself.
pub enum AuthEvent {
    /// It is about to.
    Begin,
    /// A stream was opened, or could not be.
    Opened(SResult<()>),
    /// The request was written to the stream, or could not be.
    Written(SResult<()>),
    /// The connection took the user name, or else had been authenticated meanwhile.
    Recorded(bool),
}

/// What to do next.
pub enum AuthAction {
    /// Open a stream.
    Open,
    /// Write the request to the stream.
    Write,
    /// Record the user name as what the authentication came to.
    Record(String),
    /// That is what it comes to.
    Finish(SResult<()>),
}

/// What to do next.
pub enum AuthMove {
    Open,
    Write,
    Record(Seq<char>),
    Finish(SResult<()>),
}

impl View for AuthAction {
    type V = AuthMove;

    open spec fn view(&self) -> AuthMove {
        match self {
            AuthAction::Open => AuthMove::Open,
            AuthAction::Write => AuthMove::Write,
            AuthAction::Record(name) => AuthMove::Record(name@),
            AuthAction::Finish(outcome) => AuthMove::Finish(*outcome),
        }
    }
}

/// What to do after `event`: `authed` says whether something is recorded of the connection's
/// authentication.
pub open spec fn auth_move(authed: bool, username: Seq<char>, event: AuthEvent) -> AuthMove {
    match event {
        AuthEvent::Begin => if authed {
            AuthMove::Finish(Ok(()))
        } else {
            AuthMove::Open
        },
        AuthEvent::Opened(Ok(())) => AuthMove::Write,
        AuthEvent::Opened(Err(e)) => AuthMove::Finish(Err(e)),
        AuthEvent::Written(Ok(())) => AuthMove::Record(username),
        AuthEvent::Written(Err(e)) => AuthMove::Finish(Err(e)),
        AuthEvent::Recorded(taken) => if taken {
            AuthMove::Finish(Ok(()))
        } else {
            AuthMove::Finish(Err(SError::ProtocolViolation))
        },
    }
}

/// Decides how a connection goes on authenticating itself: `authed` is what is recorded of its
/// authentication so far.
pub fn auth_sunny(authed: Option<&SResult<String>>, username: &str, event: AuthEvent) -> (r:
    AuthAction)
    ensures
        r@ == auth_move(authed is Some, username@, event),
{
    match event {
        AuthEvent::Begin => if authed.is_some() {
            AuthAction::Finish(Ok(()))
        } else {
            AuthAction::Open
        },
        AuthEvent::Opened(Ok(())) => AuthAction::Write,
        AuthEvent::Opened(Err(e)) => AuthAction::Finish(Err(e)),
        AuthEvent::Written(Ok(())) => AuthAction::Record(String::from_str(username)),
        AuthEvent::Written(Err(e)) => AuthAction::Finish(Err(e)),
        AuthEvent::Recorded(taken) => if taken {
            AuthAction::Finish(Ok(()))
        } else {
            AuthAction::Finish(Err(SError::ProtocolViolation))
        },
    }
}

/// A connection that authenticates itself: what is recorded of its authentication, how many
/// streams were opened for it, and how many requests were written.
pub struct AuthState {
    pub authed: Option<Result<Seq<char>, SError>>,
    pub opened: nat,
    pub written: nat,
}

/// What comes of doing what `auth_move` says, for at most `steps` steps from `event` on, where
/// opening a stream and writing a request come to `opening` and `writing` and nobody else
/// records anything: the connection afterwards, and the result once there is one.
pub open spec fn auth_run(
    state: AuthState,
    username: Seq<char>,
    opening: SResult<()>,
    writing: SResult<()>,
    event: AuthEvent,
    steps: nat,
) -> (AuthState, Option<SResult<()>>)
    decreases steps,
{
    if steps == 0 {
        (state, None)
    } else {
        let rest = (steps - 1) as nat;
        match auth_move(state.authed is Some, username, event) {
            AuthMove::Open => {
                let after = if opening is Ok {
                    AuthState { opened: state.opened + 1, ..state }
                } else {
                    state
                };
                auth_run(after, username, opening, writing, AuthEvent::Opened(opening), rest)
            },
            AuthMove::Write => {
                let after = if writing is Ok {
                    AuthState { written: state.written + 1, ..state }
                } else {
                    state
                };
                auth_run(after, username, opening, writing, AuthEvent::Written(writing), rest)
            },
            AuthMove::Record(name) => if state.authed is None {
                let after = AuthState { authed: Some(Ok(name)), ..state };
                auth_run(after, username, opening, writing, AuthEvent::Recorded(true), rest)
            } else {
                auth_run(state, username, opening, writing, AuthEvent::Recorded(false), rest)
            },
            AuthMove::Finish(outcome) => (state, Some(outcome)),
        }
    }
}

/// How many steps authentication takes at most.
pub open spec fn auth_steps() -> nat {
    4
}

/// A connection of which something is recorded opens no stream, writes no request and keeps
/// what is recorded.
pub proof fn law_a_recorded_connection_sends_nothing(
    state: AuthState,
    username: Seq<char>,
    opening: SResult<()>,
    writing: SResult<()>,
)
    requires
        state.authed is Some,
    ensures
        auth_run(state, username, opening, writing, AuthEvent::Begin, auth_steps()) == (
            state,
            Some(Ok::<(), SError>(())),
        ),
{
}

/// A connection of which nothing is recorded opens one stream and writes one request, and the
/// user name is recorded only after that. Where opening or writing fails, that is the result,
/// and nothing is recorded.
pub proof fn law_authentication_is_recorded_once_sent(
    state: AuthState,
    username: Seq<char>,
    opening: SResult<()>,
    writing: SResult<()>,
)
    requires
        state.authed is None,
    ensures
        ({
            let run = auth_run(
                state,
                username,
                opening,
                writing,
                AuthEvent::Begin,
                auth_steps(),
            );
            &&& opening matches Err(e) ==> run == (state, Some(Err::<(), SError>(e)))
            &&& opening is Ok ==> (writing matches Err(e) ==> run == (
                AuthState { opened: state.opened + 1, ..state },
                Some(Err::<(), SError>(e)),
            ))
            &&& opening is Ok && writing is Ok ==> run == (
                AuthState {
                    authed: Some(Ok(username)),
                    opened: state.opened + 1,
                    written: state.written + 1,
                },
                Some(Ok::<(), SError>(())),
            )
        }),
{
    reveal_with_fuel(auth_run, 5);
}

/// Authenticating twice sends one request: the second time changes nothing.
pub proof fn law_authentication_is_sent_once(
    state: AuthState,
    username: Seq<char>,
    other: Seq<char>,
    opening: SResult<()>,
    writing: SResult<()>,
)
    requires
        state.authed is None,
    ensures
        ({
            let done = Ok::<(), SError>(());
            let first = auth_run(state, username, done, done, AuthEvent::Begin, auth_steps()).0;
            &&& first.written == state.written + 1
            &&& auth_run(first, other, opening, writing, AuthEvent::Begin, auth_steps()) == (
                first,
                Some(done),
            )
        }),
{
    let done = Ok::<(), SError>(());
    law_authentication_is_recorded_once_sent(state, username, done, done);
    let first = auth_run(state, username, done, done, AuthEvent::Begin, auth_steps()).0;
    law_a_recorded_connection_sends_nothing(first, other, opening, writing);
}

/// The steps of authentication. It ends at once where something is recorded, and with an error
/// where a step fails or where somebody else recorded something meanwhile. Otherwise a stream is
/// opened, the request is written, and the user name is recorded.
pub proof fn law_steps_of_authentication(authed: bool, username: Seq<char>, e: SError)
    ensures
        auth_move(true, username, AuthEvent::Begin) == AuthMove::Finish(Ok(())),
        auth_move(false, username, AuthEvent::Begin) is Open,
        auth_move(authed, username, AuthEvent::Opened(Ok(()))) is Write,
        auth_move(authed, username, AuthEvent::Opened(Err(e))) == AuthMove::Finish(Err(e)),
        auth_move(authed, username, AuthEvent::Written(Ok(()))) == AuthMove::Record(username),
        auth_move(authed, username, AuthEvent::Written(Err(e))) == AuthMove::Finish(Err(e)),
        auth_move(authed, username, AuthEvent::Recorded(true)) == AuthMove::Finish(Ok(())),
        auth_move(authed, username, AuthEvent::Recorded(false)) == AuthMove::Finish(
            Err(SError::ProtocolViolation),
        ),
{
}

/// What is done is what was decided: the same step, with the same user name or the same outcome.
/// The wait for authentication lasts three seconds and a fifth.
pub proof fn law_actions_are_moves(name: String, outcome: SResult<()>)
    ensures
        AuthAction::Open@ is Open,
        AuthAction::Write@ is Write,
        AuthAction::Record(name)@ == AuthMove::Record(name@),
        AuthAction::Finish(outcome)@ == AuthMove::Finish(outcome),
        AUTH_TIMEOUT_MILLIS == 3200,
{
}

} // verus!
