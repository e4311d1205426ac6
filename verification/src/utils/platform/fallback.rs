//! Platforms on which a socket cannot be bound to a network interface.

use socket2::Socket;
use vstd::prelude::*;

use crate::error::{IoError, IoErrorKind};
use crate::text::join;

verus! {

/// A socket.
#[verifier::external_type_specification]
#[verifier::external_body]
pub struct ExSocket(socket2::Socket);

/// How a string reads in quotes, with what cannot be printed escaped.
pub uninterp spec fn quoted(s: Seq<char>) -> Seq<char>;

/// Calls `<str as Debug>::fmt`, by way of `format!`: the string in quotes, with what cannot be
/// printed escaped. The contract only names the outcome.
#[verifier::external_body]
fn debug_string(s: &str) -> (r: String)
    ensures
        r@ == quoted(s@),
{
    format!("{s:?}")
}

/// Refuses to bind a socket to a network interface, whatever the socket and the interface.
pub fn bind_device(_socket: &Socket, device_name: &str) -> (r: Result<(), IoError>)
    ensures
        r matches Err(e) && e.kind == IoErrorKind::Unsupported && e.message@
            == "binding to interface "@ + quoted(device_name@)
            + " is unsupported on this platform"@,
{
    let name = debug_string(device_name);
    let head = join("binding to interface ", name.as_str());
    Err(
        IoError {
            kind: IoErrorKind::Unsupported,
            message: join(head.as_str(), " is unsupported on this platform"),
        },
    )
}

} // verus!
