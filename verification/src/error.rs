//! The errors of the proxy.

use vstd::prelude::*;

verus! {

/// What kind of input or output failure happened.
#[derive(Clone, Copy, Debug, PartialEq, Eq, Structural)]
pub enum IoErrorKind {
    UnexpectedEof,
    Unsupported,
    Other,
}

/// An input or output failure.
#[derive(Clone, Debug)]
pub struct IoError {
    pub kind: IoErrorKind,
    pub message: String,
}

/// A failure of the QUIC layer.
#[derive(Clone, Debug)]
pub enum QuicErrorRepr {
    QuicConnect(String),
    QuicListenerBuilderError(String),
    QuicIoError(String),
    QuicBaseError(String),
    EndpointClosed,
    ProtocolUnsupportedAddress,
}

/// A failure of the proxy.
#[derive(Clone, Debug)]
pub enum SError {
    Io(IoError),
    QuicError(QuicErrorRepr),
    RustlsError(String),
    SocksError(String),
    SunnyAuthError(String),
    UDPSessionClosed(String),
    DomainResolveFailed(String),
    InboundUnavailable,
    OutboundUnavailable,
    ProtocolViolation,
    ProtocolUnimpl,
}

pub type SResult<T> = Result<T, SError>;

impl SError {
    /// The input ended where more was needed.
    pub open spec fn is_eof(self) -> bool {
        self matches SError::Io(error) && error.kind == IoErrorKind::UnexpectedEof
            && error.message@ == "early eof"@
    }

    /// The error of an input that ended where more was needed.
    pub fn eof() -> (r: SError)
        ensures
            r.is_eof(),
            r matches SError::Io(error) && error.message@ == "early eof"@,
    {
        SError::Io(
            IoError { kind: IoErrorKind::UnexpectedEof, message: String::from_str("early eof") },
        )
    }

    /// The error of a SOCKS exchange that failed for the given reason.
    pub fn socks(reason: &str) -> (r: SError)
        ensures
            r matches SError::SocksError(m) && m@ == reason@,
    {
        SError::SocksError(String::from_str(reason))
    }
}

/// An input ended early exactly where the kind and the words of the failure say so.
pub proof fn law_early_ends_are_told_by_their_kind(error: IoError, other: SError)
    ensures
        SError::Io(error).is_eof() <==> error.kind == IoErrorKind::UnexpectedEof && error.message@
            == "early eof"@,
        !(other is Io) ==> !other.is_eof(),
{
}

} // verus!
