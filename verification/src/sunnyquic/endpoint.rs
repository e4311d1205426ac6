//! What the endpoint makes of the answers of `gm_quic`.

use std::collections::hash_map::DefaultHasher;
use std::hash::{Hash, Hasher};
use vstd::prelude::*;
use vstd::std_specs::hash::DefaultHasherAdditionalSpecFns;

use crate::addr::SocketAddr;
use crate::error::{QuicErrorRepr, SError, SResult};

verus! {

/// How many connections may wait to be accepted.
pub const LISTEN_BACKLOG: usize = 128;

/// A stream that was opened, or none because the endpoint is closed.
pub fn opened<S>(stream: Option<S>) -> (r: Result<S, QuicErrorRepr>)
    ensures
        stream matches Some(s) ==> r == Ok::<S, QuicErrorRepr>(s),
        stream is None ==> (r matches Err(e) && e is EndpointClosed),
{
    match stream {
        Some(stream) => Ok(stream),
        None => Err(QuicErrorRepr::EndpointClosed),
    }
}

/// The address that a connection comes from, which must be an internet address.
pub fn accepted_address(internet: Option<SocketAddr>) -> (r: Result<SocketAddr, QuicErrorRepr>)
    ensures
        internet matches Some(address) ==> r == Ok::<SocketAddr, QuicErrorRepr>(address),
        internet is None ==> (r matches Err(e) && e is ProtocolUnsupportedAddress),
{
    match internet {
        Some(address) => Ok(address),
        None => Err(QuicErrorRepr::ProtocolUnsupportedAddress),
    }
}

/// A running endpoint keeps its configuration.
pub fn update_config() -> (r: SResult<()>)
    ensures
        r matches Err(e) && e is ProtocolUnimpl,
{
    Err(SError::ProtocolUnimpl)
}

/// Calls `<[u8] as Hash>::hash`. What it writes to the hasher besides the bytes depends on the
/// machine, so that nothing is said of the hasher that comes out.
#[verifier::external_body]
fn hash_bytes(bytes: &[u8], hasher: DefaultHasher) -> DefaultHasher {
    let mut hasher = hasher;
    bytes.hash(&mut hasher);
    hasher
}

/// `number` is what a new hasher finishes with once `bytes` are hashed.
pub closed spec fn is_hash_of(bytes: &[u8], number: u64) -> bool {
    exists|fresh: DefaultHasher, hasher: DefaultHasher|
        fresh@ == Seq::<Seq<u8>>::empty() && #[trigger] call_ensures(
            hash_bytes,
            (bytes, fresh),
            hasher,
        ) && number == DefaultHasher::spec_finish(hasher@)
}

/// A number for a connection: the hash of the connection id that it started with, where that
/// is known.
pub fn connection_id(origin_dcid: Option<&[u8]>) -> (r: u64)
    ensures
        origin_dcid is None ==> r == DefaultHasher::spec_finish(Seq::empty()),
        origin_dcid matches Some(bytes) ==> is_hash_of(bytes, r),
{
    let mut hasher = DefaultHasher::new();
    match origin_dcid {
        Some(bytes) => {
            hasher = hash_bytes(bytes, hasher);
        },
        None => {},
    }
    hasher.finish()
}

/// A failure of the QUIC layer.
#[verifier::external_type_specification]
#[verifier::external_body]
pub struct ExQuicError(gm_quic::qbase::error::Error);

/// A failure to set up listening.
#[verifier::external_type_specification]
#[verifier::external_body]
pub struct ExBuildListenersError(gm_quic::prelude::BuildListenersError);

/// A failure of TLS.
#[verifier::external_type_specification]
#[verifier::external_body]
pub struct ExRustlsError(rustls::Error);

/// How a failure of the QUIC layer is reported.
pub fn base_error(err: gm_quic::qbase::error::Error) -> (r: QuicErrorRepr)
    ensures
        r matches QuicErrorRepr::QuicBaseError(m) && vstd::string::to_string_from_display_ensures(
            &err,
            m,
        ),
{
    QuicErrorRepr::QuicBaseError(err.to_string())
}

/// How a failure to set up listening is reported.
pub fn listeners_error(err: gm_quic::prelude::BuildListenersError) -> (r: QuicErrorRepr)
    ensures
        r matches QuicErrorRepr::QuicListenerBuilderError(m)
            && vstd::string::to_string_from_display_ensures(&err, m),
{
    QuicErrorRepr::QuicListenerBuilderError(err.to_string())
}

/// How a failure of TLS is reported.
pub fn rustls_error(err: rustls::Error) -> (r: SError)
    ensures
        r matches SError::RustlsError(m) && vstd::string::to_string_from_display_ensures(&err, m),
{
    SError::RustlsError(err.to_string())
}

/// At most 128 connections wait to be accepted.
pub proof fn law_listen_backlog()
    ensures
        LISTEN_BACKLOG == 128,
{
}

} // verus!
