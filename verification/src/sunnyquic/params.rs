//! Transport parameters of QUIC endpoints.

use gm_quic::qbase::param::{ClientParameters, ParameterId, ServerParameters};
use vstd::prelude::*;
use vstd::slice::slice_to_vec;
use vstd::utf8;

use crate::error::{QuicErrorRepr, SError, SResult};

verus! {

/// The role of a client.
#[verifier::external_type_specification]
#[verifier::external_body]
pub struct ExClient(gm_quic::qbase::role::Client);

/// The role of a server.
#[verifier::external_type_specification]
#[verifier::external_body]
pub struct ExServer(gm_quic::qbase::role::Server);

/// The transport parameters of an endpoint, by their ids.
#[verifier::external_type_specification]
#[verifier::external_body]
#[verifier::reject_recursive_types(Role)]
pub struct ExParameters<Role>(gm_quic::qbase::param::core::Parameters<Role>);

/// Why a transport parameter is refused.
#[verifier::external_type_specification]
#[verifier::external_body]
pub struct ExParameterError(gm_quic::qbase::param::error::Error);

/// The transport parameters that the endpoints set.
#[derive(Clone, Copy, Debug, PartialEq, Eq, Structural)]
pub enum Parameter {
    InitialMaxData,
    InitialMaxStreamDataBidiLocal,
    InitialMaxStreamDataBidiRemote,
    MaxDatagramFrameSize,
}

impl Parameter {
    /// The id that QUIC gives the parameter.
    pub open spec fn id(self) -> u64 {
        match self {
            Parameter::InitialMaxData => 0x04,
            Parameter::InitialMaxStreamDataBidiLocal => 0x05,
            Parameter::InitialMaxStreamDataBidiRemote => 0x06,
            Parameter::MaxDatagramFrameSize => 0x20,
        }
    }
}

/// The parameters of a client whose values are integers.
pub uninterp spec fn client_integers(params: ClientParameters) -> Map<u64, u64>;

/// The parameters of a server whose values are integers.
pub uninterp spec fn server_integers(params: ServerParameters) -> Map<u64, u64>;

/// The integer parameters that an endpoint starts from: the limits on data, on streams and on
/// connection ids.
pub open spec fn initial_integers() -> Map<u64, u64> {
    map![
        0x04u64 => 0x10_0000u64,
        0x05u64 => 0x10_0000u64,
        0x06u64 => 0x10_0000u64,
        0x07u64 => 0x10_0000u64,
        0x08u64 => 100u64,
        0x09u64 => 100u64,
        0x0eu64 => 10u64,
    ]
}

/// Calls `handy::client_parameters`, which sets the limits on data, on streams and on
/// connection ids. It also sets an idle timeout, of which nothing is said here.
#[verifier::external_body]
fn new_client() -> (r: ClientParameters)
    ensures
        client_integers(r) == initial_integers(),
{
    gm_quic::prelude::handy::client_parameters()
}

/// Calls `handy::server_parameters`, which sets the limits on data, on streams and on
/// connection ids. It also sets an idle timeout, of which nothing is said here.
#[verifier::external_body]
fn new_server() -> (r: ServerParameters)
    ensures
        server_integers(r) == initial_integers(),
{
    gm_quic::prelude::handy::server_parameters()
}

/// Calls `Parameters::set` on a client's parameters. Each of these parameters may be set by
/// either role and to any integer, so that it succeeds and the parameter has that value.
#[verifier::external_body]
fn set_client(params: &mut ClientParameters, parameter: Parameter, value: u32) -> (r: Result<
    (),
    gm_quic::qbase::param::error::Error,
>)
    ensures
        r is Ok,
        client_integers(*final(params)) == client_integers(*old(params)).insert(
            parameter.id(),
            value as u64,
        ),
{
    let id = match parameter {
        Parameter::InitialMaxData => ParameterId::InitialMaxData,
        Parameter::InitialMaxStreamDataBidiLocal => ParameterId::InitialMaxStreamDataBidiLocal,
        Parameter::InitialMaxStreamDataBidiRemote => ParameterId::InitialMaxStreamDataBidiRemote,
        Parameter::MaxDatagramFrameSize => ParameterId::MaxDatagramFrameSize,
    };
    params.set(id, value)
}

/// Calls `Parameters::set` on a server's parameters. Each of these parameters may be set by
/// either role and to any integer, so that it succeeds and the parameter has that value.
#[verifier::external_body]
fn set_server(params: &mut ServerParameters, parameter: Parameter, value: u32) -> (r: Result<
    (),
    gm_quic::qbase::param::error::Error,
>)
    ensures
        r is Ok,
        server_integers(*final(params)) == server_integers(*old(params)).insert(
            parameter.id(),
            value as u64,
        ),
{
    let id = match parameter {
        Parameter::InitialMaxData => ParameterId::InitialMaxData,
        Parameter::InitialMaxStreamDataBidiLocal => ParameterId::InitialMaxStreamDataBidiLocal,
        Parameter::InitialMaxStreamDataBidiRemote => ParameterId::InitialMaxStreamDataBidiRemote,
        Parameter::MaxDatagramFrameSize => ParameterId::MaxDatagramFrameSize,
    };
    params.set(id, value)
}

/// How a refused transport parameter is reported.
fn parameter_error(error: gm_quic::qbase::param::error::Error) -> (r: SError)
    ensures
        r matches SError::QuicError(QuicErrorRepr::QuicBaseError(m))
            && vstd::string::to_string_from_display_ensures(&error, m),
{
    SError::QuicError(QuicErrorRepr::QuicBaseError(error.to_string()))
}

/// The values that an endpoint sets: how much data may be under way, on the connection and on
/// each stream opened by either side, and how long a datagram may be.
pub open spec fn with_limits(
    integers: Map<u64, u64>,
    max_data: u64,
    max_stream_data: u64,
    max_datagram: u64,
) -> Map<u64, u64> {
    integers.insert(Parameter::InitialMaxData.id(), max_data).insert(
        Parameter::InitialMaxStreamDataBidiLocal.id(),
        max_stream_data,
    ).insert(Parameter::InitialMaxStreamDataBidiRemote.id(), max_stream_data).insert(
        Parameter::MaxDatagramFrameSize.id(),
        max_datagram,
    )
}

/// The longest datagram that an endpoint takes.
pub const MAX_DATAGRAM_FRAME_SIZE: u32 = 2000;

/// How much data a client lets be under way on a connection.
pub const CLIENT_MAX_DATA: u32 = 33554432;

/// How much data a client lets be under way on a stream.
pub const CLIENT_MAX_STREAM_DATA: u32 = 16777216;

/// How much data a server lets be under way on a connection.
pub const SERVER_MAX_DATA: u32 = 16777216;

/// How much data a server lets be under way on a stream.
pub const SERVER_MAX_STREAM_DATA: u32 = 8388608;

/// The transport parameters of a client.
pub fn client_parameters() -> (r: SResult<ClientParameters>)
    ensures
        r matches Ok(params) && client_integers(params) == with_limits(
            initial_integers(),
            CLIENT_MAX_DATA as u64,
            CLIENT_MAX_STREAM_DATA as u64,
            MAX_DATAGRAM_FRAME_SIZE as u64,
        ),
        r matches Ok(params) ==> client_integers(params) == map![
            0x04u64 => 33554432u64,
            0x05u64 => 16777216u64,
            0x06u64 => 16777216u64,
            0x07u64 => 1048576u64,
            0x08u64 => 100u64,
            0x09u64 => 100u64,
            0x0eu64 => 10u64,
            0x20u64 => 2000u64,
        ],
{
    let mut params = new_client();
    match set_client(&mut params, Parameter::InitialMaxData, CLIENT_MAX_DATA) {
        Ok(()) => {},
        Err(e) => {
            return Err(parameter_error(e));
        },
    }
    match set_client(
        &mut params,
        Parameter::InitialMaxStreamDataBidiLocal,
        CLIENT_MAX_STREAM_DATA,
    ) {
        Ok(()) => {},
        Err(e) => {
            return Err(parameter_error(e));
        },
    }
    match set_client(
        &mut params,
        Parameter::InitialMaxStreamDataBidiRemote,
        CLIENT_MAX_STREAM_DATA,
    ) {
        Ok(()) => {},
        Err(e) => {
            return Err(parameter_error(e));
        },
    }
    match set_client(&mut params, Parameter::MaxDatagramFrameSize, MAX_DATAGRAM_FRAME_SIZE) {
        Ok(()) => {},
        Err(e) => {
            return Err(parameter_error(e));
        },
    }
    Ok(params)
}

/// The transport parameters of a server.
pub fn server_parameters() -> (r: SResult<ServerParameters>)
    ensures
        r matches Ok(params) && server_integers(params) == with_limits(
            initial_integers(),
            SERVER_MAX_DATA as u64,
            SERVER_MAX_STREAM_DATA as u64,
            MAX_DATAGRAM_FRAME_SIZE as u64,
        ),
        r matches Ok(params) ==> server_integers(params) == map![
            0x04u64 => 16777216u64,
            0x05u64 => 8388608u64,
            0x06u64 => 8388608u64,
            0x07u64 => 1048576u64,
            0x08u64 => 100u64,
            0x09u64 => 100u64,
            0x0eu64 => 10u64,
            0x20u64 => 2000u64,
        ],
{
    let mut params = new_server();
    match set_server(&mut params, Parameter::InitialMaxData, SERVER_MAX_DATA) {
        Ok(()) => {},
        Err(e) => {
            return Err(parameter_error(e));
        },
    }
    match set_server(
        &mut params,
        Parameter::InitialMaxStreamDataBidiLocal,
        SERVER_MAX_STREAM_DATA,
    ) {
        Ok(()) => {},
        Err(e) => {
            return Err(parameter_error(e));
        },
    }
    match set_server(
        &mut params,
        Parameter::InitialMaxStreamDataBidiRemote,
        SERVER_MAX_STREAM_DATA,
    ) {
        Ok(()) => {},
        Err(e) => {
            return Err(parameter_error(e));
        },
    }
    match set_server(&mut params, Parameter::MaxDatagramFrameSize, MAX_DATAGRAM_FRAME_SIZE) {
        Ok(()) => {},
        Err(e) => {
            return Err(parameter_error(e));
        },
    }
    Ok(params)
}

/// The names of the application protocols that an endpoint offers, as they go onto the wire: the
/// bytes of each, in the same order.
pub fn alpn_names(alpn: &Vec<String>) -> (r: Vec<Vec<u8>>)
    ensures
        r@.len() == alpn@.len(),
        forall|i: int|
            0 <= i < r@.len() ==> (#[trigger] r@[i])@ == utf8::encode_utf8(alpn@[i]@),
{
    let mut names: Vec<Vec<u8>> = Vec::new();
    let mut i: usize = 0;
    while i < alpn.len()
        invariant
            i <= alpn@.len(),
            names@.len() == i,
            forall|j: int|
                0 <= j < i ==> (#[trigger] names@[j])@ == utf8::encode_utf8(alpn@[j]@),
        decreases alpn@.len() - i,
    {
        names.push(slice_to_vec(alpn[i].as_str().as_bytes()));
        i = i + 1;
    }
    names
}

/// A client and a server take datagrams up to the same length.
pub proof fn law_both_ends_take_the_same_datagrams(
    client: ClientParameters,
    server: ServerParameters,
)
    requires
        client_integers(client) == with_limits(
            initial_integers(),
            CLIENT_MAX_DATA as u64,
            CLIENT_MAX_STREAM_DATA as u64,
            MAX_DATAGRAM_FRAME_SIZE as u64,
        ),
        server_integers(server) == with_limits(
            initial_integers(),
            SERVER_MAX_DATA as u64,
            SERVER_MAX_STREAM_DATA as u64,
            MAX_DATAGRAM_FRAME_SIZE as u64,
        ),
    ensures
        client_integers(client)[Parameter::MaxDatagramFrameSize.id()]
            == server_integers(server)[Parameter::MaxDatagramFrameSize.id()],
{
}

/// Setting the limits sets the four parameters with the ids 4, 5, 6 and 32, and no other.
pub proof fn law_limits_are_set(
    integers: Map<u64, u64>,
    max_data: u64,
    max_stream_data: u64,
    max_datagram: u64,
    id: u64,
)
    ensures
        ({
            let after = with_limits(integers, max_data, max_stream_data, max_datagram);
            &&& after.contains_key(4) && after[4] == max_data
            &&& after.contains_key(5) && after[5] == max_stream_data
            &&& after.contains_key(6) && after[6] == max_stream_data
            &&& after.contains_key(32) && after[32] == max_datagram
            &&& id != 4 && id != 5 && id != 6 && id != 32 ==> (after.contains_key(id)
                <==> integers.contains_key(id)) && after[id] == integers[id]
        }),
{
}

} // verus!
