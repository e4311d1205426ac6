use gm_quic::qbase::param::ParameterId;
use shadowquic::addr::SocketAddr;
use shadowquic::error::{IoErrorKind, QuicErrorRepr, SError};
use shadowquic::manager::{run_step, Action, Event, Report};
use shadowquic::msgs::socks5::{AddrOrDomain, SocksAddr};
use shadowquic::session::{
    live_address, ProxyRequest, PacketReceiver, PacketSender, Stoppable, TcpSession, UdpSession, UserContext,
    WeakConnection,
};
use shadowquic::sunnyquic::endpoint::{
    accepted_address, base_error, connection_id, listeners_error, opened, rustls_error, update_config,
    LISTEN_BACKLOG,
};
use shadowquic::sunnyquic::params::{alpn_names, client_parameters, server_parameters};
use shadowquic::utils::platform::fallback::bind_device;
use std::collections::hash_map::DefaultHasher;
use std::hash::{Hash, Hasher};
use std::sync::{Arc, Weak};

struct TestConnection(SocketAddr);

struct Live(Arc<TestConnection>);

struct Handle(Weak<TestConnection>);

impl Stoppable for Live {
    fn stop(&self) {}

    fn remote_address(&self) -> Option<SocketAddr> {
        Some(self.0 .0)
    }
}

impl WeakConnection for Handle {
    type Live = Live;

    fn upgrade(&self) -> Option<Live> {
        self.0.upgrade().map(Live)
    }
}

struct Nameless;

impl Stoppable for Nameless {
    fn stop(&self) {}
}

fn expected_address() -> SocketAddr {
    // 203.0.113.8:443
    SocketAddr::V4 { ip: 0xcb00_7108, port: 443 }
}

fn context(connection: &Arc<TestConnection>) -> UserContext<Handle> {
    UserContext {
        username: "test".to_owned(),
        conn_handle: Handle(Arc::downgrade(connection)),
        conn_id: 1,
    }
}

fn dst() -> SocksAddr {
    SocksAddr { addr: AddrOrDomain::V4(1), port: 2 }
}

type Request = ProxyRequest<(), (), (), (), Handle>;

#[test]
fn user_context_exposes_live_connection_remote_address() {
    let expected = expected_address();
    let connection = Arc::new(TestConnection(expected));
    let context = context(&connection);

    assert_eq!(context.remote_address(), Some(expected));
    assert_eq!(context.username(), "test");
    drop(connection);
    assert_eq!(context.remote_address(), None);
}

#[test]
fn requests_tell_their_user() {
    let connection = Arc::new(TestConnection(expected_address()));
    let tcp: Request = ProxyRequest::Tcp(TcpSession {
        stream: (),
        dst: dst(),
        user_context: Some(context(&connection)),
    });
    let udp: Request = ProxyRequest::Udp(UdpSession {
        recv: (),
        send: (),
        stream: None,
        bind_addr: dst(),
        user_context: Some(context(&connection)),
    });
    for request in [&tcp, &udp] {
        assert_eq!(request.username(), Some("test"));
        assert_eq!(request.remote_address(), Some(expected_address()));
    }
    drop(connection);
    for request in [&tcp, &udp] {
        assert_eq!(request.username(), Some("test"));
        assert_eq!(request.remote_address(), None);
    }
    let anonymous: Request =
        ProxyRequest::Tcp(TcpSession { stream: (), dst: dst(), user_context: None });
    assert_eq!(anonymous.username(), None);
    assert_eq!(anonymous.remote_address(), None);
}

#[test]
fn connections_need_not_know_their_peer() {
    assert_eq!(live_address(Some(Nameless)), None);
    assert_eq!(live_address::<Nameless>(None), None);
}

#[test]
fn channels_report_that_the_other_end_is_gone() {
    let send = PacketSender { end: () };
    assert_eq!(send.send_to(7, true).unwrap(), 7);
    assert!(matches!(send.send_to(7, false), Err(SError::InboundUnavailable)));
    let receive = PacketReceiver { end: () };
    assert_eq!(receive.recv_from(Some("x")).unwrap(), "x");
    assert!(matches!(receive.recv_from::<&str>(None), Err(SError::OutboundUnavailable)));
}

#[test]
fn packets_are_received_as_they_were_sent() {
    let (tx, rx) = tokio::sync::mpsc::channel(8);
    let send = PacketSender { end: tx };
    let mut receive = PacketReceiver { end: rx };
    for packet in ["one", "three", "five"] {
        let accepted = send.end.try_send(packet).is_ok();
        assert_eq!(send.send_to(packet.len(), accepted).unwrap(), packet.len());
    }
    drop(send);
    for packet in ["one", "three", "five"] {
        let handed_out = receive.end.try_recv().ok();
        assert_eq!(receive.recv_from(handed_out).unwrap(), packet);
    }
    let handed_out = receive.end.try_recv().ok();
    assert!(matches!(receive.recv_from(handed_out), Err(SError::OutboundUnavailable)));
}

#[test]
fn the_manager_goes_on_after_errors() {
    let next = |event: Event<u32>| run_step(event);
    assert!(matches!(next(Event::Initialized(Ok(()))), (Action::Accept, Report::Nothing)));
    assert!(matches!(
        next(Event::Initialized(Err(SError::ProtocolUnimpl))),
        (Action::Stop(SError::ProtocolUnimpl), Report::Nothing)
    ));
    assert!(matches!(next(Event::Accepted(Ok(4))), (Action::Handle(4), Report::Nothing)));
    assert!(matches!(
        next(Event::Accepted(Err(SError::ProtocolViolation))),
        (Action::Accept, Report::Accepting(SError::ProtocolViolation))
    ));
    assert!(matches!(next(Event::Handled(Ok(()))), (Action::Accept, Report::Nothing)));
    assert!(matches!(
        next(Event::Handled(Err(SError::OutboundUnavailable))),
        (Action::Accept, Report::Handling(SError::OutboundUnavailable))
    ));
}

#[test]
fn transport_parameters_are_set() {
    let client = client_parameters().unwrap();
    let server = server_parameters().unwrap();
    let expected = [
        (ParameterId::InitialMaxData, 32 << 20, 16 << 20),
        (ParameterId::InitialMaxStreamDataBidiLocal, 16 << 20, 8 << 20),
        (ParameterId::InitialMaxStreamDataBidiRemote, 16 << 20, 8 << 20),
        (ParameterId::InitialMaxStreamDataUni, 1 << 20, 1 << 20),
        (ParameterId::MaxDatagramFrameSize, 2000, 2000),
        (ParameterId::InitialMaxStreamsBidi, 100, 100),
        (ParameterId::InitialMaxStreamsUni, 100, 100),
        (ParameterId::ActiveConnectionIdLimit, 10, 10),
    ];
    for (id, at_client, at_server) in expected {
        assert_eq!(client.get::<u64>(id), Some(at_client));
        assert_eq!(server.get::<u64>(id), Some(at_server));
    }
}

#[test]
fn protocol_names_are_offered_in_order() {
    let names = alpn_names(&vec!["h3".to_owned(), "é".to_owned()]);
    assert_eq!(names, vec![b"h3".to_vec(), vec![0xc3, 0xa9]]);
    assert!(alpn_names(&Vec::new()).is_empty());
}

#[test]
fn endpoints_report_what_is_missing() {
    assert_eq!(LISTEN_BACKLOG, 128);
    assert_eq!(opened(Some(3)).unwrap(), 3);
    assert!(matches!(opened::<u32>(None), Err(QuicErrorRepr::EndpointClosed)));
    assert_eq!(accepted_address(Some(expected_address())).unwrap(), expected_address());
    assert!(matches!(
        accepted_address(None),
        Err(QuicErrorRepr::ProtocolUnsupportedAddress)
    ));
    assert!(matches!(update_config(), Err(SError::ProtocolUnimpl)));
}

#[test]
fn connections_are_numbered_by_their_id() {
    let none = DefaultHasher::new().finish();
    assert_eq!(connection_id(None), none);
    let mut hasher = DefaultHasher::new();
    [1u8, 2, 3][..].hash(&mut hasher);
    assert_eq!(connection_id(Some(&[1, 2, 3])), hasher.finish());
    assert_ne!(connection_id(Some(&[1, 2, 3])), none);
}

#[test]
fn outside_errors_keep_their_words() {
    let error = rustls::Error::DecryptError;
    let words = error.to_string();
    assert!(matches!(rustls_error(error), SError::RustlsError(m) if m == words));
    let error = gm_quic::qbase::error::Error::Quic(
        gm_quic::qbase::error::QuicError::with_default_fty(
            gm_quic::qbase::error::ErrorKind::Internal,
            "reason",
        ),
    );
    let words = error.to_string();
    assert!(words.contains("reason"));
    assert!(matches!(base_error(error), QuicErrorRepr::QuicBaseError(m) if m == words));
    let error = gm_quic::prelude::BuildListenersError::AlreadyRunning;
    let words = error.to_string();
    assert!(matches!(
        listeners_error(error),
        QuicErrorRepr::QuicListenerBuilderError(m) if m == words
    ));
}

#[test]
fn interfaces_cannot_be_bound_to_everywhere() {
    let socket =
        socket2::Socket::new(socket2::Domain::IPV4, socket2::Type::DGRAM, None).unwrap();
    let error = bind_device(&socket, "eth\"0").unwrap_err();
    assert_eq!(error.kind, IoErrorKind::Unsupported);
    assert_eq!(
        error.message,
        "binding to interface \"eth\\\"0\" is unsupported on this platform"
    );
}
