use bytes::Bytes;
use shadowquic::addr::{IpAddr, SocketAddr};
use shadowquic::error::{IoErrorKind, SError};
use shadowquic::msgs::socks5::{
    AddrOrDomain, AuthReply, AuthReq, CmdReply, CmdReq, PasswordAuthReply, SocksAddr,
    UdpReqHeader, VarVec,
};
use shadowquic::socks::outbound::{
    associate_request, connect_request, control_stream_end, relay_addr, resolve_address,
    resolve_socks_address, validate_command_reply, Resolution, SocketOpt, SocksClient,
    SocksClientCfg,
};
use shadowquic::socks::udp::{send_to, RecvStep, UdpSocksWrap};

fn v4(ip: u32, port: u16) -> SocketAddr {
    SocketAddr::V4 { ip, port }
}

fn v6(ip: u128, port: u16) -> SocketAddr {
    SocketAddr::V6 { ip, port, flowinfo: 0, scope_id: 0 }
}

fn domain(name: &[u8], port: u16) -> SocksAddr {
    SocksAddr {
        addr: AddrOrDomain::Domain(VarVec { len: name.len() as u8, contents: name.to_vec() }),
        port,
    }
}

fn client(username: Option<&str>, password: Option<&str>) -> SocksClient {
    SocksClient::new(SocksClientCfg {
        addr: "proxy:1080".to_owned(),
        username: username.map(str::to_owned),
        password: password.map(str::to_owned),
        socket_opt: SocketOpt { bind_interface: Some("eth0".to_owned()), fw_mark: Some(7) },
    })
}

fn reply(version: u8, method: u8) -> AuthReply {
    AuthReply { version, method }
}

fn socks_error(error: SError) -> String {
    match error {
        SError::SocksError(m) => m,
        e => panic!("{e:?}"),
    }
}

#[test]
fn clients_open_sockets_as_configured() {
    let client = client(None, None);
    assert_eq!(client.cfg.addr, "proxy:1080");
    let tcp = &client.tcp_socket_factory;
    assert_eq!(tcp.addr, "proxy:1080");
    assert_eq!(tcp.interface.as_deref(), Some("eth0"));
    assert_eq!(tcp.fw_mark, Some(7));
    assert!(tcp.protect_path.is_none());
    let udp = client.udp_socket_factory("10.0.0.1:5".to_owned());
    assert_eq!(udp.addr, "10.0.0.1:5");
    assert_eq!(udp.interface.as_deref(), Some("eth0"));
    assert_eq!(udp.fw_mark, Some(7));
    assert!(udp.protect_path.is_none());
    assert!(!udp.try_dual_stack);
}

#[test]
fn clients_without_a_user_offer_no_authentication() {
    let client = client(None, Some("unused"));
    assert_eq!(client.auth_request().encode(), vec![5, 1, 0]);
    assert!(client.on_auth_reply(reply(5, 0)).unwrap().is_none());
    assert_eq!(
        socks_error(client.on_auth_reply(reply(5, 2)).err().unwrap()),
        "authenticate method not supported"
    );
    assert_eq!(
        socks_error(client.on_auth_reply(reply(4, 0)).err().unwrap()),
        "version not supported"
    );
}

#[test]
fn clients_with_a_user_send_name_and_password() {
    let client = client(Some("né"), Some("pw"));
    assert_eq!(client.auth_request().encode(), vec![5, 1, 2]);
    let message = client.on_auth_reply(reply(5, 2)).unwrap().unwrap();
    assert_eq!(message.encode(), vec![1, 3, b'n', 0xc3, 0xa9, 2, b'p', b'w']);
    assert_eq!(
        socks_error(client.on_auth_reply(reply(5, 0)).err().unwrap()),
        "authenticate method not supported"
    );
    assert!(client.on_password_reply(PasswordAuthReply { version: 1, status: 0 }).is_ok());
    assert_eq!(
        socks_error(
            client.on_password_reply(PasswordAuthReply { version: 1, status: 1 }).err().unwrap()
        ),
        "authenticate failed"
    );
}

#[test]
fn unusable_credentials_are_refused() {
    let long = "x".repeat(256);
    let longest = "x".repeat(255);
    let refused = |username: &str, password: Option<&str>| {
        socks_error(client(Some(username), password).on_auth_reply(reply(5, 2)).err().unwrap())
    };
    assert_eq!(refused("u", None), "password not provided");
    assert_eq!(refused(&long, Some("p")), "username exceeds 255 bytes");
    assert_eq!(refused("u", Some(&long)), "password exceeds 255 bytes");
    assert_eq!(refused(&long, Some(&long)), "username exceeds 255 bytes");
    assert_eq!(refused(&long, None), "password not provided");
    let client = client(Some(&longest), Some(&longest));
    let message = client.on_auth_reply(reply(5, 2)).unwrap().unwrap();
    assert_eq!(message.encode().len(), 1 + 256 + 256);
}

#[test]
fn commands_name_what_is_asked_for() {
    let request: CmdReq = connect_request(domain(b"a.b", 80));
    assert_eq!(request.encode(), vec![5, 1, 0, 3, 3, b'a', b'.', b'b', 0, 80]);
    let request = associate_request(SocksAddr::from(v4(0, 0)));
    assert_eq!(request.encode(), vec![5, 3, 0, 1, 0, 0, 0, 0, 0, 0]);
}

#[test]
fn command_replies_are_validated() {
    let reply = |version: u8, rep: u8| CmdReply {
        version,
        rep,
        rsv: 0,
        bind_addr: SocksAddr::from(v4(0, 0)),
    };
    assert!(validate_command_reply(&reply(5, 0)).is_ok());
    assert_eq!(
        socks_error(validate_command_reply(&reply(5, 1)).err().unwrap()),
        "SOCKS command failed with reply code 1"
    );
    assert_eq!(
        socks_error(validate_command_reply(&reply(5, 255)).err().unwrap()),
        "SOCKS command failed with reply code 255"
    );
    assert_eq!(
        socks_error(validate_command_reply(&reply(4, 0)).err().unwrap()),
        "SOCKS command failed with reply code 0"
    );
}

#[test]
fn an_unspecified_relay_is_at_the_server() {
    let server = v4(0x0a00_0001, 1080);
    assert_eq!(relay_addr(v4(0, 99), server), v4(0x0a00_0001, 99));
    assert_eq!(relay_addr(v6(0, 99), server), v4(0x0a00_0001, 99));
    assert_eq!(relay_addr(v4(5, 99), server), v4(5, 99));
    assert_eq!(
        relay_addr(SocketAddr::V6 { ip: 0, port: 9, flowinfo: 3, scope_id: 4 }, v6(7, 1)),
        SocketAddr::V6 { ip: 7, port: 9, flowinfo: 3, scope_id: 4 }
    );
}

#[test]
fn the_end_of_the_control_stream_ends_the_session() {
    assert!(control_stream_end(None).is_ok());
    assert!(matches!(
        control_stream_end(Some(Err("early eof".to_owned()))),
        Err(SError::UDPSessionClosed(m)) if m == "early eof"
    ));
    assert!(matches!(
        control_stream_end(Some(Ok(()))),
        Err(SError::UDPSessionClosed(m))
            if m == "unexpected data received from socks control stream"
    ));
}

#[test]
fn the_first_resolved_address_counts() {
    assert_eq!(resolve_address("a:1", &vec![v4(1, 1), v4(2, 1)]).unwrap(), v4(1, 1));
    assert!(matches!(
        resolve_address("a:1", &vec![]),
        Err(SError::DomainResolveFailed(m)) if m == "a:1"
    ));
}

#[test]
fn names_are_looked_up_and_addresses_are_not() {
    assert!(matches!(
        resolve_socks_address(&SocksAddr::from(v4(1, 2))),
        Ok(Resolution::Addr(a)) if a == v4(1, 2)
    ));
    assert!(matches!(
        resolve_socks_address(&SocksAddr::from(v6(1, 2))),
        Ok(Resolution::Addr(a)) if a == v6(1, 2)
    ));
    assert!(matches!(
        resolve_socks_address(&domain("exämple.org".as_bytes(), 8443)),
        Ok(Resolution::Lookup(m)) if m == "exämple.org:8443"
    ));
    assert_eq!(
        socks_error(resolve_socks_address(&domain(b"a\xff", 1)).err().unwrap()),
        "invalid utf-8 sequence of 1 bytes from index 1"
    );
}

#[test]
fn sent_packets_are_received() {
    let dst = domain(b"a.b", 443);
    let packet = send_to(Bytes::from_static(b"payload"), dst.copy());
    assert_eq!(packet, Bytes::from_static(b"\0\0\0\x03\x03a.b\x01\xbbpayload"));

    let peer = v4(0x0a00_0001, 5000);
    let mut wrap = UdpSocksWrap::inbound(None);
    match wrap.recv_from(&packet, v6(0xffff_0a00_0001, 5000)).unwrap() {
        RecvStep::Deliver { connect, payload, dst: d } => {
            assert_eq!(connect, Some(peer));
            assert_eq!(payload, Bytes::from_static(b"payload"));
            assert!(d.same(&dst));
        }
        RecvStep::Drop => panic!("dropped"),
    }
    wrap.record_remote(peer);
    wrap.record_remote(v4(1, 1));
    assert_eq!(wrap.remote, Some(peer));
    assert!(matches!(
        wrap.recv_from(&packet, v4(1, 1)),
        Ok(RecvStep::Deliver { connect: None, .. })
    ));
    assert!(matches!(
        UdpSocksWrap::connected(peer).recv_from(&packet, v4(9, 9)),
        Ok(RecvStep::Deliver { connect: None, .. })
    ));
}

#[test]
fn packets_of_strangers_are_dropped() {
    let wrap = UdpSocksWrap::inbound(Some(IpAddr::V6(0xffff_0a00_0001)));
    assert_eq!(wrap.allowed_peer_ip, Some(IpAddr::V4(0x0a00_0001)));
    let packet = send_to(Bytes::new(), domain(b"a", 1));
    assert!(matches!(
        wrap.recv_from(&packet, v4(0x0a00_0001, 7)),
        Ok(RecvStep::Deliver { .. })
    ));
    assert!(matches!(wrap.recv_from(&packet, v4(0x0a00_0002, 7)), Ok(RecvStep::Drop)));
    assert!(matches!(wrap.recv_from(&Bytes::new(), v4(0x0a00_0002, 7)), Ok(RecvStep::Drop)));
}

#[test]
fn fragments_and_broken_packets_are_not_delivered() {
    let wrap = UdpSocksWrap::inbound(None);
    let fragment = UdpReqHeader { rsv: 0, frag: 1, dst: domain(b"a", 1) }.encode();
    assert!(matches!(wrap.recv_from(&Bytes::from(fragment), v4(1, 1)), Ok(RecvStep::Drop)));
    assert!(matches!(
        wrap.recv_from(&Bytes::from_static(b"\0\0\0\x01\x7f"), v4(1, 1)),
        Err(SError::Io(e)) if e.kind == IoErrorKind::UnexpectedEof
    ));
    assert!(matches!(
        wrap.recv_from(&Bytes::from_static(b"\0\0\0\x09\x7f"), v4(1, 1)),
        Err(SError::ProtocolViolation)
    ));
}

#[test]
fn replies_are_read_off_the_front() {
    assert!(matches!(
        AuthReply::decode(&[5, 2, 9]),
        Ok((AuthReply { version: 5, method: 2 }, 2))
    ));
    assert!(matches!(AuthReply::decode(&[5]), Err(SError::Io(_))));
    assert!(matches!(
        PasswordAuthReply::decode(&[1, 0]),
        Ok((PasswordAuthReply { version: 1, status: 0 }, 2))
    ));
    assert!(matches!(PasswordAuthReply::decode(&[]), Err(SError::Io(_))));
    let (reply, used) = CmdReply::decode(&[5, 0, 0, 1, 127, 0, 0, 1, 0, 53, 77]).unwrap();
    assert_eq!((reply.version, reply.rep, reply.rsv, used), (5, 0, 0, 10));
    assert!(reply.bind_addr.same(&SocksAddr::from(v4(0x7f00_0001, 53))));
    assert!(matches!(CmdReply::decode(&[5, 0, 0, 1, 127]), Err(SError::Io(_))));
    assert!(matches!(CmdReply::decode(&[5, 0, 0, 2]), Err(SError::ProtocolViolation)));
    let request = AuthReq { version: 5, methods: VarVec { len: 2, contents: vec![0, 2] } };
    assert_eq!(request.encode(), vec![5, 2, 0, 2]);
}
