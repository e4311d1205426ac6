use bytes::Bytes;
use shadowquic::addr::SocketAddr;
use shadowquic::error::SError;
use shadowquic::msgs::socks5::{AddrOrDomain, SocksAddr, VarVec};
use shadowquic::squic::addr_map::AddrMap;
use shadowquic::squic::auth::{
    auth_sunny, wait_sunny_auth, AuthAction, AuthEvent, AUTH_TIMEOUT_MILLIS,
};
use shadowquic::squic::id_store::{
    Feed, IDStore, SocketLookup, MAX_CONTEXT_IDS, MAX_PENDING_BYTES_PER_CONTEXT,
    MAX_PENDING_CONTEXTS, MAX_PENDING_PACKETS_PER_CONTEXT,
};
use shadowquic::squic::udp::{
    frame_len, receive_datagram, split_datagram, stream_step, AssociateRecvSession,
    AssociateSendSession, PacketPlan, StreamStep,
};

fn target() -> SocksAddr {
    SocksAddr::from(SocketAddr::V4 { ip: 0x7f00_0001, port: 53 })
}

fn other_target() -> SocksAddr {
    SocksAddr {
        addr: AddrOrDomain::Domain(VarVec { len: 3, contents: b"a.b".to_vec() }),
        port: 443,
    }
}

#[test]
fn pending_datagrams_are_bounded() {
    let mut store: IDStore<u32> = IDStore::default();
    for _ in 0..MAX_PENDING_PACKETS_PER_CONTEXT {
        store.feed_datagram(1, Bytes::from_static(b"x")).unwrap();
    }
    assert!(matches!(
        store.feed_datagram(1, Bytes::from_static(b"x")),
        Err(SError::ProtocolViolation)
    ));

    let mut store: IDStore<u32> = IDStore::default();
    assert!(matches!(
        store.feed_datagram(1, Bytes::from(vec![0; MAX_PENDING_BYTES_PER_CONTEXT + 1])),
        Err(SError::ProtocolViolation)
    ));
}

#[test]
fn pending_contexts_are_bounded() {
    let mut store: IDStore<u32> = IDStore::default();
    for id in 0..MAX_PENDING_CONTEXTS as u16 {
        store.feed_datagram(id, Bytes::from_static(b"x")).unwrap();
    }
    assert!(matches!(
        store.feed_datagram(MAX_PENDING_CONTEXTS as u16, Bytes::from_static(b"x")),
        Err(SError::ProtocolViolation)
    ));
}

#[test]
fn installing_socket_releases_lock_before_io_and_rejects_duplicates() {
    let mut store: IDStore<(u32, SocksAddr)> = IDStore::default();
    store.feed_datagram(7, Bytes::from_static(b"buffered")).unwrap();
    let pending = store.store_socket_with_prelude(7, (1, target())).unwrap().unwrap();

    let (_notify, packets) = pending.into_parts();
    assert!(store.try_get_socket(7).is_some());
    assert_eq!(packets.as_slice(), [Bytes::from_static(b"buffered")]);
    assert!(matches!(
        store.store_socket_with_prelude(7, (1, target())),
        Err(SError::ProtocolViolation)
    ));
}

#[test]
fn context_id_exhaustion_returns_an_error() {
    let mut store = IDStore::<()>::default();
    for id in 0..MAX_CONTEXT_IDS as u16 {
        assert!(store.store_socket_with_prelude(id, ()).unwrap().is_none());
    }
    assert!(matches!(store.fetch_new_id(()), Err(SError::ProtocolViolation)));
}

#[test]
fn pending_bytes_fill_up_exactly() {
    let mut store: IDStore<u32> = IDStore::default();
    let half = MAX_PENDING_BYTES_PER_CONTEXT / 2;
    store.feed_datagram(1, Bytes::from(vec![1; half])).unwrap();
    store.feed_datagram(1, Bytes::from(vec![2; half])).unwrap();
    assert!(matches!(
        store.feed_datagram(1, Bytes::from_static(b"x")),
        Err(SError::ProtocolViolation)
    ));
    assert!(matches!(store.feed_datagram(1, Bytes::new()), Ok(Feed::Buffered)));
}

#[test]
fn a_refused_datagram_opens_no_context() {
    let mut store: IDStore<u32> = IDStore::default();
    let long = Bytes::from(vec![0; MAX_PENDING_BYTES_PER_CONTEXT + 1]);
    assert!(store.feed_datagram(5, long).is_err());
    assert!(store.store_socket_with_prelude(5, 9).unwrap().is_none());
}

#[test]
fn early_packets_come_out_in_order() {
    let mut store: IDStore<u32> = IDStore::default();
    for packet in [&b"one"[..], b"two", b"three"] {
        assert!(matches!(
            store.feed_datagram(3, Bytes::copy_from_slice(packet)),
            Ok(Feed::Buffered)
        ));
    }
    assert!(store.try_get_socket(3).is_none());
    let (_notify, packets) = store.store_socket_with_prelude(3, 8).unwrap().unwrap().into_parts();
    assert_eq!(packets, vec![&b"one"[..], b"two", b"three"]);
    match store.feed_datagram(3, Bytes::from_static(b"four")) {
        Ok(Feed::Deliver(socket, packet)) => {
            assert_eq!(socket, 8);
            assert_eq!(packet, Bytes::from_static(b"four"));
        }
        _ => panic!("not delivered"),
    }
}

#[test]
fn waiting_ends_when_the_socket_is_announced() {
    let mut store: IDStore<u32> = IDStore::default();
    let first = match store.get_socket_or_notify(2) {
        Ok(SocketLookup::Wait(receiver)) => receiver,
        _ => panic!("not waiting"),
    };
    let second = match store.get_socket_or_notify(2) {
        Ok(SocketLookup::Wait(receiver)) => receiver,
        _ => panic!("not waiting"),
    };
    assert!(matches!(
        store.get_socket_after_wait(2, true),
        Err(SError::UDPSessionClosed(m)) if m == "UDP session closed"
    ));

    let (notify, packets) = store.store_socket_with_prelude(2, 6).unwrap().unwrap().into_parts();
    assert!(packets.is_empty());
    assert!(!first.has_changed().unwrap());
    notify.send(()).unwrap();
    assert!(first.has_changed().unwrap());
    assert!(second.has_changed().unwrap());
    assert_eq!(store.get_socket_after_wait(2, true).unwrap(), 6);
    assert!(matches!(
        store.get_socket_after_wait(2, false),
        Err(SError::UDPSessionClosed(m)) if m == "notify sender dropped"
    ));
    assert!(matches!(store.get_socket_or_notify(2), Ok(SocketLookup::Ready(6))));
}

#[test]
fn lookups_are_bounded_like_datagrams() {
    let mut store: IDStore<u32> = IDStore::default();
    for id in 0..MAX_PENDING_CONTEXTS as u16 {
        assert!(matches!(store.get_socket_or_notify(id), Ok(SocketLookup::Wait(_))));
    }
    assert!(matches!(store.get_socket_or_notify(500), Err(SError::ProtocolViolation)));
    assert!(matches!(store.get_socket_or_notify(0), Ok(SocketLookup::Wait(_))));
    store.store_socket_with_prelude(0, 1).unwrap();
    assert!(matches!(store.get_socket_or_notify(500), Ok(SocketLookup::Wait(_))));
}

#[test]
fn ids_count_up_and_skip_those_in_use() {
    let mut store = IDStore::<()>::default();
    store.store_socket_with_prelude(1, ()).unwrap();
    assert_eq!(store.fetch_new_id(()).unwrap(), 0);
    assert_eq!(store.fetch_new_id(()).unwrap(), 2);
    store.release(&vec![0, 2]);
    assert_eq!(store.fetch_new_id(()).unwrap(), 3);
    assert!(store.try_get_socket(0).is_none());
    assert!(store.try_get_socket(1).is_some());
}

#[test]
fn ids_wrap_around() {
    let mut store = IDStore::<()>::default();
    store.store_socket_with_prelude(0, ()).unwrap();
    let mut last = 0;
    for _ in 0..u16::MAX {
        last = store.fetch_new_id(()).unwrap();
        store.release(&vec![last]);
    }
    assert_eq!(last, u16::MAX);
    assert_eq!(store.fetch_new_id(()).unwrap(), 1);
}

#[test]
fn full_stores_refuse_new_contexts() {
    let mut store: IDStore<u32> = IDStore::default();
    store.feed_datagram(9999, Bytes::new()).unwrap();
    for id in 0..(MAX_CONTEXT_IDS - 1) as u16 {
        store.store_socket_with_prelude(id, 1).unwrap();
    }
    assert!(matches!(
        store.store_socket_with_prelude(5000, 1),
        Err(SError::ProtocolViolation)
    ));
    assert!(matches!(
        store.feed_datagram(5000, Bytes::new()),
        Err(SError::ProtocolViolation)
    ));
    assert!(matches!(store.get_socket_or_notify(5000), Err(SError::ProtocolViolation)));
    assert!(store.store_socket_with_prelude(9999, 1).unwrap().is_some());
}

#[test]
fn a_new_destination_is_announced_and_an_old_one_is_not() {
    let mut store = IDStore::<()>::default();
    let mut session: AssociateSendSession<Vec<u8>> = AssociateSendSession::new();
    let payload = Bytes::from_static(b"hello");

    let plan = session.prepare_send(&mut store, &target(), payload.clone(), false).unwrap();
    assert!(!plan.open_stream);
    assert_eq!(plan.control, Some(vec![1, 127, 0, 0, 1, 0, 53, 0, 0]));
    match plan.packet {
        PacketPlan::Datagram(bytes) => assert_eq!(bytes, Bytes::from_static(b"\0\0hello")),
        PacketPlan::Stream { .. } => panic!("not a datagram"),
    }

    let plan = session.prepare_send(&mut store, &target(), payload.clone(), false).unwrap();
    assert_eq!(plan.control, None);

    let plan = session.prepare_send(&mut store, &other_target(), payload, false).unwrap();
    assert_eq!(plan.control, Some(vec![3, 3, b'a', b'.', b'b', 1, 187, 0, 1]));
    match plan.packet {
        PacketPlan::Datagram(bytes) => assert_eq!(bytes, Bytes::from_static(b"\0\x01hello")),
        PacketPlan::Stream { .. } => panic!("not a datagram"),
    }
}

#[test]
fn streams_carry_the_id_once_and_lengths_always() {
    let mut store = IDStore::<()>::default();
    store.store_socket_with_prelude(0, ()).unwrap();
    let mut session: AssociateSendSession<Vec<u8>> = AssociateSendSession::new();
    let payload = Bytes::from_static(b"hello");

    let plan = session.prepare_send(&mut store, &target(), payload.clone(), true).unwrap();
    assert!(plan.open_stream);
    assert!(plan.control.is_some());
    assert!(matches!(session.stream_mut(&target()), Err(SError::ProtocolViolation)));
    session.insert_stream(&target(), Vec::new());
    match plan.packet {
        PacketPlan::Stream { head, payload } => {
            assert_eq!(head, vec![0, 1, 0, 5]);
            let stream = session.stream_mut(&target()).unwrap();
            stream.extend_from_slice(&head);
            stream.extend_from_slice(&payload);
        }
        PacketPlan::Datagram(_) => panic!("not a stream"),
    }

    let plan = session.prepare_send(&mut store, &target(), payload, true).unwrap();
    assert!(!plan.open_stream);
    assert!(plan.control.is_none());
    match plan.packet {
        PacketPlan::Stream { head, .. } => assert_eq!(head, vec![0, 5]),
        PacketPlan::Datagram(_) => panic!("not a stream"),
    }

    let sent = session.stream_mut(&target()).unwrap().clone();
    assert_eq!(sent, b"\0\x01\0\x05hello");
    assert_eq!(frame_len(&sent[2..]).unwrap(), 5);
}

#[test]
fn long_payloads_lose_the_upper_part_of_their_length() {
    let mut store = IDStore::<()>::default();
    let mut session: AssociateSendSession<()> = AssociateSendSession::new();
    session.get_id_or_insert(&mut store, &target()).unwrap();
    let plan = session
        .prepare_send(&mut store, &target(), Bytes::from(vec![0; 0x1_0002]), true)
        .unwrap();
    match plan.packet {
        PacketPlan::Stream { head, .. } => assert_eq!(head, vec![0, 2]),
        PacketPlan::Datagram(_) => panic!("not a stream"),
    }
    let plan = session
        .prepare_send(&mut store, &target(), Bytes::from(vec![0; 0xffff]), true)
        .unwrap();
    match plan.packet {
        PacketPlan::Stream { head, .. } => assert_eq!(head, vec![0xff, 0xff]),
        PacketPlan::Datagram(_) => panic!("not a stream"),
    }
}

#[test]
fn destinations_keep_their_ids_until_the_session_closes() {
    let mut store = IDStore::<()>::default();
    let mut session: AssociateSendSession<()> = AssociateSendSession::new();
    assert_eq!(session.get_id_or_insert(&mut store, &target()).unwrap(), (0, true));
    assert_eq!(session.get_id_or_insert(&mut store, &other_target()).unwrap(), (1, true));
    assert_eq!(session.get_id_or_insert(&mut store, &target()).unwrap(), (0, false));
    let mut second: AssociateSendSession<()> = AssociateSendSession::new();
    assert_eq!(second.get_id_or_insert(&mut store, &target()).unwrap(), (2, true));
    session.close(&mut store);
    assert!(store.try_get_socket(0).is_none());
    assert!(store.try_get_socket(1).is_none());
    assert!(store.try_get_socket(2).is_some());
}

#[test]
fn sending_fails_when_no_id_is_left() {
    let mut store = IDStore::<()>::default();
    for id in 0..MAX_CONTEXT_IDS as u16 {
        store.store_socket_with_prelude(id, ()).unwrap();
    }
    let mut session: AssociateSendSession<()> = AssociateSendSession::new();
    assert!(matches!(
        session.prepare_send(&mut store, &target(), Bytes::new(), false),
        Err(SError::ProtocolViolation)
    ));
    assert!(matches!(
        session.get_id_or_insert(&mut store, &target()),
        Err(SError::ProtocolViolation)
    ));
}

#[test]
fn announced_contexts_last_as_long_as_the_session() {
    let mut store: IDStore<(u32, SocksAddr)> = IDStore::default();
    let mut session = AssociateRecvSession::new();
    assert!(session.store_socket(&mut store, 4, target(), 1).unwrap().is_none());
    assert!(matches!(
        session.store_socket(&mut store, 4, target(), 1),
        Err(SError::ProtocolViolation)
    ));
    let mut other = AssociateRecvSession::new();
    assert!(matches!(
        other.store_socket(&mut store, 4, target(), 1),
        Err(SError::ProtocolViolation)
    ));
    store.store_socket_with_prelude(5, (2, target())).unwrap();
    session.close(&mut store);
    assert!(store.try_get_socket(4).is_none());
    assert!(store.try_get_socket(5).is_some());
}

#[test]
fn a_context_ends_with_its_session_even_if_its_packets_cannot_be_sent() {
    let mut store: IDStore<(u32, SocksAddr)> = IDStore::default();
    store.feed_datagram(4, Bytes::from_static(b"kept")).unwrap();
    let mut session = AssociateRecvSession::new();
    let pending = session.store_socket(&mut store, 4, target(), 1).unwrap().unwrap();
    let (_notify, packets) = pending.into_parts();
    assert_eq!(packets, vec![Bytes::from_static(b"kept")]);
    // Nothing more is done with the packets.
    session.close(&mut store);
    assert!(store.try_get_socket(4).is_none());
    assert!(store.store_socket_with_prelude(4, (2, target())).unwrap().is_none());
}

#[test]
fn datagrams_are_split_where_the_id_ends() {
    let (id, payload) = split_datagram(&Bytes::from_static(b"\x01\x02rest")).unwrap();
    assert_eq!(id, 0x0102);
    assert_eq!(payload, Bytes::from_static(b"rest"));
    let (id, payload) = split_datagram(&Bytes::from_static(b"\0\x07")).unwrap();
    assert_eq!(id, 7);
    assert!(payload.is_empty());
    assert!(matches!(split_datagram(&Bytes::from_static(b"\0")), Err(SError::Io(_))));
}

#[test]
fn datagrams_reach_the_socket_of_their_context() {
    let mut send_store = IDStore::<()>::default();
    let mut session: AssociateSendSession<()> = AssociateSendSession::new();
    let mut recv_store: IDStore<u32> = IDStore::default();
    let mut send = |payload: &'static [u8]| {
        let payload = Bytes::from_static(payload);
        match session.prepare_send(&mut send_store, &target(), payload, false).unwrap().packet {
            PacketPlan::Datagram(bytes) => bytes,
            PacketPlan::Stream { .. } => panic!("not a datagram"),
        }
    };
    let early = send(b"early");
    let late = send(b"late");
    assert!(matches!(receive_datagram(&mut recv_store, &early), Ok(Feed::Buffered)));
    let (_notify, packets) =
        recv_store.store_socket_with_prelude(0, 11).unwrap().unwrap().into_parts();
    assert_eq!(packets, vec![Bytes::from_static(b"early")]);
    match receive_datagram(&mut recv_store, &late) {
        Ok(Feed::Deliver(socket, payload)) => {
            assert_eq!(socket, 11);
            assert_eq!(payload, Bytes::from_static(b"late"));
        }
        _ => panic!("not delivered"),
    }
    assert!(receive_datagram(&mut recv_store, &Bytes::new()).is_err());
}

#[test]
fn a_closed_session_costs_one_stream_only() {
    assert!(matches!(stream_step(Ok(3)), StreamStep::Serve(3)));
    assert!(matches!(
        stream_step::<u32>(Err(SError::UDPSessionClosed(String::new()))),
        StreamStep::Skip
    ));
    assert!(matches!(
        stream_step::<u32>(Err(SError::ProtocolViolation)),
        StreamStep::Fail(SError::ProtocolViolation)
    ));
    assert!(matches!(frame_len(&[0]), Err(SError::Io(_))));
}

#[test]
fn authentication_outcomes_are_told_apart() {
    assert_eq!(AUTH_TIMEOUT_MILLIS, 3200);
    assert_eq!(wait_sunny_auth(Some(&Ok("user".to_owned()))).unwrap(), "user");
    assert!(matches!(
        wait_sunny_auth(Some(&Err(SError::SunnyAuthError("x".to_owned())))),
        Err(SError::SunnyAuthError(m)) if m == "Wrong password/username"
    ));
    assert!(matches!(
        wait_sunny_auth(None),
        Err(SError::SunnyAuthError(m)) if m == "timeout"
    ));
}

/// Runs the authentication of a connection; gives the result, the number of streams opened and
/// of requests written.
fn authenticate(
    authed: &mut Option<Result<String, SError>>,
    opening: Result<(), SError>,
    writing: Result<(), SError>,
) -> (Result<(), SError>, u32, u32) {
    let (mut opened, mut written) = (0, 0);
    let mut event = AuthEvent::Begin;
    loop {
        event = match auth_sunny(authed.as_ref(), "user", event) {
            AuthAction::Open => {
                opened += u32::from(opening.is_ok());
                AuthEvent::Opened(opening.clone())
            }
            AuthAction::Write => {
                written += u32::from(writing.is_ok());
                AuthEvent::Written(writing.clone())
            }
            AuthAction::Record(name) => {
                let taken = authed.is_none();
                authed.get_or_insert(Ok(name));
                AuthEvent::Recorded(taken)
            }
            AuthAction::Finish(outcome) => return (outcome, opened, written),
        };
    }
}

#[test]
fn authentication_is_sent_once_and_recorded_after_that() {
    let mut authed = None;
    let failed = authenticate(&mut authed, Err(SError::ProtocolUnimpl), Ok(()));
    assert!(matches!(failed, (Err(SError::ProtocolUnimpl), 0, 0)));
    assert!(authed.is_none());
    let failed = authenticate(&mut authed, Ok(()), Err(SError::InboundUnavailable));
    assert!(matches!(failed, (Err(SError::InboundUnavailable), 1, 0)));
    assert!(authed.is_none());
    assert!(matches!(authenticate(&mut authed, Ok(()), Ok(())), (Ok(()), 1, 1)));
    assert!(matches!(&authed, Some(Ok(name)) if name == "user"));
    assert!(matches!(authenticate(&mut authed, Ok(()), Ok(())), (Ok(()), 0, 0)));
    assert!(matches!(&authed, Some(Ok(name)) if name == "user"));
    assert!(matches!(
        auth_sunny(None, "user", AuthEvent::Recorded(false)),
        AuthAction::Finish(Err(SError::ProtocolViolation))
    ));
}

#[test]
fn destinations_map_to_what_was_put_there() {
    let mut map: AddrMap<u32> = AddrMap::new();
    assert!(map.get(&target()).is_none());
    map.insert(target(), 1);
    map.insert(other_target(), 2);
    *map.get_mut(&target()).unwrap() = 3;
    assert_eq!(map.get(&target()), Some(&3));
    assert_eq!(map.get(&other_target()), Some(&2));
    let mut values = map.into_values();
    values.sort();
    assert_eq!(values, vec![2, 3]);
}
