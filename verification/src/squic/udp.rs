//! The tasks of proxied UDP: sending packets, learning of contexts, and receiving packets.

use bytes::Bytes;
use std::collections::HashMap;
use vstd::prelude::*;
use vstd::std_specs::iter::IteratorSpec;

use crate::buffer;
use crate::buffer::{as_slice, concat, slice_from};
use crate::error::{SError, SResult};
use crate::msgs::socks5;
use crate::msgs::socks5::SocksAddr;
use crate::msgs::squic;
use crate::msgs::squic::{decode_u16, encode_u16, SQUdpControlHeader};
use crate::squic::addr_map::AddrMap;
use crate::squic::id_store;
use crate::squic::id_store::{Feed, IDStore, NotifyBuffer};

verus! {

/// How much room a datagram is given before it is put together.
pub const DATAGRAM_CAPACITY: usize = 2000;

/// A task that sends UDP packets: the context id of each of its destinations, and the stream
/// of each destination that has one.
pub struct AssociateSendSession<W> {
    dst_map: AddrMap<u16>,
    unistream_map: AddrMap<W>,
}

/// The context ids and the streams by destination.
#[verifier::ext_equal]
pub struct SendSessionView<W> {
    pub ids: Map<socks5::SocksAddrView, u16>,
    pub streams: Map<socks5::SocksAddrView, W>,
}

impl<W> View for AssociateSendSession<W> {
    type V = SendSessionView<W>;

    closed spec fn view(&self) -> SendSessionView<W> {
        SendSessionView { ids: self.dst_map@, streams: self.unistream_map@ }
    }
}

impl<W> SendSessionView<W> {
    /// Each destination has a context of `store`, and no two have the same.
    pub open spec fn holds_contexts_of(self, store: id_store::IDStoreView<()>) -> bool {
        &&& forall|dst: socks5::SocksAddrView| #[trigger]
            self.ids.contains_key(dst) ==> store.contexts.contains_key(self.ids[dst])
        &&& forall|a: socks5::SocksAddrView, b: socks5::SocksAddrView|
            self.ids.contains_key(a) && self.ids.contains_key(b) && a != b
                ==> #[trigger] self.ids[a] != #[trigger] self.ids[b]
    }
}

/// How a packet travels.
pub enum PacketPlan {
    /// In a datagram with these contents.
    Datagram(Bytes),
    /// On the stream of its destination: the head, then the payload.
    Stream { head: Vec<u8>, payload: Bytes },
}

/// What sending a packet takes.
pub struct SendPlan {
    /// A stream must be opened for the destination first.
    pub open_stream: bool,
    /// What goes onto the control stream.
    pub control: Option<Vec<u8>>,
    /// How the packet travels.
    pub packet: PacketPlan,
}

/// The datagram that carries `payload` for the context `id`.
pub open spec fn datagram(id: u16, payload: Seq<u8>) -> Seq<u8> {
    squic::u16_bytes(id) + payload
}

/// What stands in front of `payload` on a stream: its length, of which only the lower sixteen
/// bits are kept, and before it the context id where the context is new.
pub open spec fn stream_head(id: u16, is_new: bool, payload: Seq<u8>) -> Seq<u8> {
    let len = squic::u16_bytes((payload.len() % 0x1_0000) as u16);
    if is_new {
        squic::u16_bytes(id) + len
    } else {
        len
    }
}

impl SendPlan {
    /// The plan is the one for a packet for `dst`, whose context is `id`.
    pub open spec fn carries(
        self,
        id: u16,
        is_new: bool,
        dst: socks5::SocksAddrView,
        payload: Seq<u8>,
        over_stream: bool,
    ) -> bool {
        &&& is_new <==> self.control is Some
        &&& self.control matches Some(bytes) ==> bytes@ == (squic::SQUdpControlHeaderView {
            dst,
            id,
        }).bytes()
        &&& match self.packet {
            PacketPlan::Datagram(bytes) => !over_stream && buffer::bytes_contents(bytes)
                == datagram(id, payload),
            PacketPlan::Stream { head, payload: rest } => over_stream && head@ == stream_head(
                id,
                is_new,
                payload,
            ) && buffer::bytes_contents(rest) == payload,
        }
    }
}

/// The length that is written in front of a packet on a stream.
fn short_len(payload: &Bytes) -> (r: u16)
    ensures
        r == buffer::bytes_contents(*payload).len() % 0x1_0000,
{
    let len: usize = as_slice(payload).len();
    let short: u16 = #[verifier::truncate] (len as u16);
    assert(short == len % 0x1_0000) by (bit_vector)
        requires
            short == len as u16,
    ;
    short
}

impl<W> AssociateSendSession<W> {
    /// No destination occurs twice.
    pub closed spec fn wf(self) -> bool {
        self.dst_map.wf() && self.unistream_map.wf()
    }

    /// No destinations.
    pub fn new() -> (r: AssociateSendSession<W>)
        ensures
            r.wf(),
            r@ == (SendSessionView::<W> { ids: Map::empty(), streams: Map::empty() }),
    {
        AssociateSendSession { dst_map: AddrMap::new(), unistream_map: AddrMap::new() }
    }

    /// The context id of a destination, and whether it is new. A new destination gets the next
    /// free id of the store.
    pub fn get_id_or_insert(&mut self, store: &mut IDStore<()>, addr: &SocksAddr) -> (r: SResult<
        (u16, bool),
    >)
        requires
            old(self).wf(),
            old(store).wf(),
        ensures
            final(self).wf(),
            final(store).wf(),
            old(self)@.ids.contains_key(addr@) ==> {
                &&& r == Ok::<(u16, bool), SError>((old(self)@.ids[addr@], false))
                &&& final(self)@ == old(self)@
                &&& final(store)@ == old(store)@
            },
            !old(self)@.ids.contains_key(addr@) && !old(store)@.has_room() ==> {
                &&& r matches Err(e) && e is ProtocolViolation
                &&& final(self)@ == old(self)@
                &&& final(store)@ == old(store)@
            },
            !old(self)@.ids.contains_key(addr@) && old(store)@.has_room() ==> (r matches Ok(
                (id, true),
            ) && {
                &&& old(store)@.is_next_free(id)
                &&& final(store)@ == old(store)@.handed_out(id, ())
                &&& final(self)@ == (SendSessionView {
                    ids: old(self)@.ids.insert(addr@, id),
                    ..old(self)@
                })
            }),
            old(self)@.holds_contexts_of(old(store)@) ==> final(self)@.holds_contexts_of(
                final(store)@,
            ),
    {
        match self.dst_map.get(addr) {
            Some(id) => {
                return Ok((*id, false));
            },
            None => {},
        }
        match store.fetch_new_id(()) {
            Ok(id) => {
                self.dst_map.insert(addr.copy(), id);
                Ok((id, true))
            },
            Err(e) => Err(e),
        }
    }

    /// What it takes to send a packet.
    pub fn prepare_send(
        &mut self,
        store: &mut IDStore<()>,
        dst: &SocksAddr,
        payload: Bytes,
        over_stream: bool,
    ) -> (r: SResult<SendPlan>)
        requires
            old(self).wf(),
            old(store).wf(),
            buffer::bytes_contents(payload).len() + 2 <= isize::MAX,
        ensures
            final(self).wf(),
            final(store).wf(),
            old(self)@.ids.contains_key(dst@) ==> {
                &&& r matches Ok(plan) && plan.carries(
                    old(self)@.ids[dst@],
                    false,
                    dst@,
                    buffer::bytes_contents(payload),
                    over_stream,
                )
                &&& final(self)@ == old(self)@
                &&& final(store)@ == old(store)@
            },
            !old(self)@.ids.contains_key(dst@) && !old(store)@.has_room() ==> {
                &&& r matches Err(e) && e is ProtocolViolation
                &&& final(self)@ == old(self)@
                &&& final(store)@ == old(store)@
            },
            !old(self)@.ids.contains_key(dst@) && old(store)@.has_room() ==> {
                let id = final(self)@.ids[dst@];
                &&& r matches Ok(plan) && plan.carries(
                    id,
                    true,
                    dst@,
                    buffer::bytes_contents(payload),
                    over_stream,
                )
                &&& old(store)@.is_next_free(id)
                &&& final(store)@ == old(store)@.handed_out(id, ())
                &&& final(self)@ == (SendSessionView {
                    ids: old(self)@.ids.insert(dst@, id),
                    ..old(self)@
                })
            },
            r matches Ok(plan) ==> (plan.open_stream <==> over_stream
                && !old(self)@.streams.contains_key(dst@)),
            r is Ok ==> final(self)@.ids.contains_key(dst@),
            r matches Ok(plan) ==> (plan.packet is Datagram <==> !over_stream),
            r matches Ok(plan) ==> (plan.packet matches PacketPlan::Datagram(bytes) ==> {
                let sent = buffer::bytes_contents(bytes);
                &&& sent.len() == buffer::bytes_contents(payload).len() + 2
                &&& squic::u16_of(sent) == final(self)@.ids[dst@]
                &&& sent.skip(2) == buffer::bytes_contents(payload)
            }),
            r matches Ok(plan) ==> (plan.packet matches PacketPlan::Stream { head, payload: rest }
                ==> {
                &&& buffer::bytes_contents(rest) == buffer::bytes_contents(payload)
                &&& old(self)@.ids.contains_key(dst@) ==> head@.len() == 2 && squic::u16_of(head@)
                    == buffer::bytes_contents(payload).len() % 0x1_0000
                &&& !old(self)@.ids.contains_key(dst@) ==> head@.len() == 4 && squic::u16_of(head@)
                    == final(self)@.ids[dst@] && squic::u16_of(head@.skip(2))
                    == buffer::bytes_contents(payload).len() % 0x1_0000
            }),
            r matches Ok(plan) ==> (plan.control is Some <==> !old(self)@.ids.contains_key(dst@)),
            r matches Ok(plan) ==> (plan.control matches Some(bytes) ==> (dst@.wf()
                ==> squic::control_decode(bytes@) == socks5::Decoded::Value(
                squic::SQUdpControlHeaderView { dst: dst@, id: final(self)@.ids[dst@] },
                bytes@.len(),
            ))),
            old(self)@.holds_contexts_of(old(store)@) ==> final(self)@.holds_contexts_of(
                final(store)@,
            ),
    {
        let (id, is_new) = match self.get_id_or_insert(store, dst) {
            Ok(found) => found,
            Err(e) => {
                return Err(e);
            },
        };
        let open_stream = over_stream && self.unistream_map.get(dst).is_none();
        let control = if is_new {
            Some(SQUdpControlHeader { dst: dst.copy(), id }.encode())
        } else {
            None
        };
        let packet = if over_stream {
            let len: u16 = short_len(&payload);
            let mut head: Vec<u8> = Vec::new();
            if is_new {
                let mut id_bytes = encode_u16(id);
                head.append(&mut id_bytes);
            }
            let mut len_bytes = encode_u16(len);
            head.append(&mut len_bytes);
            assert(head@ == stream_head(id, is_new, buffer::bytes_contents(payload)));
            PacketPlan::Stream { head, payload }
        } else {
            proof {
                squic::law_u16_round_trip(id, Seq::empty());
            }
            PacketPlan::Datagram(concat(encode_u16(id), payload, DATAGRAM_CAPACITY))
        };
        let plan = SendPlan { open_stream, control, packet };
        proof {
            let contents = buffer::bytes_contents(payload);
            law_packets_name_their_context(plan, id, is_new, dst@, contents, over_stream);
        }
        Ok(plan)
    }

    /// Takes the stream of a destination that has none.
    pub fn insert_stream(&mut self, dst: &SocksAddr, stream: W)
        requires
            old(self).wf(),
            !old(self)@.streams.contains_key(dst@),
        ensures
            final(self).wf(),
            final(self)@ == (SendSessionView {
                streams: old(self)@.streams.insert(dst@, stream),
                ..old(self)@
            }),
    {
        self.unistream_map.insert(dst.copy(), stream);
    }

    /// The stream of a destination.
    pub fn stream_mut(&mut self, dst: &SocksAddr) -> (r: SResult<&mut W>)
        requires
            old(self).wf(),
        ensures
            final(self).wf(),
            !old(self)@.streams.contains_key(dst@) ==> {
                &&& r matches Err(e) && e is ProtocolViolation
                &&& final(self)@ == old(self)@
            },
            old(self)@.streams.contains_key(dst@) ==> r is Ok,
            old(self)@.streams.contains_key(dst@) ==> *r->Ok_0 == old(self)@.streams[dst@],
            old(self)@.streams.contains_key(dst@) ==> final(self)@ == (SendSessionView {
                streams: old(self)@.streams.insert(dst@, *final(r->Ok_0)),
                ..old(self)@
            }),
    {
        match self.unistream_map.get_mut(dst) {
            Some(stream) => Ok(stream),
            None => Err(SError::ProtocolViolation),
        }
    }

    /// Ends the task: the store forgets its contexts.
    pub fn close(self, store: &mut IDStore<()>)
        requires
            self.wf(),
            old(store).wf(),
        ensures
            final(store).wf(),
            final(store)@ == old(store)@.without(self@.ids.values()),
    {
        let ghost ids = self@.ids.values();
        let released = self.dst_map.into_values();
        assert(released@.to_set() == ids) by {
            assert forall|id: u16| released@.to_set().contains(id) <==> ids.contains(id) by {
                assert(released@.contains(id) <==> ids.contains(id));
            }
        }
        store.release(&released);
    }
}

/// A task that learns of contexts: the destination of each context that it announced.
pub struct AssociateRecvSession {
    id_map: HashMap<u16, SocksAddr>,
}

impl View for AssociateRecvSession {
    type V = Map<u16, socks5::SocksAddrView>;

    closed spec fn view(&self) -> Map<u16, socks5::SocksAddrView> {
        self.id_map@.map_values(|dst: SocksAddr| dst@)
    }
}

/// Each context that a task announced has its socket in `store`, and the destination that the
/// task recorded.
pub open spec fn holds_contexts_of<S>(
    session: Map<u16, socks5::SocksAddrView>,
    store: id_store::IDStoreView<(S, SocksAddr)>,
) -> bool {
    forall|id: u16| #[trigger]
        session.contains_key(id) ==> store.contexts.contains_key(id) && (
        store.contexts[id] matches id_store::ContextView::Ready(target) && target.1@
            == session[id])
}

impl AssociateRecvSession {
    /// No contexts.
    pub fn new() -> (r: AssociateRecvSession)
        ensures
            r@ == Map::<u16, socks5::SocksAddrView>::empty(),
    {
        let r = AssociateRecvSession { id_map: HashMap::new() };
        assert(r@ == Map::<u16, socks5::SocksAddrView>::empty());
        r
    }

    /// Gives a context its socket and destination, unless the task did so before, and records
    /// it as one of the task's. What the context kept is handed out, to be announced and sent
    /// on.
    pub fn store_socket<S>(
        &mut self,
        store: &mut IDStore<(S, SocksAddr)>,
        id: u16,
        dst: SocksAddr,
        socket: S,
    ) -> (r: SResult<Option<NotifyBuffer>>)
        requires
            old(store).wf(),
        ensures
            final(store).wf(),
            old(self)@.contains_key(id) ==> {
                &&& r matches Err(e) && e is ProtocolViolation
                &&& final(store)@ == old(store)@
            },
            !old(self)@.contains_key(id) ==> match old(store)@.stored(id) {
                id_store::Stored::Flush(pending) => {
                    &&& r matches Ok(Some(released)) && released@ == pending
                    &&& final(store)@ == old(store)@.with(
                        id,
                        id_store::ContextView::Ready((socket, dst)),
                    )
                },
                id_store::Stored::Quiet => {
                    &&& r matches Ok(None)
                    &&& final(store)@ == old(store)@.with(
                        id,
                        id_store::ContextView::Ready((socket, dst)),
                    )
                },
                id_store::Stored::Refuse => {
                    &&& r matches Err(e) && e is ProtocolViolation
                    &&& final(store)@ == old(store)@
                },
            },
            r is Ok ==> final(self)@ == old(self)@.insert(id, dst@),
            r is Err ==> final(self)@ == old(self)@,
            holds_contexts_of(old(self)@, old(store)@) ==> holds_contexts_of(
                final(self)@,
                final(store)@,
            ),
    {
        if self.id_map.contains_key(&id) {
            return Err(SError::ProtocolViolation);
        }
        let recorded = dst.copy();
        match store.store_socket_with_prelude(id, (socket, dst)) {
            Ok(pending) => {
                self.id_map.insert(id, recorded);
                assert(self@ == old(self)@.insert(id, dst@));
                Ok(pending)
            },
            Err(e) => Err(e),
        }
    }

    /// Ends the task: the store forgets its contexts.
    pub fn close<S>(self, store: &mut IDStore<(S, SocksAddr)>)
        requires
            old(store).wf(),
        ensures
            final(store).wf(),
            final(store)@ == old(store)@.without(self@.dom()),
    {
        let mut ids: Vec<u16> = Vec::new();
        let ghost keys = self.id_map.keys().remaining();
        for id in it: self.id_map.keys()
            invariant
                it.seq() == keys,
                ids@ == keys.unref().take(it.index() as int),
        {
            ids.push(*id);
        }
        proof {
            assert(ids@ == keys.unref());
            assert(self@.dom() == self.id_map@.dom());
        }
        store.release(&ids);
    }
}

/// Splits a datagram into its context id and its payload.
pub fn split_datagram(datagram: &Bytes) -> (r: SResult<(u16, Bytes)>)
    ensures
        buffer::bytes_contents(*datagram).len() < 2 ==> (r matches Err(e) && e.is_eof()),
        buffer::bytes_contents(*datagram).len() >= 2 ==> (r matches Ok((id, payload)) && id
            == squic::u16_of(buffer::bytes_contents(*datagram)) && buffer::bytes_contents(payload)
            == buffer::bytes_contents(*datagram).skip(2)),
{
    match decode_u16(as_slice(datagram)) {
        Ok(id) => Ok((id, slice_from(datagram, 2))),
        Err(e) => Err(e),
    }
}

/// Takes in a datagram of the connection, whichever context it belongs to.
pub fn receive_datagram<T: Clone>(store: &mut IDStore<T>, datagram: &Bytes) -> (r: SResult<
    Feed<T>,
>)
    requires
        old(store).wf(),
    ensures
        final(store).wf(),
        buffer::bytes_contents(*datagram).len() < 2 ==> {
            &&& r matches Err(e) && e.is_eof()
            &&& final(store)@ == old(store)@
        },
        buffer::bytes_contents(*datagram).len() >= 2 ==> {
            let id = squic::u16_of(buffer::bytes_contents(*datagram));
            let payload = buffer::bytes_contents(*datagram).skip(2);
            match old(store)@.fed(id, payload) {
                id_store::Fed::Deliver => {
                    &&& r matches Ok(Feed::Deliver(socket, bytes)) && buffer::bytes_contents(bytes)
                        == payload && cloned(old(store)@.contexts[id]->Ready_0, socket)
                    &&& final(store)@ == old(store)@
                },
                id_store::Fed::Append(pending) => {
                    &&& r matches Ok(Feed::Buffered)
                    &&& final(store)@ == old(store)@.with(
                        id,
                        id_store::ContextView::Pending(pending),
                    )
                },
                id_store::Fed::Open(packets) => {
                    &&& r matches Ok(Feed::Buffered)
                    &&& old(store)@.gained_pending(id, packets, final(store)@)
                },
                id_store::Fed::Refuse => {
                    &&& r matches Err(e) && e is ProtocolViolation
                    &&& final(store)@ == old(store)@
                },
            }
        },
{
    match split_datagram(datagram) {
        Ok((id, payload)) => store.feed_datagram(id, payload),
        Err(e) => Err(e),
    }
}

/// What to do about a stream of packets whose context was looked for.
pub enum StreamStep<T> {
    /// Pass its packets on.
    Serve(T),
    /// Its context is gone: leave the stream.
    Skip,
    /// Give up the connection.
    Fail(SError),
}

/// Decides about a stream of packets: a closed session concerns that stream alone, any other
/// error the connection.
pub fn stream_step<T>(resolved: SResult<T>) -> (r: StreamStep<T>)
    ensures
        match resolved {
            Ok(found) => r == StreamStep::Serve(found),
            Err(SError::UDPSessionClosed(_)) => r is Skip,
            Err(e) => r == StreamStep::<T>::Fail(e),
        },
{
    match resolved {
        Ok(found) => StreamStep::Serve(found),
        Err(SError::UDPSessionClosed(_)) => StreamStep::Skip,
        Err(e) => StreamStep::Fail(e),
    }
}

/// The packet at the front of what a stream carries, and how many bytes it takes.
pub open spec fn frame_decode(s: Seq<u8>) -> Option<(Seq<u8>, nat)> {
    if s.len() < 2 || s.len() < 2 + squic::u16_of(s) {
        None
    } else {
        Some((s.subrange(2, 2 + squic::u16_of(s)), 2 + squic::u16_of(s) as nat))
    }
}

/// How many bytes the packet has whose length is read from `head`.
pub fn frame_len(head: &[u8]) -> (r: SResult<usize>)
    ensures
        head@.len() >= 2 ==> r == Ok::<usize, SError>(squic::u16_of(head@) as usize),
        head@.len() < 2 ==> (r matches Err(e) && e.is_eof()),
{
    match decode_u16(head) {
        Ok(len) => Ok(len as usize),
        Err(e) => Err(e),
    }
}

/// What a datagram carried arrives: the context id and the payload that were sent.
pub proof fn law_datagram_round_trip(id: u16, payload: Seq<u8>)
    ensures
        squic::u16_of(datagram(id, payload)) == id,
        datagram(id, payload).skip(2) == payload,
{
    squic::law_u16_round_trip(id, payload);
}

/// What a stream carried arrives: behind the context id of a new context, the payload that was
/// sent and then whatever follows it. A payload whose length does not fit into sixteen bits is
/// cut off.
pub proof fn law_stream_round_trip(id: u16, is_new: bool, payload: Seq<u8>, rest: Seq<u8>)
    requires
        payload.len() <= u16::MAX,
    ensures
        ({
            let sent = stream_head(id, is_new, payload) + payload + rest;
            let body = if is_new {
                sent.skip(2)
            } else {
                sent
            };
            &&& is_new ==> squic::u16_of(sent) == id
            &&& frame_decode(body) == Some((payload, 2 + payload.len()))
            &&& body.skip(2 + payload.len() as int) == rest
        }),
{
    let len = payload.len() as u16;
    let sent = stream_head(id, is_new, payload) + payload + rest;
    let frame = squic::u16_bytes(len) + (payload + rest);
    squic::law_u16_round_trip(len, payload + rest);
    if is_new {
        squic::law_u16_round_trip(id, frame);
        assert(sent == squic::u16_bytes(id) + frame);
        assert(sent.skip(2) == frame);
    } else {
        assert(sent == frame);
    }
    assert(frame.subrange(2, 2 + len) == payload);
    assert(frame.skip(2 + payload.len() as int) == rest);
}

/// A packet that was sent in a datagram before its context had a socket is handed out, as it
/// was sent, when the context gets the socket; one that was sent later is sent on at once.
pub proof fn law_datagrams_reach_the_socket<T>(
    before: id_store::IDStoreView<T>,
    id: u16,
    payload: Seq<u8>,
    after: id_store::IDStoreView<T>,
)
    requires
        ({
            let arrived = datagram(id, payload);
            id_store::took_in(before, squic::u16_of(arrived), arrived.skip(2), after)
        }),
    ensures
        before.contexts.contains_key(id) && before.contexts[id] is Ready ==> before.fed(
            id,
            payload,
        ) is Deliver,
        !(before.contexts.contains_key(id) && before.contexts[id] is Ready) ==> (after.stored(
            id,
        ) matches id_store::Stored::Flush(pending) && pending.packets.last() == payload),
{
    law_datagram_round_trip(id, payload);
}

/// Ending a sending task leaves no context of it behind, and the contexts of others alone.
pub proof fn law_close_forgets_the_tasks_contexts<W>(
    session: SendSessionView<W>,
    store: id_store::IDStoreView<()>,
    dst: socks5::SocksAddrView,
    other: u16,
)
    requires
        session.holds_contexts_of(store),
        session.ids.contains_key(dst),
        !session.ids.values().contains(other),
    ensures
        !store.without(session.ids.values()).contexts.contains_key(session.ids[dst]),
        store.without(session.ids.values()).contexts.contains_key(other)
            <==> store.contexts.contains_key(other),
{
    assert(session.ids.values().contains(session.ids[dst]));
}

/// Ending a task that announced contexts leaves none of them behind, and the contexts of others
/// alone.
pub proof fn law_close_forgets_the_announced_contexts<T>(
    session: Map<u16, socks5::SocksAddrView>,
    store: id_store::IDStoreView<T>,
    id: u16,
)
    ensures
        session.contains_key(id) ==> !store.without(session.dom()).contexts.contains_key(id),
        !session.contains_key(id) ==> (store.without(session.dom()).contexts.contains_key(id)
            <==> store.contexts.contains_key(id)),
{
}

/// A context that a task gave its socket ends with the task, whether or not what the context
/// had kept could be sent on.
pub proof fn law_an_announced_context_ends_with_its_task<S>(
    session: Map<u16, socks5::SocksAddrView>,
    store: id_store::IDStoreView<(S, SocksAddr)>,
    id: u16,
    dst: SocksAddr,
    socket: S,
)
    ensures
        !store.with(id, id_store::ContextView::Ready((socket, dst))).without(
            session.insert(id, dst@).dom(),
        ).contexts.contains_key(id),
{
}

/// Whatever carries a packet names the context of its destination and holds the payload as it
/// is. A datagram does so whether or not the context is new. A stream does so in front of the
/// first packet; in front of each packet stands its length. A new context, and no other, is
/// announced with its destination.
pub proof fn law_packets_name_their_context(
    plan: SendPlan,
    id: u16,
    is_new: bool,
    dst: socks5::SocksAddrView,
    payload: Seq<u8>,
    over_stream: bool,
)
    requires
        plan.carries(id, is_new, dst, payload, over_stream),
    ensures
        plan.packet is Datagram <==> !over_stream,
        plan.packet matches PacketPlan::Datagram(bytes) ==> {
            let sent = buffer::bytes_contents(bytes);
            &&& sent.len() == payload.len() + 2
            &&& sent[0] * 256 + sent[1] == id
            &&& squic::u16_of(sent) == id
            &&& sent.skip(2) == payload
        },
        plan.packet matches PacketPlan::Stream { head, payload: rest } ==> {
            let len = if is_new {
                head@.skip(2)
            } else {
                head@
            };
            &&& buffer::bytes_contents(rest) == payload
            &&& len.len() == 2
            &&& len[0] * 256 + len[1] == payload.len() % 0x1_0000
            &&& squic::u16_of(len) == payload.len() % 0x1_0000
            &&& is_new ==> head@.len() == 4 && squic::u16_of(head@) == id && head@[0] * 256
                + head@[1] == id
        },
        plan.control is Some <==> is_new,
        plan.control matches Some(bytes) ==> (dst.wf() ==> squic::control_decode(bytes@)
            == socks5::Decoded::Value(squic::SQUdpControlHeaderView { dst, id }, bytes@.len())),
{
    law_datagram_round_trip(id, payload);
    squic::law_u16_layout(id, datagram(id, payload));
    let short = (payload.len() % 0x1_0000) as u16;
    squic::law_u16_round_trip(short, Seq::empty());
    squic::law_u16_layout(short, squic::u16_bytes(short));
    squic::law_u16_layout(id, stream_head(id, true, payload));
    assert(squic::u16_bytes(short) + Seq::<u8>::empty() == squic::u16_bytes(short));
    squic::law_u16_round_trip(id, squic::u16_bytes(short));
    assert(stream_head(id, true, payload).skip(2) == squic::u16_bytes(short));
    match plan.control {
        Some(bytes) => {
            if dst.wf() {
                let header = squic::SQUdpControlHeaderView { dst, id };
                squic::law_control_header_round_trip(header, Seq::empty());
                assert(header.bytes() + Seq::<u8>::empty() == bytes@);
            }
        },
        None => {},
    }
}

/// The packet at the front of a stream is as long as the two bytes before it say; without all
/// of it there is none yet.
pub proof fn law_frames_are_as_long_as_they_say(high: u8, low: u8, rest: Seq<u8>, s: Seq<u8>)
    ensures
        s.len() < 2 ==> frame_decode(s) is None,
        ({
            let n = (high * 256 + low) as nat;
            &&& rest.len() < n ==> frame_decode(seq![high, low] + rest) is None
            &&& rest.len() >= n ==> frame_decode(seq![high, low] + rest) == Some(
                (rest.take(n as int), n + 2),
            )
        }),
{
    let t = seq![high, low] + rest;
    squic::law_u16_layout(0, t);
    let n = (high * 256 + low) as nat;
    if rest.len() >= n {
        assert(t.subrange(2, 2 + n as int) == rest.take(n as int));
    }
}

/// No two destinations of a sending task share a context, and each has one that the store knows.
/// Each context that a receiving task announced has the destination that it was announced with.
pub proof fn law_destinations_share_no_context<W, S>(
    session: SendSessionView<W>,
    store: id_store::IDStoreView<()>,
    a: socks5::SocksAddrView,
    b: socks5::SocksAddrView,
    announced: Map<u16, socks5::SocksAddrView>,
    sockets: id_store::IDStoreView<(S, SocksAddr)>,
    id: u16,
)
    requires
        session.holds_contexts_of(store),
        session.ids.contains_key(a),
        session.ids.contains_key(b),
        holds_contexts_of(announced, sockets),
        announced.contains_key(id),
    ensures
        store.contexts.contains_key(session.ids[a]),
        a != b ==> session.ids[a] != session.ids[b],
        sockets.contexts.contains_key(id),
        sockets.contexts[id] matches id_store::ContextView::Ready(target) && target.1@
            == announced[id],
{
}

} // verus!
