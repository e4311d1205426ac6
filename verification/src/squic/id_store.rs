//! Contexts of proxied UDP: which socket each context id belongs to, and the packets that
//! arrived before the socket was known.

use bytes::Bytes;
use std::collections::HashMap;
use tokio::sync::watch::{Receiver, Sender};
use vstd::prelude::*;
use vstd::std_specs::iter::IteratorSpec;

use crate::buffer;
use crate::buffer::as_slice;
use crate::error::{SError, SResult};
use crate::squic::notify;
use crate::squic::notify::{new_channel, subscribe};

verus! {

/// How many contexts a connection may have.
pub const MAX_CONTEXT_IDS: usize = 4096;

/// How many contexts may wait for their socket.
pub const MAX_PENDING_CONTEXTS: usize = 128;

/// How many packets are kept for a context that waits for its socket.
pub const MAX_PENDING_PACKETS_PER_CONTEXT: usize = 32;

/// How many bytes are kept for a context that waits for its socket.
pub const MAX_PENDING_BYTES_PER_CONTEXT: usize = 262144;

/// The packets that a context keeps until its socket is known, and the channel on which
/// that is announced.
pub struct NotifyBuffer {
    notify: Sender<()>,
    buffer: Vec<Bytes>,
    buffered_bytes: usize,
}

/// What a waiting context holds: the bytes of its packets, oldest first.
#[verifier::ext_equal]
pub struct PendingView {
    pub notify: Sender<()>,
    pub packets: Seq<Seq<u8>>,
}

/// How many bytes `packets` hold together.
pub open spec fn total_bytes(packets: Seq<Seq<u8>>) -> nat
    decreases packets.len(),
{
    if packets.len() == 0 {
        0
    } else {
        total_bytes(packets.drop_last()) + packets.last().len()
    }
}

/// The contents of buffers.
pub open spec fn contents(packets: Seq<Bytes>) -> Seq<Seq<u8>> {
    packets.map_values(|b: Bytes| buffer::bytes_contents(b))
}

/// Whether a context that keeps `packets` can keep `packet` too.
pub open spec fn fits(packets: Seq<Seq<u8>>, packet: Seq<u8>) -> bool {
    &&& packets.len() < MAX_PENDING_PACKETS_PER_CONTEXT
    &&& total_bytes(packets) + packet.len() <= MAX_PENDING_BYTES_PER_CONTEXT
}

impl View for NotifyBuffer {
    type V = PendingView;

    closed spec fn view(&self) -> PendingView {
        PendingView { notify: self.notify, packets: contents(self.buffer@) }
    }
}

impl NotifyBuffer {
    /// The byte count is right and within the limits.
    pub closed spec fn wf(self) -> bool {
        &&& self.buffered_bytes == total_bytes(self@.packets)
        &&& self.buffered_bytes <= MAX_PENDING_BYTES_PER_CONTEXT
        &&& self.buffer@.len() <= MAX_PENDING_PACKETS_PER_CONTEXT
    }

    fn new(notify: Sender<()>) -> (r: NotifyBuffer)
        ensures
            r.wf(),
            r@ == (PendingView { notify, packets: Seq::empty() }),
    {
        let buffer: Vec<Bytes> = Vec::new();
        assert(contents(buffer@) == Seq::<Seq<u8>>::empty());
        NotifyBuffer { notify, buffer, buffered_bytes: 0 }
    }

    /// Keeps a packet, unless that exceeds a limit.
    fn push(&mut self, packet: Bytes) -> (r: SResult<()>)
        requires
            old(self).wf(),
        ensures
            final(self).wf(),
            fits(old(self)@.packets, buffer::bytes_contents(packet)) ==> {
                &&& r is Ok
                &&& final(self)@ == (PendingView {
                    packets: old(self)@.packets.push(buffer::bytes_contents(packet)),
                    ..old(self)@
                })
            },
            !fits(old(self)@.packets, buffer::bytes_contents(packet)) ==> {
                &&& r matches Err(e) && e is ProtocolViolation
                &&& *final(self) == *old(self)
            },
    {
        let ghost before = self@.packets;
        let ghost bytes = buffer::bytes_contents(packet);
        let buffered_bytes: usize = match self.buffered_bytes.checked_add(as_slice(&packet).len()) {
            Some(sum) => sum,
            None => {
                return Err(SError::ProtocolViolation);
            },
        };
        if self.buffer.len() >= MAX_PENDING_PACKETS_PER_CONTEXT || buffered_bytes
            > MAX_PENDING_BYTES_PER_CONTEXT {
            return Err(SError::ProtocolViolation);
        }
        self.buffered_bytes = buffered_bytes;
        self.buffer.push(packet);
        proof {
            assert(self@.packets == before.push(bytes));
            assert(before.push(bytes).drop_last() == before);
        }
        Ok(())
    }

    /// The channel to announce on, and the packets, oldest first.
    pub fn into_parts(self) -> (r: (Sender<()>, Vec<Bytes>))
        ensures
            r.0 == self@.notify,
            contents(r.1@) == self@.packets,
    {
        (self.notify, self.buffer)
    }
}

/// A context: its socket, or the packets that wait for it.
pub type IDStoreVal<T> = Result<T, NotifyBuffer>;

/// A context: its socket, or what waits for it.
#[verifier::ext_equal]
pub enum ContextView<T> {
    Ready(T),
    Pending(PendingView),
}

pub open spec fn context_view<T>(value: IDStoreVal<T>) -> ContextView<T> {
    match value {
        Ok(socket) => ContextView::Ready(socket),
        Err(pending) => ContextView::Pending(pending@),
    }
}

/// What looking up a context gives: its socket, or a channel to wait on for it.
pub enum SocketLookup<T> {
    Ready(T),
    Wait(Receiver<()>),
}

/// What to do with a datagram: send it on by the socket, or nothing, since it is kept.
pub enum Feed<T> {
    Deliver(T, Bytes),
    Buffered,
}

/// The contexts of a connection. Ids are handed out from a counter that wraps around.
pub struct IDStore<T> {
    id_counter: u16,
    inner: HashMap<u16, IDStoreVal<T>>,
}

/// The contexts by id, and the id that the counter stands at.
#[verifier::ext_equal]
pub struct IDStoreView<T> {
    pub next_id: u16,
    pub contexts: Map<u16, ContextView<T>>,
}

impl<T> View for IDStore<T> {
    type V = IDStoreView<T>;

    closed spec fn view(&self) -> IDStoreView<T> {
        IDStoreView { next_id: self.id_counter, contexts: contexts_of(self.inner@) }
    }
}

spec fn contexts_of<T>(inner: Map<u16, IDStoreVal<T>>) -> Map<u16, ContextView<T>> {
    inner.map_values(|value: IDStoreVal<T>| context_view(value))
}

/// The ids of the contexts that wait for their socket.
pub open spec fn pending_ids<T>(contexts: Map<u16, ContextView<T>>) -> Set<u16> {
    contexts.dom().filter(|id: u16| contexts[id] is Pending)
}

/// How far ahead of `from` the id `to` is, counting around.
pub open spec fn distance(from: u16, to: u16) -> int {
    if to >= from {
        to - from
    } else {
        to + 0x1_0000 - from
    }
}

impl<T> IDStoreView<T> {
    /// The limits hold: of contexts, of waiting contexts, and of what each of these keeps.
    pub open spec fn bounded(self) -> bool {
        &&& self.contexts.dom().finite()
        &&& self.contexts.len() <= MAX_CONTEXT_IDS
        &&& pending_ids(self.contexts).len() <= MAX_PENDING_CONTEXTS
        &&& forall|id: u16| #[trigger]
            self.contexts.contains_key(id) ==> (self.contexts[id] matches ContextView::Pending(
                pending,
            ) ==> pending.packets.len() <= MAX_PENDING_PACKETS_PER_CONTEXT && total_bytes(
                pending.packets,
            ) <= MAX_PENDING_BYTES_PER_CONTEXT)
    }

    /// There is room for one more context.
    pub open spec fn has_room(self) -> bool {
        self.contexts.len() < MAX_CONTEXT_IDS
    }

    /// There is room for one more context that waits for its socket.
    pub open spec fn has_pending_room(self) -> bool {
        self.has_room() && pending_ids(self.contexts).len() < MAX_PENDING_CONTEXTS
    }

    /// `id` is free and no free id comes before it, counting from the counter.
    pub open spec fn is_next_free(self, id: u16) -> bool {
        &&& !self.contexts.contains_key(id)
        &&& forall|other: u16|
            distance(self.next_id, other) < distance(self.next_id, id)
                ==> #[trigger] self.contexts.contains_key(other)
    }

    /// `self` once `id` was handed out for `socket`.
    pub open spec fn handed_out(self, id: u16, socket: T) -> IDStoreView<T> {
        IDStoreView {
            next_id: wrapping_next(id),
            contexts: self.contexts.insert(id, ContextView::Ready(socket)),
        }
    }

    /// `self` with the context `id` set.
    pub open spec fn with(self, id: u16, context: ContextView<T>) -> IDStoreView<T> {
        IDStoreView { contexts: self.contexts.insert(id, context), ..self }
    }
}

impl<T> Default for IDStore<T> {
    /// No contexts.
    fn default() -> (r: IDStore<T>)
        ensures
            r.wf(),
            r@ == (IDStoreView::<T> { next_id: 0, contexts: Map::empty() }),
    {
        let inner: HashMap<u16, IDStoreVal<T>> = HashMap::new();
        assert(contexts_of(inner@) == Map::<u16, ContextView<T>>::empty());
        assert(pending_ids(contexts_of(inner@)) == Set::<u16>::empty());
        IDStore { id_counter: 0, inner }
    }
}

impl<T> IDStore<T> {
    /// The limits hold and each waiting context is well formed.
    pub closed spec fn wf(self) -> bool {
        &&& self@.bounded()
        &&& forall|id: u16| #[trigger]
            self.inner@.contains_key(id) ==> (self.inner@[id] matches Err(pending)
                ==> pending.wf())
    }

    /// How many contexts wait for their socket.
    fn pending_contexts(&self) -> (r: usize)
        requires
            self.wf(),
        ensures
            r == pending_ids(self@.contexts).len(),
    {
        let mut count: usize = 0;
        let ghost mut seen: Set<u16> = Set::empty();
        assert(self@.contexts.dom() == self.inner@.dom());
        let ghost pairs = self.inner.iter().remaining();
        for kv in it: self.inner.iter()
            invariant
                it.seq() == pairs,
                count == seen.len(),
                count <= it.index(),
                it.index() <= pairs.len(),
                seen.finite(),
                pairs.no_duplicates(),
                pairs.len() == self.inner@.dom().len(),
                self.inner@.dom().len() <= MAX_CONTEXT_IDS,
                forall|i: int|
                    0 <= i < pairs.len() ==> self.inner@.contains_key(
                        *(#[trigger] pairs[i]).0,
                    ) && self.inner@[*pairs[i].0] == *pairs[i].1,
                forall|id: u16| #[trigger]
                    self.inner@.contains_key(id) ==> pairs.contains((&id, &self.inner@[id])),
                forall|id: u16| #[trigger]
                    seen.contains(id) <==> exists|i: int|
                        0 <= i < it.index() && *(#[trigger] pairs[i]).0 == id
                            && *pairs[i].1 is Err,
        {
            if kv.1.is_err() {
                count = count + 1;
                proof {
                    assert(!seen.contains(*kv.0));
                    seen = seen.insert(*kv.0);
                }
            }
        }
        proof {
            assert forall|id: u16| seen.contains(id) <==> pending_ids(self@.contexts).contains(
                id,
            ) by {
                if self.inner@.contains_key(id) {
                    let i: int = pairs.index_of((&id, &self.inner@[id]));
                    assert(*pairs[i].0 == id);
                }
            }
            assert(seen == pending_ids(self@.contexts));
        }
        count
    }

    /// Sets a context.
    fn put(&mut self, id: u16, value: IDStoreVal<T>)
        ensures
            final(self)@ == old(self)@.with(id, context_view(value)),
            final(self).inner@ == old(self).inner@.insert(id, value),
    {
        self.inner.insert(id, value);
        assert(self@.contexts == old(self)@.contexts.insert(id, context_view(value)));
    }

    /// Whether there is room for one more context that waits for its socket.
    fn pending_room(&self) -> (r: bool)
        requires
            self.wf(),
        ensures
            r == self@.has_pending_room(),
    {
        assert(self@.contexts.dom() == self.inner@.dom());
        let pending: usize = self.pending_contexts();
        self.inner.len() < MAX_CONTEXT_IDS && pending < MAX_PENDING_CONTEXTS
    }

    /// Hands out the next free id for `val`, unless there is no room.
    pub fn fetch_new_id(&mut self, val: T) -> (r: SResult<u16>)
        requires
            old(self).wf(),
        ensures
            final(self).wf(),
            !old(self)@.has_room() ==> {
                &&& r matches Err(e) && e is ProtocolViolation
                &&& final(self)@ == old(self)@
            },
            old(self)@.has_room() ==> (r matches Ok(id) && {
                &&& old(self)@.is_next_free(id)
                &&& final(self)@ == old(self)@.handed_out(id, val)
            }),
    {
        assert(self@.contexts.dom() == self.inner@.dom());
        if self.inner.len() >= MAX_CONTEXT_IDS {
            return Err(SError::ProtocolViolation);
        }
        let ghost start = self.id_counter;
        let ghost contexts = self@.contexts;
        let mut tried: u32 = 0;
        while tried < 0x1_0000
            invariant
                tried <= 0x1_0000,
                self.wf(),
                self.inner@ == old(self).inner@,
                contexts == self@.contexts,
                contexts.dom() == self.inner@.dom(),
                self@.has_room(),
                start == old(self)@.next_id,
                tried < 0x1_0000 ==> distance(start, self.id_counter) == tried,
                forall|other: u16|
                    distance(start, other) < tried ==> #[trigger] contexts.contains_key(other),
            decreases 0x1_0000 - tried,
        {
            let id: u16 = self.id_counter;
            self.id_counter = id.wrapping_add(1);
            if !self.inner.contains_key(&id) {
                proof {
                    lemma_with(self@, id, ContextView::Ready(val));
                }
                self.put(id, Ok(val));
                return Ok(id);
            }
            tried = tried + 1;
        }
        proof {
            assert forall|other: u16| other < MAX_CONTEXT_IDS implies contexts.dom().contains(
                other,
            ) by {
                assert(distance(start, other) < 0x1_0000);
                assert(contexts.contains_key(other));
            }
            lemma_len_of_initial_ids(contexts.dom(), MAX_CONTEXT_IDS as nat);
        }
        Err(SError::ProtocolViolation)
    }
}

impl<T: Clone> IDStore<T> {
    /// What is known of a context without changing anything.
    fn lookup(&self, id: u16) -> (r: Option<SocketLookup<T>>)
        ensures
            self@.contexts.contains_key(id) <==> r is Some,
            r matches Some(found) ==> is_lookup(self@.contexts[id], found),
    {
        match self.inner.get(&id) {
            Some(Ok(socket)) => Some(SocketLookup::Ready(socket.clone())),
            Some(Err(pending)) => Some(SocketLookup::Wait(subscribe(&pending.notify))),
            None => None,
        }
    }

    /// The socket of a context, or a channel to wait on for it. An unknown context becomes one
    /// that waits, unless there is no room for it.
    pub fn get_socket_or_notify(&mut self, id: u16) -> (r: SResult<SocketLookup<T>>)
        requires
            old(self).wf(),
        ensures
            final(self).wf(),
            old(self)@.contexts.contains_key(id) ==> {
                &&& r matches Ok(found) && is_lookup(old(self)@.contexts[id], found)
                &&& final(self)@ == old(self)@
            },
            !old(self)@.contexts.contains_key(id) && !old(self)@.has_pending_room() ==> {
                &&& r matches Err(e) && e is ProtocolViolation
                &&& final(self)@ == old(self)@
            },
            !old(self)@.contexts.contains_key(id) && old(self)@.has_pending_room() ==> {
                &&& r matches Ok(found) && is_lookup(final(self)@.contexts[id], found)
                &&& old(self)@.gained_pending(id, Seq::empty(), final(self)@)
            },
    {
        match self.lookup(id) {
            Some(found) => {
                return Ok(found);
            },
            None => {},
        }
        if !self.pending_room() {
            return Err(SError::ProtocolViolation);
        }
        let (sender, receiver) = new_channel();
        let pending = NotifyBuffer::new(sender);
        proof {
            lemma_with(self@, id, ContextView::Pending(pending@));
        }
        self.put(id, Err(pending));
        Ok(SocketLookup::Wait(receiver))
    }

    /// The socket of a context that has one.
    pub fn try_get_socket(&self, id: u16) -> (r: Option<T>)
        ensures
            self@.contexts.contains_key(id) && self@.contexts[id] is Ready <==> r is Some,
            r matches Some(socket) ==> cloned(self@.contexts[id]->Ready_0, socket),
    {
        match self.inner.get(&id) {
            Some(Ok(socket)) => Some(socket.clone()),
            _ => None,
        }
    }

    /// What waiting for a context comes to: `notified` says whether its socket was announced,
    /// or else the announcing end was dropped.
    pub fn get_socket_after_wait(&self, id: u16, notified: bool) -> (r: SResult<T>)
        ensures
            !notified ==> (r matches Err(SError::UDPSessionClosed(reason)) && reason@
                == "notify sender dropped"@),
            notified && !(self@.contexts.contains_key(id) && self@.contexts[id] is Ready) ==> (
            r matches Err(SError::UDPSessionClosed(reason)) && reason@ == "UDP session closed"@),
            notified && self@.contexts.contains_key(id) && self@.contexts[id] is Ready ==> (
            r matches Ok(socket) && cloned(self@.contexts[id]->Ready_0, socket)),
    {
        if !notified {
            return Err(SError::UDPSessionClosed(String::from_str("notify sender dropped")));
        }
        match self.try_get_socket(id) {
            Some(socket) => Ok(socket),
            None => Err(SError::UDPSessionClosed(String::from_str("UDP session closed"))),
        }
    }

    /// Takes in a datagram: it is to be sent on where the context has its socket, and is kept
    /// where the context waits for it. An unknown context becomes one that waits. A datagram
    /// that exceeds a limit changes nothing.
    pub fn feed_datagram(&mut self, id: u16, packet: Bytes) -> (r: SResult<Feed<T>>)
        requires
            old(self).wf(),
        ensures
            final(self).wf(),
            match old(self)@.fed(id, buffer::bytes_contents(packet)) {
                Fed::Deliver => {
                    &&& r matches Ok(Feed::Deliver(socket, payload)) && payload == packet && cloned(
                        old(self)@.contexts[id]->Ready_0,
                        socket,
                    )
                    &&& final(self)@ == old(self)@
                },
                Fed::Append(pending) => {
                    &&& r matches Ok(Feed::Buffered)
                    &&& final(self)@ == old(self)@.with(id, ContextView::Pending(pending))
                },
                Fed::Open(packets) => {
                    &&& r matches Ok(Feed::Buffered)
                    &&& old(self)@.gained_pending(id, packets, final(self)@)
                },
                Fed::Refuse => {
                    &&& r matches Err(e) && e is ProtocolViolation
                    &&& final(self)@ == old(self)@
                },
            },
    {
        match self.try_get_socket(id) {
            Some(socket) => {
                return Ok(Feed::Deliver(socket, packet));
            },
            None => {},
        }
        if self.inner.contains_key(&id) {
            let ghost before = self.inner@;
            match self.inner.remove(&id) {
                Some(Err(mut pending)) => {
                    let pushed = pending.push(packet);
                    proof {
                        lemma_with(old(self)@, id, ContextView::Pending(pending@));
                        assert(before.remove(id).insert(id, Err(pending)) == before.insert(
                            id,
                            Err(pending),
                        ));
                    }
                    self.put(id, Err(pending));
                    assert(self@ == old(self)@.with(id, ContextView::Pending(pending@)));
                    match pushed {
                        Ok(()) => Ok(Feed::Buffered),
                        Err(e) => Err(e),
                    }
                },
                _ => Err(SError::ProtocolViolation),
            }
        } else {
            if !self.pending_room() {
                return Err(SError::ProtocolViolation);
            }
            let (sender, _receiver) = new_channel();
            let mut pending = NotifyBuffer::new(sender);
            match pending.push(packet) {
                Ok(()) => {},
                Err(e) => {
                    return Err(e);
                },
            }
            proof {
                lemma_with(self@, id, ContextView::Pending(pending@));
            }
            self.put(id, Err(pending));
            Ok(Feed::Buffered)
        }
    }
}

impl<T> IDStore<T> {
    /// Gives a context its socket. Where the context waited for it, what it kept is handed
    /// out, to be announced and sent on. A context that has its socket is refused another.
    pub fn store_socket_with_prelude(&mut self, id: u16, val: T) -> (r: SResult<
        Option<NotifyBuffer>,
    >)
        requires
            old(self).wf(),
        ensures
            final(self).wf(),
            match old(self)@.stored(id) {
                Stored::Flush(pending) => {
                    &&& r matches Ok(Some(released)) && released@ == pending
                    &&& final(self)@ == old(self)@.with(id, ContextView::Ready(val))
                },
                Stored::Quiet => {
                    &&& r matches Ok(None)
                    &&& final(self)@ == old(self)@.with(id, ContextView::Ready(val))
                },
                Stored::Refuse => {
                    &&& r matches Err(e) && e is ProtocolViolation
                    &&& final(self)@ == old(self)@
                },
            },
    {
        assert(self@.contexts.dom() == self.inner@.dom());
        let ready: bool = match self.inner.get(&id) {
            Some(Ok(_)) => true,
            _ => false,
        };
        if ready {
            return Err(SError::ProtocolViolation);
        }
        if !self.inner.contains_key(&id) && self.inner.len() >= MAX_CONTEXT_IDS {
            return Err(SError::ProtocolViolation);
        }
        proof {
            lemma_with(self@, id, ContextView::Ready(val));
        }
        let ghost before = self.inner@;
        let previous = self.inner.remove(&id);
        proof {
            assert(before.remove(id).insert(id, Ok(val)) == before.insert(id, Ok(val)));
        }
        self.put(id, Ok(val));
        assert(self@ == old(self)@.with(id, ContextView::Ready(val)));
        match previous {
            Some(Err(pending)) => Ok(Some(pending)),
            _ => Ok(None),
        }
    }

    /// Forgets contexts.
    pub fn release(&mut self, ids: &Vec<u16>)
        requires
            old(self).wf(),
        ensures
            final(self).wf(),
            final(self)@ == old(self)@.without(ids@.to_set()),
    {
        let ghost before = *self;
        let mut i: usize = 0;
        while i < ids.len()
            invariant
                0 <= i <= ids@.len(),
                self.id_counter == before.id_counter,
                self.inner@ == before.inner@.remove_keys(ids@.take(i as int).to_set()),
            decreases ids@.len() - i,
        {
            let ghost so_far = ids@.take(i as int).to_set();
            self.inner.remove(&ids[i]);
            i = i + 1;
            proof {
                assert(ids@.take(i as int) == ids@.take(i - 1).push(ids@[i - 1]));
                ids@.take(i - 1).lemma_push_to_set_commute(ids@[i - 1]);
                assert(before.inner@.remove_keys(so_far).remove(ids@[i - 1])
                    == before.inner@.remove_keys(ids@.take(i as int).to_set()));
            }
        }
        proof {
            assert(ids@.take(ids@.len() as int) == ids@);
            assert(self@.contexts == before@.contexts.remove_keys(ids@.to_set()));
            lemma_without(before@, ids@.to_set());
        }
    }
}

/// `found` is what looking up `context` gives: a clone of its socket, or an end of the channel
/// on which the socket will be announced.
pub open spec fn is_lookup<T: Clone>(context: ContextView<T>, found: SocketLookup<T>) -> bool {
    match context {
        ContextView::Ready(socket) => found matches SocketLookup::Ready(copy) && cloned(
            socket,
            copy,
        ),
        ContextView::Pending(pending) => found matches SocketLookup::Wait(receiver)
            && notify::listens(receiver, pending.notify),
    }
}

/// What becomes of a datagram.
pub enum Fed {
    /// It is sent on by the context's socket.
    Deliver,
    /// It is kept, and the context waits with this.
    Append(PendingView),
    /// It is kept, and the context is a new one that waits with these packets.
    Open(Seq<Seq<u8>>),
    /// It exceeds a limit.
    Refuse,
}

/// What becomes of a socket that is given to a context.
pub enum Stored {
    /// The context has it, and what the context kept is handed out.
    Flush(PendingView),
    /// The context has it, and kept nothing before.
    Quiet,
    /// The context had a socket already, or there is no room for the context.
    Refuse,
}

impl<T> IDStoreView<T> {
    /// `after` has one context more than `self`: `id`, which waits with `packets`, announced on
    /// some channel.
    pub open spec fn gained_pending(
        self,
        id: u16,
        packets: Seq<Seq<u8>>,
        after: IDStoreView<T>,
    ) -> bool {
        exists|notify: Sender<()>|
            after == #[trigger] self.with(
                id,
                ContextView::Pending(PendingView { notify, packets }),
            )
    }

    /// What becomes of a datagram for `id` with these bytes.
    pub open spec fn fed(self, id: u16, packet: Seq<u8>) -> Fed {
        if self.contexts.contains_key(id) {
            match self.contexts[id] {
                ContextView::Ready(_) => Fed::Deliver,
                ContextView::Pending(pending) => if fits(pending.packets, packet) {
                    Fed::Append(
                        PendingView { packets: pending.packets.push(packet), ..pending },
                    )
                } else {
                    Fed::Refuse
                },
            }
        } else if self.has_pending_room() && fits(Seq::empty(), packet) {
            Fed::Open(seq![packet])
        } else {
            Fed::Refuse
        }
    }

    /// What becomes of a socket for `id`.
    pub open spec fn stored(self, id: u16) -> Stored {
        if self.contexts.contains_key(id) {
            match self.contexts[id] {
                ContextView::Ready(_) => Stored::Refuse,
                ContextView::Pending(pending) => Stored::Flush(pending),
            }
        } else if self.has_room() {
            Stored::Quiet
        } else {
            Stored::Refuse
        }
    }

    /// `self` without the contexts `ids`.
    pub open spec fn without(self, ids: Set<u16>) -> IDStoreView<T> {
        IDStoreView { contexts: self.contexts.remove_keys(ids), ..self }
    }
}

/// Forgetting contexts keeps the limits.
proof fn lemma_without<T>(view: IDStoreView<T>, ids: Set<u16>)
    requires
        view.bounded(),
    ensures
        view.without(ids).bounded(),
{
    let after = view.without(ids).contexts;
    assert(after.dom() == view.contexts.dom().difference(ids));
    assert(after.dom().subset_of(view.contexts.dom()));
    vstd::set_lib::lemma_len_subset(after.dom(), view.contexts.dom());
    view.contexts.dom().lemma_len_filter(|id: u16| view.contexts[id] is Pending);
    assert(pending_ids(after).subset_of(pending_ids(view.contexts)));
    vstd::set_lib::lemma_len_subset(pending_ids(after), pending_ids(view.contexts));
}

/// The id after `id`, counting around.
pub open spec fn wrapping_next(id: u16) -> u16 {
    if id == u16::MAX {
        0
    } else {
        (id + 1) as u16
    }
}

/// A set with all the ids below `n` has at least `n` members.
proof fn lemma_len_of_initial_ids(ids: Set<u16>, n: nat)
    requires
        ids.finite(),
        n <= 0x1_0000,
        forall|id: u16| id < n ==> #[trigger] ids.contains(id),
    ensures
        ids.len() >= n,
    decreases n,
{
    if n > 0 {
        let last = (n - 1) as u16;
        assert(ids.contains(last));
        lemma_len_of_initial_ids(ids.remove(last), (n - 1) as nat);
    }
}

/// What setting a context does to the number of contexts and to which of them wait.
proof fn lemma_with<T>(view: IDStoreView<T>, id: u16, context: ContextView<T>)
    requires
        view.contexts.dom().finite(),
    ensures
        view.with(id, context).contexts.dom().finite(),
        view.with(id, context).contexts.len() == view.contexts.len() + (
        if view.contexts.contains_key(id) {
            0int
        } else {
            1int
        }),
        pending_ids(view.contexts).finite(),
        pending_ids(view.with(id, context).contexts) == if context is Pending {
            pending_ids(view.contexts).insert(id)
        } else {
            pending_ids(view.contexts).remove(id)
        },
        pending_ids(view.contexts).contains(id) <==> view.contexts.contains_key(id)
            && view.contexts[id] is Pending,
{
    let after = view.with(id, context).contexts;
    assert(after.dom() == view.contexts.dom().insert(id));
    let before_pending = pending_ids(view.contexts);
    if context is Pending {
        assert(pending_ids(after) == before_pending.insert(id));
    } else {
        assert(pending_ids(after) == before_pending.remove(id));
    }
    view.contexts.dom().lemma_len_filter(|id: u16| view.contexts[id] is Pending);
}

/// `after` is `before` once a datagram for `id` was taken in.
pub open spec fn took_in<T>(
    before: IDStoreView<T>,
    id: u16,
    packet: Seq<u8>,
    after: IDStoreView<T>,
) -> bool {
    match before.fed(id, packet) {
        Fed::Deliver => after == before,
        Fed::Append(pending) => after == before.with(id, ContextView::Pending(pending)),
        Fed::Open(packets) => before.gained_pending(id, packets, after),
        Fed::Refuse => false,
    }
}

/// The packets that arrive for a context before its socket come out when the socket does: all
/// of them, in the order of their arrival.
pub proof fn law_early_packets_are_kept_in_order<T>(
    states: Seq<IDStoreView<T>>,
    id: u16,
    packets: Seq<Seq<u8>>,
)
    requires
        packets.len() > 0,
        states.len() == packets.len() + 1,
        !states[0].contexts.contains_key(id),
        forall|i: int|
            0 <= i < packets.len() ==> #[trigger] took_in(states[i], id, packets[i], states[i + 1]),
    ensures
        states.last().stored(id) matches Stored::Flush(pending) && pending.packets == packets,
    decreases packets.len(),
{
    let last = packets.len() - 1;
    assert(took_in(states[last], id, packets[last], states[last + 1]));
    if last > 0 {
        assert forall|i: int| 0 <= i < packets.drop_last().len() implies #[trigger] took_in(
            states.drop_last()[i],
            id,
            packets.drop_last()[i],
            states.drop_last()[i + 1],
        ) by {
            assert(took_in(states[i], id, packets[i], states[i + 1]));
        }
        law_early_packets_are_kept_in_order(states.drop_last(), id, packets.drop_last());
        assert(packets == packets.drop_last().push(packets.last()));
    } else {
        assert(packets == seq![packets[0]]);
    }
}

/// Whoever waits for a context is told when it gets its socket: the channel that is handed out
/// then is the one that was waited on, whatever packets arrived meanwhile.
pub proof fn law_waiters_are_told<T>(
    states: Seq<IDStoreView<T>>,
    id: u16,
    packets: Seq<Seq<u8>>,
    receiver: Receiver<()>,
)
    requires
        states.len() == packets.len() + 1,
        states[0].contexts.contains_key(id),
        states[0].contexts[id] matches ContextView::Pending(pending) && notify::listens(
            receiver,
            pending.notify,
        ),
        forall|i: int|
            0 <= i < packets.len() ==> #[trigger] took_in(states[i], id, packets[i], states[i + 1]),
    ensures
        states.last().stored(id) matches Stored::Flush(pending) && notify::listens(
            receiver,
            pending.notify,
        ),
    decreases packets.len(),
{
    if packets.len() > 0 {
        let last = packets.len() - 1;
        assert(took_in(states[last], id, packets[last], states[last + 1]));
        assert forall|i: int| 0 <= i < packets.drop_last().len() implies #[trigger] took_in(
            states.drop_last()[i],
            id,
            packets.drop_last()[i],
            states.drop_last()[i + 1],
        ) by {
            assert(took_in(states[i], id, packets[i], states[i + 1]));
        }
        law_waiters_are_told(states.drop_last(), id, packets.drop_last(), receiver);
    }
}

/// The limits on contexts hold of every store.
pub proof fn law_limits_hold<T>(store: IDStore<T>)
    requires
        store.wf(),
    ensures
        store@.contexts.len() <= MAX_CONTEXT_IDS,
        pending_ids(store@.contexts).len() <= MAX_PENDING_CONTEXTS,
        forall|id: u16| #[trigger]
            store@.contexts.contains_key(id) ==> (
            store@.contexts[id] matches ContextView::Pending(pending) ==> pending.packets.len()
                <= MAX_PENDING_PACKETS_PER_CONTEXT && total_bytes(pending.packets)
                <= MAX_PENDING_BYTES_PER_CONTEXT),
{
}

/// A context that has its socket is refused another and gets its datagrams sent on.
pub proof fn law_a_socket_stays<T>(view: IDStoreView<T>, id: u16, socket: T, packet: Seq<u8>)
    ensures
        view.with(id, ContextView::Ready(socket)).stored(id) is Refuse,
        view.with(id, ContextView::Ready(socket)).fed(id, packet) is Deliver,
{
}

/// An id that was handed out is not handed out again before it is released.
pub proof fn law_ids_are_handed_out_once<T>(view: IDStoreView<T>, id: u16, socket: T, next: u16)
    requires
        view.is_next_free(id),
        view.handed_out(id, socket).is_next_free(next),
    ensures
        next != id,
        !view.contexts.contains_key(next),
{
}

/// Setting one context leaves the others as they were.
pub proof fn law_other_contexts_are_left_alone<T>(
    view: IDStoreView<T>,
    id: u16,
    context: ContextView<T>,
    other: u16,
)
    requires
        other != id,
    ensures
        view.with(id, context).contexts.contains_key(other) <==> view.contexts.contains_key(other),
        view.contexts.contains_key(other) ==> view.with(id, context).contexts[other]
            == view.contexts[other],
{
}

/// Releasing forgets the released contexts and no others.
pub proof fn law_release_forgets_its_ids_only<T>(view: IDStoreView<T>, ids: Set<u16>, id: u16)
    ensures
        view.without(ids).contexts.contains_key(id) <==> view.contexts.contains_key(id)
            && !ids.contains(id),
        view.without(ids).contexts.contains_key(id) ==> view.without(ids).contexts[id]
            == view.contexts[id],
{
}

/// How much there is room for: 4096 contexts, of which 128 may wait for their socket, each with
/// at most 32 packets and at most 262144 bytes.
pub proof fn law_room<T>(view: IDStoreView<T>, packets: Seq<Seq<u8>>, packet: Seq<u8>)
    ensures
        view.has_room() <==> view.contexts.len() < 4096,
        view.has_pending_room() <==> view.contexts.len() < 4096 && pending_ids(view.contexts).len()
            < 128,
        fits(packets, packet) <==> packets.len() < 32 && total_bytes(packets) + packet.len()
            <= 262144,
        view.bounded() ==> view.contexts.len() <= 4096 && pending_ids(view.contexts).len() <= 128,
{
}

/// The bytes of packets are counted packet by packet.
pub proof fn law_bytes_add_up(packets: Seq<Seq<u8>>, packet: Seq<u8>)
    ensures
        total_bytes(Seq::empty()) == 0,
        total_bytes(packets.push(packet)) == total_bytes(packets) + packet.len(),
{
    assert(packets.push(packet).drop_last() == packets);
}

/// The contents of buffers are those of each buffer, in their order.
pub proof fn law_contents_keep_their_order(packets: Seq<Bytes>, i: int)
    ensures
        contents(packets).len() == packets.len(),
        0 <= i < packets.len() ==> contents(packets)[i] == buffer::bytes_contents(packets[i]),
{
}

/// A context waits exactly where it is there and has no socket.
pub proof fn law_waiting_contexts_have_no_socket<T>(view: IDStoreView<T>, id: u16)
    ensures
        pending_ids(view.contexts).contains(id) <==> view.contexts.contains_key(id) && !(
        view.contexts[id] is Ready),
{
}

/// Counting on from an id by its distance to another reaches that one, and by less does not.
pub proof fn law_distances_count_around(from: u16, to: u16, k: int)
    ensures
        0 <= distance(from, to) < 0x1_0000,
        (from + distance(from, to)) % 0x1_0000 == to,
        0 <= k < distance(from, to) ==> (from + k) % 0x1_0000 != to,
{
}

/// The next free id is the first one that is free, counting on from the counter and around: the
/// `n` ids before it are taken.
pub proof fn law_the_next_free_id_is_the_first<T>(view: IDStoreView<T>, n: int)
    requires
        0 <= n < 0x1_0000,
    ensures
        view.is_next_free(((view.next_id + n) % 0x1_0000) as u16) <==> !view.contexts.contains_key(
            ((view.next_id + n) % 0x1_0000) as u16,
        ) && forall|k: int|
            0 <= k < n ==> view.contexts.contains_key(
                #[trigger] (((view.next_id + k) % 0x1_0000) as u16),
            ),
{
    let id = ((view.next_id + n) % 0x1_0000) as u16;
    assert(distance(view.next_id, id) == n);
    if view.is_next_free(id) {
        assert forall|k: int| 0 <= k < n implies view.contexts.contains_key(
            #[trigger] (((view.next_id + k) % 0x1_0000) as u16),
        ) by {
            assert(distance(view.next_id, ((view.next_id + k) % 0x1_0000) as u16) == k);
        }
    }
    if !view.contexts.contains_key(id) && forall|k: int|
        0 <= k < n ==> view.contexts.contains_key(
            #[trigger] (((view.next_id + k) % 0x1_0000) as u16),
        ) {
        assert forall|other: u16|
            distance(view.next_id, other) < distance(
                view.next_id,
                id,
            ) implies #[trigger] view.contexts.contains_key(other) by {
            let k = distance(view.next_id, other);
            assert(((view.next_id + k) % 0x1_0000) as u16 == other);
        }
    }
}

/// Handing out an id gives it its socket, leaves the other contexts alone, and moves the counter
/// to the id after it, counting around.
pub proof fn law_handing_out_moves_the_counter<T>(
    view: IDStoreView<T>,
    id: u16,
    socket: T,
    other: u16,
)
    ensures
        ({
            let after = view.handed_out(id, socket);
            &&& after.next_id == (id + 1) % 0x1_0000
            &&& after.contexts.contains_key(id)
            &&& after.contexts[id] == ContextView::Ready(socket)
            &&& other != id ==> (after.contexts.contains_key(other)
                <==> view.contexts.contains_key(other))
            &&& other != id && view.contexts.contains_key(other) ==> after.contexts[other]
                == view.contexts[other]
        }),
{
}

/// Setting a context sets it, and neither this nor releasing contexts moves the counter.
pub proof fn law_contexts_are_set<T>(
    view: IDStoreView<T>,
    id: u16,
    context: ContextView<T>,
    ids: Set<u16>,
)
    ensures
        view.with(id, context).contexts.contains_key(id),
        view.with(id, context).contexts[id] == context,
        view.with(id, context).next_id == view.next_id,
        view.without(ids).next_id == view.next_id,
{
}

/// A new context that waits is there afterwards, with its packets; nothing else changes.
pub proof fn law_new_contexts_wait<T>(
    view: IDStoreView<T>,
    id: u16,
    packets: Seq<Seq<u8>>,
    after: IDStoreView<T>,
    other: u16,
)
    requires
        view.gained_pending(id, packets, after),
    ensures
        after.next_id == view.next_id,
        after.contexts.contains_key(id),
        after.contexts[id] matches ContextView::Pending(pending) && pending.packets == packets,
        other != id ==> (after.contexts.contains_key(other) <==> view.contexts.contains_key(other)),
        other != id && view.contexts.contains_key(other) ==> after.contexts[other]
            == view.contexts[other],
{
}

/// What becomes of a datagram. A context with a socket sends it on. One that waits keeps it
/// behind the packets that it has, on the channel that it has, as long as they are few enough
/// and small enough together. Another becomes one that waits with this packet alone, as long as
/// there is room.
pub proof fn law_datagrams_are_sent_kept_or_refused<T>(
    view: IDStoreView<T>,
    id: u16,
    packet: Seq<u8>,
    socket: T,
    pending: PendingView,
)
    ensures
        view.contexts.contains_key(id) && view.contexts[id] == ContextView::Ready(socket)
            ==> view.fed(id, packet) is Deliver,
        view.contexts.contains_key(id) && view.contexts[id] == ContextView::<T>::Pending(pending)
            && pending.packets.len() < 32 && total_bytes(pending.packets) + packet.len() <= 262144
            ==> view.fed(id, packet) == Fed::Append(
            PendingView { notify: pending.notify, packets: pending.packets.push(packet) },
        ),
        view.contexts.contains_key(id) && view.contexts[id] == ContextView::<T>::Pending(pending)
            && !(pending.packets.len() < 32 && total_bytes(pending.packets) + packet.len()
            <= 262144) ==> view.fed(id, packet) is Refuse,
        !view.contexts.contains_key(id) && view.contexts.len() < 4096 && pending_ids(
            view.contexts,
        ).len() < 128 && packet.len() <= 262144 ==> view.fed(id, packet) == Fed::Open(seq![packet]),
        !view.contexts.contains_key(id) && !(view.contexts.len() < 4096 && pending_ids(
            view.contexts,
        ).len() < 128 && packet.len() <= 262144) ==> view.fed(id, packet) is Refuse,
{
    law_bytes_add_up(Seq::empty(), packet);
}

/// What becomes of a socket. A context that waits for it hands out what it kept, one that has a
/// socket refuses another, and an unknown one takes it as long as there is room.
pub proof fn law_sockets_are_taken_or_refused<T>(
    view: IDStoreView<T>,
    id: u16,
    socket: T,
    pending: PendingView,
)
    ensures
        view.contexts.contains_key(id) && view.contexts[id] == ContextView::Ready(socket)
            ==> view.stored(id) is Refuse,
        view.contexts.contains_key(id) && view.contexts[id] == ContextView::<T>::Pending(pending)
            ==> view.stored(id) == Stored::Flush(pending),
        !view.contexts.contains_key(id) && view.contexts.len() < 4096 ==> view.stored(id) is Quiet,
        !view.contexts.contains_key(id) && view.contexts.len() >= 4096 ==> view.stored(
            id,
        ) is Refuse,
{
}

/// A context has the socket that it was given, or what waits for it.
pub proof fn law_contexts_are_viewed_by_their_state<T>(socket: T, pending: NotifyBuffer)
    ensures
        context_view(Ok(socket)) == ContextView::Ready(socket),
        context_view(Err::<T, NotifyBuffer>(pending)) == ContextView::<T>::Pending(pending@),
{
}

/// Looking up a context with a socket gives a clone of the socket, and one without gives an end
/// of its channel.
pub proof fn law_lookups_match_their_context<T: Clone>(
    socket: T,
    copy: T,
    pending: PendingView,
    receiver: Receiver<()>,
)
    ensures
        is_lookup(ContextView::Ready(socket), SocketLookup::Ready(copy)) <==> cloned(socket, copy),
        is_lookup(ContextView::<T>::Pending(pending), SocketLookup::<T>::Wait(receiver))
            <==> notify::listens(receiver, pending.notify),
        !is_lookup(ContextView::Ready(socket), SocketLookup::Wait(receiver)),
        !is_lookup(ContextView::<T>::Pending(pending), SocketLookup::Ready(copy)),
{
}

} // verus!
