//! Requests to the proxy and the users they come from.

use vstd::prelude::*;

use crate::addr::SocketAddr;
use crate::error::{SError, SResult};
use crate::msgs::socks5::SocksAddr;

verus! {

/// A connection that can be stopped.
pub trait Stoppable: Send + Sync {
    /// Stops the connection.
    fn stop(&self);

    /// The address of the peer, where it is known.
    fn remote_address(&self) -> (r: Option<SocketAddr>)
        default_ensures
            r is None,
    {
        None
    }
}

/// A handle to a connection that does not keep the connection alive.
pub trait WeakConnection {
    type Live: Stoppable;

    /// The connection, while it is alive.
    fn upgrade(&self) -> Option<Self::Live>;
}

pub type UserName = String;

/// The user that a request comes from, and the connection it comes by.
pub struct UserContext<H> {
    pub username: UserName,
    pub conn_handle: H,
    pub conn_id: u64,
}

/// A TCP connection to be proxied.
pub struct TcpSession<IO, H> {
    pub stream: IO,
    pub dst: SocksAddr,
    pub user_context: Option<UserContext<H>>,
}

/// A UDP association to be proxied.
pub struct UdpSession<I, O, C, H> {
    pub recv: I,
    pub send: O,
    /// The control stream, kept as long as the association lasts.
    pub stream: Option<C>,
    pub bind_addr: SocksAddr,
    pub user_context: Option<UserContext<H>>,
}

/// What a client asks the proxy for.
pub enum ProxyRequest<T, I, O, C, H> {
    Tcp(TcpSession<T, H>),
    Udp(UdpSession<I, O, C, H>),
}

/// `address` is what a connection says its peer's address is, and there is none where the
/// connection is gone.
pub open spec fn is_address_of<S: Stoppable>(live: Option<S>, address: Option<SocketAddr>) -> bool {
    match live {
        Some(connection) => call_ensures(S::remote_address, (&connection,), address),
        None => address is None,
    }
}

/// The address of a connection's peer, while the connection is alive.
pub fn live_address<S: Stoppable>(live: Option<S>) -> (r: Option<SocketAddr>)
    ensures
        is_address_of(live, r),
{
    match live {
        Some(connection) => connection.remote_address(),
        None => None,
    }
}

impl<H: WeakConnection> UserContext<H> {
    /// `address` is the address of the peer for some state in which the connection can be.
    pub open spec fn may_have_address(self, address: Option<SocketAddr>) -> bool {
        exists|live: Option<H::Live>| #[trigger]
            call_ensures(H::upgrade, (&self.conn_handle,), live) && is_address_of(live, address)
    }

    /// The address of the user's peer, while the connection is alive.
    pub fn remote_address(&self) -> (r: Option<SocketAddr>)
        ensures
            self.may_have_address(r),
    {
        live_address(self.conn_handle.upgrade())
    }
}

impl<H> UserContext<H> {
    /// The name of the user.
    pub fn username(&self) -> (r: &str)
        ensures
            r@ == self.username@,
    {
        self.username.as_str()
    }
}

/// What a request says of its user: the name, where there is a user.
pub open spec fn name_of<H>(context: Option<UserContext<H>>) -> Option<Seq<char>> {
    match context {
        Some(context) => Some(context.username@),
        None => None,
    }
}

/// `address` is what a request may say of the peer: nothing, where there is no user.
pub open spec fn may_be_peer<H: WeakConnection>(
    context: Option<UserContext<H>>,
    address: Option<SocketAddr>,
) -> bool {
    match context {
        Some(context) => context.may_have_address(address),
        None => address is None,
    }
}

fn peer_address<H: WeakConnection>(context: &Option<UserContext<H>>) -> (r: Option<SocketAddr>)
    ensures
        may_be_peer(*context, r),
{
    match context {
        Some(context) => context.remote_address(),
        None => None,
    }
}

fn user_name<H>(context: &Option<UserContext<H>>) -> (r: Option<&str>)
    ensures
        r is Some <==> context is Some,
        r matches Some(name) ==> Some(name@) == name_of(*context),
{
    match context {
        Some(context) => Some(context.username()),
        None => None,
    }
}

impl<IO, H: WeakConnection> TcpSession<IO, H> {
    /// The address of the user's peer, while the connection is alive.
    pub fn remote_address(&self) -> (r: Option<SocketAddr>)
        ensures
            may_be_peer(self.user_context, r),
    {
        peer_address(&self.user_context)
    }
}

impl<IO, H> TcpSession<IO, H> {
    /// The name of the user, where there is one.
    pub fn username(&self) -> (r: Option<&str>)
        ensures
            r is Some <==> self.user_context is Some,
            r matches Some(name) ==> Some(name@) == name_of(self.user_context),
    {
        user_name(&self.user_context)
    }
}

impl<I, O, C, H: WeakConnection> UdpSession<I, O, C, H> {
    /// The address of the user's peer, while the connection is alive.
    pub fn remote_address(&self) -> (r: Option<SocketAddr>)
        ensures
            may_be_peer(self.user_context, r),
    {
        peer_address(&self.user_context)
    }
}

impl<I, O, C, H> UdpSession<I, O, C, H> {
    /// The name of the user, where there is one.
    pub fn username(&self) -> (r: Option<&str>)
        ensures
            r is Some <==> self.user_context is Some,
            r matches Some(name) ==> Some(name@) == name_of(self.user_context),
    {
        user_name(&self.user_context)
    }
}

impl<T, I, O, C, H> ProxyRequest<T, I, O, C, H> {
    /// The user that the request comes from.
    pub open spec fn context(self) -> Option<UserContext<H>> {
        match self {
            ProxyRequest::Tcp(session) => session.user_context,
            ProxyRequest::Udp(session) => session.user_context,
        }
    }

    /// The name of the user, where there is one.
    pub fn username(&self) -> (r: Option<&str>)
        ensures
            r is Some <==> self.context() is Some,
            r matches Some(name) ==> Some(name@) == name_of(self.context()),
    {
        match self {
            ProxyRequest::Tcp(session) => session.username(),
            ProxyRequest::Udp(session) => session.username(),
        }
    }
}

impl<T, I, O, C, H: WeakConnection> ProxyRequest<T, I, O, C, H> {
    /// The address of the user's peer, while the connection is alive.
    pub fn remote_address(&self) -> (r: Option<SocketAddr>)
        ensures
            may_be_peer(self.context(), r),
    {
        match self {
            ProxyRequest::Tcp(session) => session.remote_address(),
            ProxyRequest::Udp(session) => session.remote_address(),
        }
    }
}

/// What sending a packet of the given size into a channel comes to, where the channel accepted
/// it or not.
pub open spec fn sent(size: usize, accepted: bool) -> SResult<usize> {
    if accepted {
        Ok(size)
    } else {
        Err(SError::InboundUnavailable)
    }
}

/// What receiving from a channel comes to, where the channel handed out a packet or none.
pub open spec fn received<P>(packet: Option<P>) -> SResult<P> {
    match packet {
        Some(packet) => Ok(packet),
        None => Err(SError::OutboundUnavailable),
    }
}

/// The sending end of a channel of packets; `C` is what the program sends by.
pub struct PacketSender<C> {
    pub end: C,
}

/// The receiving end of a channel of packets; `C` is what the program receives by.
pub struct PacketReceiver<C> {
    pub end: C,
}

impl<C> PacketSender<C> {
    /// What sending a packet comes to: its size, unless the receiving end is gone.
    pub fn send_to(&self, size: usize, accepted: bool) -> (r: SResult<usize>)
        ensures
            r == sent(size, accepted),
    {
        if accepted {
            Ok(size)
        } else {
            Err(SError::InboundUnavailable)
        }
    }
}

impl<C> PacketReceiver<C> {
    /// What receiving a packet comes to: the packet, unless the sending ends are gone.
    pub fn recv_from<P>(&self, packet: Option<P>) -> (r: SResult<P>)
        ensures
            r == received(packet),
    {
        match packet {
            Some(packet) => Ok(packet),
            None => Err(SError::OutboundUnavailable),
        }
    }
}

/// Over a channel that accepts packets and hands each out once, in order, and then nothing more,
/// every sender is told the size of its packet, the packets are received unchanged and in the
/// order they were sent in, and after them the receiver is told that the channel is closed.
pub proof fn law_packets_are_received_as_they_were_sent<P>(
    packets: Seq<P>,
    sizes: Seq<usize>,
    accepted: Seq<bool>,
    handed_out: Seq<Option<P>>,
)
    requires
        sizes.len() == packets.len(),
        accepted == Seq::new(packets.len(), |i: int| true),
        handed_out == packets.map_values(|packet: P| Some(packet)).push(None),
    ensures
        forall|i: int|
            #![trigger packets[i]]
            0 <= i < packets.len() ==> sent(sizes[i], accepted[i]) == Ok::<usize, SError>(sizes[i])
                && received(handed_out[i]) == Ok::<P, SError>(packets[i]),
        received(handed_out[packets.len() as int]) == Err::<P, SError>(
            SError::OutboundUnavailable,
        ),
{
}

/// A connection that is gone has no address.
pub proof fn law_gone_connections_have_no_address<S: Stoppable>(address: Option<SocketAddr>)
    ensures
        is_address_of(None::<S>, address) ==> address is None,
{
}

/// A sender whose packet was not accepted is told that the inbound is gone; one whose packet was
/// is told its size.
pub proof fn law_senders_are_told<P>(size: usize, packet: P)
    ensures
        sent(size, true) == Ok::<usize, SError>(size),
        sent(size, false) == Err::<usize, SError>(SError::InboundUnavailable),
        received(Some(packet)) == Ok::<P, SError>(packet),
        received(None::<P>) == Err::<P, SError>(SError::OutboundUnavailable),
{
}

/// A request comes from the user of its session, whose name it tells.
pub proof fn law_requests_tell_their_user<T, I, O, C, H>(
    tcp: TcpSession<T, H>,
    udp: UdpSession<I, O, C, H>,
    user: UserContext<H>,
)
    ensures
        ProxyRequest::<T, I, O, C, H>::Tcp(tcp).context() == tcp.user_context,
        ProxyRequest::<T, I, O, C, H>::Udp(udp).context() == udp.user_context,
        name_of(Some(user)) == Some(user.username@),
        name_of(None::<UserContext<H>>) is None,
{
}

/// The address of a peer is the one that its connection tells. There is none without a user, nor
/// where the connection is gone.
pub proof fn law_connections_tell_the_address<H: WeakConnection>(
    user: UserContext<H>,
    live: H::Live,
    address: Option<SocketAddr>,
)
    ensures
        is_address_of(Some(live), address) <==> call_ensures(
            <H::Live as Stoppable>::remote_address,
            (&live,),
            address,
        ),
        may_be_peer(None::<UserContext<H>>, address) <==> address is None,
        may_be_peer(Some(user), address) <==> user.may_have_address(address),
        (forall|found: Option<H::Live>| #[trigger]
            call_ensures(H::upgrade, (&user.conn_handle,), found) ==> found is None)
            && user.may_have_address(address) ==> address is None,
        (forall|found: Option<H::Live>| #[trigger]
            call_ensures(H::upgrade, (&user.conn_handle,), found) ==> found == Some(live))
            && user.may_have_address(address) ==> call_ensures(
            <H::Live as Stoppable>::remote_address,
            (&live,),
            address,
        ),
{
}

} // verus!
