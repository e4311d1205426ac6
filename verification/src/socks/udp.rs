//! UDP packets that travel with a SOCKS header.

use bytes::Bytes;
use vstd::prelude::*;

use crate::addr::{normalize_ip, to_ipv4_mapped, IpAddr, SocketAddr};
use crate::buffer;
use crate::buffer::{as_slice, concat, slice_from};
use crate::error::SResult;
use crate::msgs::socks5;
use crate::msgs::socks5::{SocksAddr, UdpReqHeader};

verus! {

/// How much room a packet is given before it is put together.
pub const PACKET_CAPACITY: usize = 1600;

/// One end of a SOCKS UDP association: whom it talks to, once that is known, and who may talk
/// to it.
#[derive(Clone, Copy, Debug)]
pub struct UdpSocksWrap {
    pub remote: Option<SocketAddr>,
    pub allowed_peer_ip: Option<IpAddr>,
}

/// What to do about a packet.
pub enum RecvStep {
    /// Nothing: the packet comes from someone else, or is a fragment.
    Drop,
    /// Pass the payload on. Where `connect` names the peer, the socket is connected to it
    /// first.
    Deliver { connect: Option<SocketAddr>, payload: Bytes, dst: SocksAddr },
}

/// What becomes of a packet.
pub enum Received {
    Drop,
    Short,
    Invalid,
    Deliver { connect: Option<SocketAddr>, payload: Seq<u8>, dst: socks5::SocksAddrView },
}

impl UdpSocksWrap {
    /// Whether a packet of `peer` is looked at.
    pub open spec fn admits(self, peer: SocketAddr) -> bool {
        match self.allowed_peer_ip {
            Some(allowed) => allowed == peer.unmapped().spec_ip(),
            None => true,
        }
    }

    /// What becomes of a packet of `peer`.
    pub open spec fn received(self, packet: Seq<u8>, peer: SocketAddr) -> Received {
        if !self.admits(peer) {
            Received::Drop
        } else {
            match socks5::udp_header_decode(packet) {
                socks5::Decoded::Short => Received::Short,
                socks5::Decoded::Invalid => Received::Invalid,
                socks5::Decoded::Value(header, used) => if header.frag != 0 {
                    Received::Drop
                } else {
                    Received::Deliver {
                        connect: if self.remote is None {
                            Some(peer.unmapped())
                        } else {
                            None
                        },
                        payload: packet.skip(used as int),
                        dst: header.dst,
                    }
                },
            }
        }
    }

    /// An end that waits for its peer, which must have the given address if there is one.
    pub fn inbound(peer_ip: Option<IpAddr>) -> (r: UdpSocksWrap)
        ensures
            r.remote is None,
            r.allowed_peer_ip == match peer_ip {
                Some(ip) => Some(ip.unmapped()),
                None => None,
            },
    {
        let allowed_peer_ip = match peer_ip {
            Some(ip) => Some(normalize_ip(ip)),
            None => None,
        };
        UdpSocksWrap { remote: None, allowed_peer_ip }
    }

    /// An end that is connected to `remote`.
    pub fn connected(remote: SocketAddr) -> (r: UdpSocksWrap)
        ensures
            r.remote == Some(remote),
            r.allowed_peer_ip is None,
    {
        UdpSocksWrap { remote: Some(remote), allowed_peer_ip: None }
    }

    /// Decides about a packet of `peer`.
    pub fn recv_from(&self, packet: &Bytes, peer: SocketAddr) -> (r: SResult<RecvStep>)
        ensures
            match self.received(buffer::bytes_contents(*packet), peer) {
                Received::Drop => r matches Ok(RecvStep::Drop),
                Received::Short => r matches Err(e) && e.is_eof(),
                Received::Invalid => r matches Err(e) && e is ProtocolViolation,
                Received::Deliver { connect, payload, dst } => r matches Ok(
                    RecvStep::Deliver { connect: c, payload: p, dst: d },
                ) && c == connect && buffer::bytes_contents(p) == payload && d@ == dst,
            },
            self.allowed_peer_ip matches Some(allowed) ==> (allowed != peer.spec_ip().unmapped()
                ==> r matches Ok(RecvStep::Drop)),
            self.allowed_peer_ip is None || self.allowed_peer_ip == Some(peer.spec_ip().unmapped())
                ==> match socks5::udp_header_decode(buffer::bytes_contents(*packet)) {
                socks5::Decoded::Short => r matches Err(e) && e.is_eof(),
                socks5::Decoded::Invalid => r matches Err(e) && e is ProtocolViolation,
                socks5::Decoded::Value(header, used) => if header.frag != 0 {
                    r matches Ok(RecvStep::Drop)
                } else {
                    r matches Ok(RecvStep::Deliver { connect, payload, dst }) && connect
                        == match self.remote {
                        Some(_) => None,
                        None => Some(peer.unmapped()),
                    } && buffer::bytes_contents(payload) == buffer::bytes_contents(*packet).skip(
                        used as int,
                    ) && dst@ == header.dst
                },
            },
    {
        let peer = to_ipv4_mapped(peer);
        match self.allowed_peer_ip {
            Some(allowed) => {
                if allowed != peer.ip() {
                    return Ok(RecvStep::Drop);
                }
            },
            None => {},
        }
        let (header, used) = match UdpReqHeader::decode(as_slice(packet)) {
            Ok(decoded) => decoded,
            Err(e) => {
                return Err(e);
            },
        };
        if header.frag != 0 {
            return Ok(RecvStep::Drop);
        }
        let connect = match self.remote {
            Some(_) => None,
            None => Some(peer),
        };
        Ok(RecvStep::Deliver { connect, payload: slice_from(packet, used), dst: header.dst })
    }

    /// Records that the socket is connected to `peer`. The first peer stays.
    pub fn record_remote(&mut self, peer: SocketAddr)
        ensures
            final(self).allowed_peer_ip == old(self).allowed_peer_ip,
            final(self).remote == match old(self).remote {
                Some(remote) => Some(remote),
                None => Some(peer),
            },
    {
        match self.remote {
            Some(_) => {},
            None => {
                self.remote = Some(peer);
            },
        }
    }
}

/// The packet that carries `payload` for `dst`.
pub open spec fn packet_bytes(payload: Seq<u8>, dst: socks5::SocksAddrView) -> Seq<u8> {
    (socks5::UdpReqHeaderView { rsv: 0, frag: 0, dst }).bytes() + payload
}

/// Puts a packet together.
pub fn send_to(payload: Bytes, addr: SocksAddr) -> (r: Bytes)
    requires
        packet_bytes(buffer::bytes_contents(payload), addr@).len() <= isize::MAX,
    ensures
        buffer::bytes_contents(r) == packet_bytes(buffer::bytes_contents(payload), addr@),
{
    let header = UdpReqHeader { rsv: 0, frag: 0, dst: addr };
    concat(header.encode(), payload, PACKET_CAPACITY)
}

/// A packet that was sent is passed on as it was: the same payload for the same destination.
pub proof fn law_packet_round_trip(
    receiver: UdpSocksWrap,
    payload: Seq<u8>,
    dst: socks5::SocksAddrView,
    peer: SocketAddr,
)
    requires
        dst.wf(),
        receiver.admits(peer),
    ensures
        receiver.received(packet_bytes(payload, dst), peer) matches Received::Deliver {
            payload: p,
            dst: d,
            ..
        } && p == payload && d == dst,
{
    let header = socks5::UdpReqHeaderView { rsv: 0, frag: 0, dst };
    socks5::law_udp_header_round_trip(header, payload);
    assert(packet_bytes(payload, dst).skip(header.bytes().len() as int) == payload);
}

/// Where the peer's address is given, packets of anyone else are dropped, whatever they hold.
pub proof fn law_strangers_are_dropped(
    receiver: UdpSocksWrap,
    allowed: IpAddr,
    packet: Seq<u8>,
    peer: SocketAddr,
)
    requires
        receiver.allowed_peer_ip == Some(allowed.unmapped()),
        allowed.unmapped() != peer.spec_ip().unmapped(),
    ensures
        receiver.received(packet, peer) is Drop,
{
}

/// The address of a peer is the same whether it comes as IPv4 or mapped into IPv6.
pub proof fn law_mapped_peers_are_admitted_alike(receiver: UdpSocksWrap, a: SocketAddr, b: SocketAddr)
    requires
        a.spec_ip().unmapped() == b.spec_ip().unmapped(),
    ensures
        receiver.admits(a) == receiver.admits(b),
{
}

/// Fragments are dropped.
pub proof fn law_fragments_are_dropped(receiver: UdpSocksWrap, packet: Seq<u8>, peer: SocketAddr)
    requires
        socks5::udp_header_decode(packet) matches socks5::Decoded::Value(header, _) && header.frag
            != 0,
    ensures
        receiver.received(packet, peer) is Drop,
{
}

/// Where the peer's address is given, exactly the packets from this address are looked at,
/// whether it is an IPv4 or an IPv6 address. Where it is not, every packet is.
pub proof fn law_exactly_the_peer_is_admitted(
    receiver: UdpSocksWrap,
    allowed: IpAddr,
    peer: SocketAddr,
)
    ensures
        receiver.allowed_peer_ip == Some(allowed.unmapped()) ==> (receiver.admits(peer)
            <==> peer.spec_ip().unmapped() == allowed.unmapped()),
        receiver.allowed_peer_ip is None ==> receiver.admits(peer),
{
}

/// A packet that is looked at and is no fragment is passed on, with what follows its header as
/// the payload and the destination that the header names. The first one connects the socket to
/// its peer.
pub proof fn law_packets_are_passed_on(
    receiver: UdpSocksWrap,
    high: u8,
    low: u8,
    frag: u8,
    payload: Seq<u8>,
    dst: socks5::SocksAddrView,
    peer: SocketAddr,
)
    requires
        dst.wf(),
    ensures
        ({
            let packet = seq![high, low, frag] + dst.bytes() + payload;
            &&& receiver.admits(peer) && frag == 0 ==> receiver.received(packet, peer)
                == (Received::Deliver {
                connect: if receiver.remote is None {
                    Some(peer.unmapped())
                } else {
                    None
                },
                payload,
                dst,
            })
            &&& frag != 0 || !receiver.admits(peer) ==> receiver.received(packet, peer) is Drop
        }),
{
    let packet = seq![high, low, frag] + dst.bytes() + payload;
    let header = socks5::UdpReqHeaderView { rsv: (high * 256 + low) as u16, frag, dst };
    socks5::law_udp_header_layout(high, low, frag, Seq::empty(), Seq::empty(), dst);
    socks5::law_udp_header_round_trip(header, payload);
    assert(packet.skip(header.bytes().len() as int) == payload);
}

/// A packet is dropped for two reasons alone: who sent it, or that its header says that it is a
/// fragment. One whose header is cut off or unknown is an error.
pub proof fn law_nothing_else_is_dropped(receiver: UdpSocksWrap, packet: Seq<u8>, peer: SocketAddr)
    requires
        receiver.admits(peer),
    ensures
        receiver.received(packet, peer) is Drop ==> packet.len() >= 3 && packet[2] != 0,
        receiver.received(packet, peer) is Short <==> socks5::udp_header_decode(packet) is Short,
        receiver.received(packet, peer) is Invalid <==> socks5::udp_header_decode(packet) is Invalid,
{
}

/// A packet is sent behind three zero bytes and the address of its destination.
pub proof fn law_packet_layout(payload: Seq<u8>, dst: socks5::SocksAddrView)
    ensures
        packet_bytes(payload, dst) == seq![0u8, 0u8, 0u8] + dst.bytes() + payload,
{
    socks5::law_udp_header_layout(0, 0, 0, Seq::empty(), Seq::empty(), dst);
}

} // verus!
