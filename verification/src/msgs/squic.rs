//! The headers of UDP proxying over QUIC.

use vstd::prelude::*;

use crate::error::{SError, SResult};
use crate::msgs::number;
use crate::msgs::number::{get_be, put_be};
use crate::msgs::socks5;
use crate::msgs::socks5::SocksAddr;

verus! {

/// Announces the context `id` for the destination `dst`.
#[derive(Clone, Debug)]
pub struct SQUdpControlHeader {
    pub dst: SocksAddr,
    pub id: u16,
}

#[verifier::ext_equal]
pub struct SQUdpControlHeaderView {
    pub dst: socks5::SocksAddrView,
    pub id: u16,
}

impl View for SQUdpControlHeader {
    type V = SQUdpControlHeaderView;

    open spec fn view(&self) -> SQUdpControlHeaderView {
        SQUdpControlHeaderView { dst: self.dst@, id: self.id }
    }
}

/// The bytes of a sixteen-bit number.
pub open spec fn u16_bytes(x: u16) -> Seq<u8> {
    number::be(x as nat, 2)
}

/// The sixteen-bit number in the first two bytes of `s`.
pub open spec fn u16_of(s: Seq<u8>) -> u16 {
    number::unbe(s.take(2)) as u16
}

/// Reading a sixteen-bit number that was written gives it back, whatever follows.
pub proof fn law_u16_round_trip(x: u16, rest: Seq<u8>)
    ensures
        u16_bytes(x).len() == 2,
        u16_of(u16_bytes(x) + rest) == x,
{
    number::lemma_pow256(2);
    number::lemma_unbe_be(x as nat, 2);
    assert((u16_bytes(x) + rest).take(2) == u16_bytes(x));
}

/// The bytes of a sixteen-bit number.
pub fn encode_u16(x: u16) -> (r: Vec<u8>)
    ensures
        r@ == u16_bytes(x),
{
    let mut buf: Vec<u8> = Vec::new();
    put_be(&mut buf, x as u128, 2);
    assert(buf@ == u16_bytes(x));
    buf
}

/// Reads a sixteen-bit number off the front of `buf`.
pub fn decode_u16(buf: &[u8]) -> (r: SResult<u16>)
    ensures
        buf@.len() >= 2 ==> r == Ok::<u16, SError>(u16_of(buf@)),
        buf@.len() < 2 ==> (r matches Err(e) && e.is_eof()),
{
    if buf.len() < 2 {
        return Err(SError::eof());
    }
    proof {
        number::lemma_pow256(2);
        assert(buf@.take(2) == buf@.subrange(0, 2));
    }
    Ok(get_be(buf, 0, 2) as u16)
}

impl SQUdpControlHeaderView {
    pub open spec fn bytes(self) -> Seq<u8> {
        self.dst.bytes() + u16_bytes(self.id)
    }
}

/// The control header at the front of `s`.
pub open spec fn control_decode(s: Seq<u8>) -> socks5::Decoded<SQUdpControlHeaderView> {
    match socks5::addr_decode(s) {
        socks5::Decoded::Value(dst, used) => if s.len() < used + 2 {
            socks5::Decoded::Short
        } else {
            socks5::Decoded::Value(
                SQUdpControlHeaderView { dst, id: u16_of(s.skip(used as int)) },
                used + 2,
            )
        },
        socks5::Decoded::Short => socks5::Decoded::Short,
        socks5::Decoded::Invalid => socks5::Decoded::Invalid,
    }
}

impl SQUdpControlHeader {
    /// The bytes of the header.
    pub fn encode(&self) -> (r: Vec<u8>)
        ensures
            r@ == self@.bytes(),
    {
        let mut buf: Vec<u8> = Vec::new();
        self.dst.encode(&mut buf);
        put_be(&mut buf, self.id as u128, 2);
        assert(buf@ == self@.bytes());
        buf
    }

    /// Reads the header at the front of `buf`; also gives the number of its bytes.
    pub fn decode(buf: &[u8]) -> (r: SResult<(SQUdpControlHeader, usize)>)
        ensures
            match control_decode(buf@) {
                socks5::Decoded::Value(header, used) => r matches Ok((v, end)) && v@ == header
                    && end == used && end <= buf@.len(),
                socks5::Decoded::Short => r matches Err(e) && e.is_eof(),
                socks5::Decoded::Invalid => r matches Err(e) && e is ProtocolViolation,
            },
    {
        assert(buf@.skip(0) == buf@);
        match SocksAddr::decode(buf, 0) {
            Ok((dst, end)) => {
                if buf.len() - end < 2 {
                    return Err(SError::eof());
                }
                proof {
                    number::lemma_pow256(2);
                    assert(buf@.skip(end as int).take(2) == buf@.subrange(end as int, end + 2));
                }
                let id = get_be(buf, end, 2) as u16;
                Ok((SQUdpControlHeader { dst, id }, end + 2))
            },
            Err(e) => Err(e),
        }
    }
}

/// Reading a control header that was written gives it back and takes exactly its bytes.
pub proof fn law_control_header_round_trip(header: SQUdpControlHeaderView, rest: Seq<u8>)
    requires
        header.dst.wf(),
    ensures
        control_decode(header.bytes() + rest) == socks5::Decoded::Value(
            header,
            header.bytes().len(),
        ),
{
    let s = header.bytes() + rest;
    let tail = u16_bytes(header.id) + rest;
    assert(s == header.dst.bytes() + tail);
    socks5::law_address_round_trip(header.dst, tail);
    assert(s.skip(header.dst.bytes().len() as int) == tail);
    law_u16_round_trip(header.id, rest);
}

/// A control header needs all its bytes: any shorter part of them is incomplete.
pub proof fn law_control_header_needs_all_its_bytes(s: Seq<u8>, k: int)
    requires
        control_decode(s) matches socks5::Decoded::Value(_, used) && 0 <= k < used,
    ensures
        control_decode(s.take(k)) is Short,
{
    let used = socks5::addr_decode(s)->Value_1;
    if k < used {
        socks5::law_address_needs_all_its_bytes(s, k);
    } else {
        socks5::law_address_ignores_what_follows(s, k);
    }
}

/// A context id or a length is written with its high byte first.
pub proof fn law_u16_layout(x: u16, s: Seq<u8>)
    ensures
        u16_bytes(x) == seq![(x / 256) as u8, (x % 256) as u8],
        s.len() >= 2 ==> u16_of(s) == s[0] * 256 + s[1],
{
    number::law_two_bytes(x, s[0], s[1]);
    if s.len() >= 2 {
        assert(s.take(2) == seq![s[0], s[1]]);
    }
}

/// A control header is an address, and then a context id.
pub proof fn law_control_header_layout(
    dst: socks5::SocksAddrView,
    high: u8,
    low: u8,
    rest: Seq<u8>,
)
    requires
        dst.wf(),
    ensures
        (SQUdpControlHeaderView { dst, id: (high * 256 + low) as u16 }).bytes() == dst.bytes()
            + seq![high, low],
        control_decode(dst.bytes() + seq![high, low] + rest) == socks5::Decoded::Value(
            SQUdpControlHeaderView { dst, id: (high * 256 + low) as u16 },
            dst.bytes().len() + 2,
        ),
{
    let id = (high * 256 + low) as u16;
    law_u16_layout(id, seq![high, low]);
    law_control_header_round_trip(SQUdpControlHeaderView { dst, id }, rest);
    assert(u16_bytes(id) == seq![high, low]);
}

/// A control header is known by its fields.
pub proof fn law_control_headers_are_known_by_their_fields(header: SQUdpControlHeader)
    ensures
        header@.dst == header.dst@,
        header@.id == header.id,
{
}

/// A control header that was read has the bytes that it was read from.
pub proof fn law_control_headers_are_what_was_read(s: Seq<u8>)
    requires
        control_decode(s) is Value,
    ensures
        control_decode(s)->Value_0.dst.wf(),
        control_decode(s)->Value_1 <= s.len(),
        s == control_decode(s)->Value_0.bytes() + s.skip(control_decode(s)->Value_1 as int),
{
    let header = control_decode(s)->Value_0;
    let used = socks5::addr_decode(s)->Value_1 as int;
    socks5::law_addresses_are_what_was_read(s);
    let tail = s.skip(used);
    law_u16_layout(header.id, tail);
    assert(u16_bytes(header.id) == seq![tail[0], tail[1]]);
    assert(tail == seq![tail[0], tail[1]] + s.skip(used + 2));
    assert(header.bytes() + s.skip(used + 2) == s);
}

} // verus!
