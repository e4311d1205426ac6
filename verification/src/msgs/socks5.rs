//! SOCKS5 messages.

use vstd::prelude::*;

use crate::addr::{IpAddr, SocketAddr};
use crate::buffer::same_bytes;
use crate::error::{SError, SResult};
use crate::msgs::number;
use crate::msgs::number::{get_be, put_be};

verus! {

pub const SOCKS5_VERSION: u8 = 0x05;

pub const SOCKS5_AUTH_METHOD_NONE: u8 = 0x00;

pub const SOCKS5_AUTH_METHOD_PASSWORD: u8 = 0x02;

pub const SOCKS5_PASSWORD_AUTH_VERSION: u8 = 0x01;

pub const SOCKS5_CMD_TCP_CONNECT: u8 = 0x01;

pub const SOCKS5_CMD_UDP_ASSOCIATE: u8 = 0x03;

pub const SOCKS5_RESERVE: u8 = 0x00;

pub const SOCKS5_REPLY_SUCCEEDED: u8 = 0x00;

pub const SOCKS5_ADDR_TYPE_IPV4: u8 = 0x01;

pub const SOCKS5_ADDR_TYPE_DOMAIN_NAME: u8 = 0x03;

pub const SOCKS5_ADDR_TYPE_IPV6: u8 = 0x04;

/// What reading a message off the front of a byte sequence gives.
pub enum Decoded<T> {
    /// The message and how many bytes it takes.
    Value(T, nat),
    /// The bytes end before the message does.
    Short,
    /// The bytes are no such message, whatever follows.
    Invalid,
}

/// Bytes with their count in front.
#[derive(Clone, Debug)]
pub struct VarVec {
    pub len: u8,
    pub contents: Vec<u8>,
}

/// A host: an address, or a name to be resolved.
#[derive(Clone, Debug)]
pub enum AddrOrDomain {
    V4(u32),
    V6(u128),
    Domain(VarVec),
}

/// A host and a port.
#[derive(Clone, Debug)]
pub struct SocksAddr {
    pub addr: AddrOrDomain,
    pub port: u16,
}

#[verifier::ext_equal]
pub enum HostView {
    V4(u32),
    V6(u128),
    Domain(u8, Seq<u8>),
}

/// A host and a port.
#[verifier::ext_equal]
pub struct SocksAddrView {
    pub host: HostView,
    pub port: u16,
}

impl View for SocksAddr {
    type V = SocksAddrView;

    open spec fn view(&self) -> SocksAddrView {
        SocksAddrView {
            host: match self.addr {
                AddrOrDomain::V4(ip) => HostView::V4(ip),
                AddrOrDomain::V6(ip) => HostView::V6(ip),
                AddrOrDomain::Domain(name) => HostView::Domain(name.len, name.contents@),
            },
            port: self.port,
        }
    }
}

impl SocksAddrView {
    /// A name has the length it says it has.
    pub open spec fn wf(self) -> bool {
        self.host matches HostView::Domain(len, name) ==> len == name.len()
    }

    /// The bytes of the address.
    pub open spec fn bytes(self) -> Seq<u8> {
        let host = match self.host {
            HostView::V4(ip) => seq![SOCKS5_ADDR_TYPE_IPV4] + number::be(ip as nat, 4),
            HostView::V6(ip) => seq![SOCKS5_ADDR_TYPE_IPV6] + number::be(ip as nat, 16),
            HostView::Domain(len, name) => seq![SOCKS5_ADDR_TYPE_DOMAIN_NAME, len] + name,
        };
        host + number::be(self.port as nat, 2)
    }
}

/// The address at the front of `s`.
pub open spec fn addr_decode(s: Seq<u8>) -> Decoded<SocksAddrView> {
    if s.len() == 0 {
        Decoded::Short
    } else if s[0] == SOCKS5_ADDR_TYPE_IPV4 {
        if s.len() < 7 {
            Decoded::Short
        } else {
            Decoded::Value(
                SocksAddrView {
                    host: HostView::V4(number::unbe(s.subrange(1, 5)) as u32),
                    port: number::unbe(s.subrange(5, 7)) as u16,
                },
                7,
            )
        }
    } else if s[0] == SOCKS5_ADDR_TYPE_IPV6 {
        if s.len() < 19 {
            Decoded::Short
        } else {
            Decoded::Value(
                SocksAddrView {
                    host: HostView::V6(number::unbe(s.subrange(1, 17)) as u128),
                    port: number::unbe(s.subrange(17, 19)) as u16,
                },
                19,
            )
        }
    } else if s[0] == SOCKS5_ADDR_TYPE_DOMAIN_NAME {
        if s.len() < 2 || s.len() < 4 + s[1] {
            Decoded::Short
        } else {
            Decoded::Value(
                SocksAddrView {
                    host: HostView::Domain(s[1], s.subrange(2, 2 + s[1])),
                    port: number::unbe(s.subrange(2 + s[1], 4 + s[1])) as u16,
                },
                (4 + s[1]) as nat,
            )
        }
    } else {
        Decoded::Invalid
    }
}

impl From<SocketAddr> for SocksAddr {
    /// The address as a destination.
    fn from(addr: SocketAddr) -> (r: SocksAddr) {
        match addr {
            SocketAddr::V4 { ip, port } => SocksAddr { addr: AddrOrDomain::V4(ip), port },
            SocketAddr::V6 { ip, port, .. } => SocksAddr { addr: AddrOrDomain::V6(ip), port },
        }
    }
}

impl vstd::std_specs::convert::FromSpecImpl<SocketAddr> for SocksAddr {
    open spec fn obeys_from_spec() -> bool {
        true
    }

    open spec fn from_spec(addr: SocketAddr) -> SocksAddr {
        SocksAddr {
            addr: match addr.spec_ip() {
                IpAddr::V4(ip) => AddrOrDomain::V4(ip),
                IpAddr::V6(ip) => AddrOrDomain::V6(ip),
            },
            port: addr.spec_port(),
        }
    }
}

impl SocksAddr {
    /// Whether both are the same host and port.
    pub fn same(&self, other: &SocksAddr) -> (r: bool)
        ensures
            r == (self@ == other@),
    {
        let hosts = match (&self.addr, &other.addr) {
            (AddrOrDomain::V4(a), AddrOrDomain::V4(b)) => *a == *b,
            (AddrOrDomain::V6(a), AddrOrDomain::V6(b)) => *a == *b,
            (AddrOrDomain::Domain(a), AddrOrDomain::Domain(b)) => a.len == b.len && same_bytes(
                &a.contents,
                &b.contents,
            ),
            _ => false,
        };
        hosts && self.port == other.port
    }

    /// A copy of the address.
    pub fn copy(&self) -> (r: SocksAddr)
        ensures
            r@ == self@,
    {
        let addr = match &self.addr {
            AddrOrDomain::V4(ip) => AddrOrDomain::V4(*ip),
            AddrOrDomain::V6(ip) => AddrOrDomain::V6(*ip),
            AddrOrDomain::Domain(name) => {
                let contents = name.contents.clone();
                assert(contents@ =~= name.contents@);
                AddrOrDomain::Domain(VarVec { len: name.len, contents })
            },
        };
        SocksAddr { addr, port: self.port }
    }

    /// Appends the bytes of the address.
    pub fn encode(&self, buf: &mut Vec<u8>)
        ensures
            final(buf)@ == old(buf)@ + self@.bytes(),
    {
        let ghost start = buf@;
        match &self.addr {
            AddrOrDomain::V4(ip) => {
                buf.push(SOCKS5_ADDR_TYPE_IPV4);
                put_be(buf, *ip as u128, 4);
            },
            AddrOrDomain::V6(ip) => {
                buf.push(SOCKS5_ADDR_TYPE_IPV6);
                put_be(buf, *ip, 16);
            },
            AddrOrDomain::Domain(name) => {
                buf.push(SOCKS5_ADDR_TYPE_DOMAIN_NAME);
                buf.push(name.len);
                let mut i: usize = 0;
                while i < name.contents.len()
                    invariant
                        i <= name.contents.len(),
                        buf@ == start + seq![SOCKS5_ADDR_TYPE_DOMAIN_NAME, name.len]
                            + name.contents@.take(i as int),
                    decreases name.contents.len() - i,
                {
                    buf.push(name.contents[i]);
                    i = i + 1;
                }
                assert(name.contents@.take(i as int) == name.contents@);
            },
        }
        put_be(buf, self.port as u128, 2);
        assert(buf@ == start + self@.bytes());
    }

    /// Reads the address at `from`; also gives the position behind it.
    pub fn decode(buf: &[u8], from: usize) -> (r: SResult<(SocksAddr, usize)>)
        requires
            from <= buf@.len(),
        ensures
            match addr_decode(buf@.skip(from as int)) {
                Decoded::Value(addr, used) => r matches Ok((a, end)) && a@ == addr && end == from
                    + used && end <= buf@.len(),
                Decoded::Short => r matches Err(e) && e.is_eof(),
                Decoded::Invalid => r matches Err(e) && e is ProtocolViolation,
            },
    {
        let ghost s = buf@.skip(from as int);
        let total: usize = buf.len();
        let left: usize = total - from;
        proof {
            number::lemma_pow256(16);
        }
        if left == 0 {
            return Err(SError::eof());
        }
        let kind = buf[from];
        if kind == SOCKS5_ADDR_TYPE_IPV4 {
            if left < 7 {
                return Err(SError::eof());
            }
            let ip = get_be(buf, from + 1, 4);
            let port = get_be(buf, from + 5, 2);
            assert(s.subrange(1, 5) == buf@.subrange(from + 1, from + 5));
            assert(s.subrange(5, 7) == buf@.subrange(from + 5, from + 7));
            Ok((SocksAddr { addr: AddrOrDomain::V4(ip as u32), port: port as u16 }, from + 7))
        } else if kind == SOCKS5_ADDR_TYPE_IPV6 {
            if left < 19 {
                return Err(SError::eof());
            }
            let ip = get_be(buf, from + 1, 16);
            let port = get_be(buf, from + 17, 2);
            assert(s.subrange(1, 17) == buf@.subrange(from + 1, from + 17));
            assert(s.subrange(17, 19) == buf@.subrange(from + 17, from + 19));
            Ok((SocksAddr { addr: AddrOrDomain::V6(ip), port: port as u16 }, from + 19))
        } else if kind == SOCKS5_ADDR_TYPE_DOMAIN_NAME {
            if left < 2 {
                return Err(SError::eof());
            }
            let len = buf[from + 1];
            let n: usize = len as usize;
            if left < 4 + n {
                return Err(SError::eof());
            }
            let mut contents: Vec<u8> = Vec::new();
            let mut i: usize = 0;
            while i < n
                invariant
                    i <= n,
                    from + 4 + n <= buf@.len() == total,
                    contents@ == buf@.subrange(from + 2, from + 2 + i),
                decreases n - i,
            {
                contents.push(buf[from + 2 + i]);
                i = i + 1;
            }
            let port = get_be(buf, from + 2 + n, 2);
            assert(s.subrange(2, 2 + n) == contents@);
            assert(s.subrange(2 + n, 4 + n) == buf@.subrange(from + 2 + n, from + 4 + n));
            Ok(
                (
                    SocksAddr {
                        addr: AddrOrDomain::Domain(VarVec { len, contents }),
                        port: port as u16,
                    },
                    from + 4 + n,
                ),
            )
        } else {
            Err(SError::ProtocolViolation)
        }
    }
}

/// Reading an address that was written gives it back and takes exactly its bytes, whatever
/// follows them.
pub proof fn law_address_round_trip(addr: SocksAddrView, rest: Seq<u8>)
    requires
        addr.wf(),
    ensures
        addr_decode(addr.bytes() + rest) == Decoded::Value(addr, addr.bytes().len()),
{
    number::lemma_pow256(16);
    number::lemma_unbe_be(addr.port as nat, 2);
    let s = addr.bytes() + rest;
    match addr.host {
        HostView::V4(ip) => {
            number::lemma_unbe_be(ip as nat, 4);
            assert(s.subrange(1, 5) == number::be(ip as nat, 4));
            assert(s.subrange(5, 7) == number::be(addr.port as nat, 2));
        },
        HostView::V6(ip) => {
            number::lemma_unbe_be(ip as nat, 16);
            assert(s.subrange(1, 17) == number::be(ip as nat, 16));
            assert(s.subrange(17, 19) == number::be(addr.port as nat, 2));
        },
        HostView::Domain(len, name) => {
            assert(s.subrange(2, 2 + len) == name);
            assert(s.subrange(2 + len, 4 + len) == number::be(addr.port as nat, 2));
        },
    }
}

/// An address read off the front of some bytes is well formed, and reading any shorter part
/// of its bytes finds it incomplete.
pub proof fn law_address_needs_all_its_bytes(s: Seq<u8>, k: int)
    requires
        addr_decode(s) matches Decoded::Value(_, used) && 0 <= k < used,
    ensures
        addr_decode(s)->Value_0.wf(),
        addr_decode(s.take(k)) is Short,
{
}

/// What follows an address does not change how it reads.
pub proof fn law_address_ignores_what_follows(s: Seq<u8>, k: int)
    requires
        addr_decode(s) matches Decoded::Value(_, used) && used <= k <= s.len(),
    ensures
        addr_decode(s.take(k)) == addr_decode(s),
{
    let t = s.take(k);
    if s[0] == SOCKS5_ADDR_TYPE_IPV4 {
        assert(t.subrange(1, 5) == s.subrange(1, 5));
        assert(t.subrange(5, 7) == s.subrange(5, 7));
    } else if s[0] == SOCKS5_ADDR_TYPE_IPV6 {
        assert(t.subrange(1, 17) == s.subrange(1, 17));
        assert(t.subrange(17, 19) == s.subrange(17, 19));
    } else {
        let n = s[1];
        assert(t.subrange(2, 2 + n) == s.subrange(2, 2 + n));
        assert(t.subrange(2 + n, 4 + n) == s.subrange(2 + n, 4 + n));
    }
}

/// The methods that a client offers.
#[derive(Clone, Debug)]
pub struct AuthReq {
    pub version: u8,
    pub methods: VarVec,
}

/// The method that the server chose.
#[derive(Clone, Copy, Debug, PartialEq, Eq, Structural)]
pub struct AuthReply {
    pub version: u8,
    pub method: u8,
}

/// A user name and a password.
#[derive(Clone, Debug)]
pub struct PasswordAuthReq {
    pub version: u8,
    pub username: VarVec,
    pub password: VarVec,
}

/// Whether the server accepts the user.
#[derive(Clone, Copy, Debug, PartialEq, Eq, Structural)]
pub struct PasswordAuthReply {
    pub version: u8,
    pub status: u8,
}

/// What the client asks for.
#[derive(Clone, Debug)]
pub struct CmdReq {
    pub version: u8,
    pub cmd: u8,
    pub rsv: u8,
    pub dst: SocksAddr,
}

/// What the server says to it.
#[derive(Clone, Debug)]
pub struct CmdReply {
    pub version: u8,
    pub rep: u8,
    pub rsv: u8,
    pub bind_addr: SocksAddr,
}

/// The header in front of a UDP payload.
#[derive(Clone, Debug)]
pub struct UdpReqHeader {
    pub rsv: u16,
    pub frag: u8,
    pub dst: SocksAddr,
}

#[verifier::ext_equal]
pub struct CmdReplyView {
    pub version: u8,
    pub rep: u8,
    pub rsv: u8,
    pub bind_addr: SocksAddrView,
}

impl View for CmdReply {
    type V = CmdReplyView;

    open spec fn view(&self) -> CmdReplyView {
        CmdReplyView {
            version: self.version,
            rep: self.rep,
            rsv: self.rsv,
            bind_addr: self.bind_addr@,
        }
    }
}

#[verifier::ext_equal]
pub struct UdpReqHeaderView {
    pub rsv: u16,
    pub frag: u8,
    pub dst: SocksAddrView,
}

impl View for UdpReqHeader {
    type V = UdpReqHeaderView;

    open spec fn view(&self) -> UdpReqHeaderView {
        UdpReqHeaderView { rsv: self.rsv, frag: self.frag, dst: self.dst@ }
    }
}

impl VarVec {
    /// The bytes, their count in front.
    pub open spec fn bytes(self) -> Seq<u8> {
        seq![self.len] + self.contents@
    }

    /// Appends the bytes, their count in front.
    pub fn encode(&self, buf: &mut Vec<u8>)
        ensures
            final(buf)@ == old(buf)@ + self.bytes(),
    {
        let ghost start = buf@;
        buf.push(self.len);
        let mut i: usize = 0;
        while i < self.contents.len()
            invariant
                i <= self.contents.len(),
                buf@ == start + seq![self.len] + self.contents@.take(i as int),
            decreases self.contents.len() - i,
        {
            buf.push(self.contents[i]);
            i = i + 1;
        }
        assert(self.contents@.take(i as int) == self.contents@);
        assert(buf@ == start + self.bytes());
    }
}

impl AuthReq {
    pub open spec fn bytes(self) -> Seq<u8> {
        seq![self.version] + self.methods.bytes()
    }

    /// The bytes of the message.
    pub fn encode(&self) -> (r: Vec<u8>)
        ensures
            r@ == self.bytes(),
    {
        let mut buf: Vec<u8> = Vec::new();
        buf.push(self.version);
        self.methods.encode(&mut buf);
        assert(buf@ == self.bytes());
        buf
    }
}

impl AuthReply {
    /// Reads the reply at the front of `buf`; also gives the number of its bytes.
    pub fn decode(buf: &[u8]) -> (r: SResult<(AuthReply, usize)>)
        ensures
            buf@.len() < 2 ==> (r matches Err(e) && e.is_eof()),
            buf@.len() >= 2 ==> r == Ok::<(AuthReply, usize), SError>(
                (AuthReply { version: buf@[0], method: buf@[1] }, 2),
            ),
    {
        if buf.len() < 2 {
            return Err(SError::eof());
        }
        Ok((AuthReply { version: buf[0], method: buf[1] }, 2))
    }
}

impl PasswordAuthReply {
    /// Reads the reply at the front of `buf`; also gives the number of its bytes.
    pub fn decode(buf: &[u8]) -> (r: SResult<(PasswordAuthReply, usize)>)
        ensures
            buf@.len() < 2 ==> (r matches Err(e) && e.is_eof()),
            buf@.len() >= 2 ==> r == Ok::<(PasswordAuthReply, usize), SError>(
                (PasswordAuthReply { version: buf@[0], status: buf@[1] }, 2),
            ),
    {
        if buf.len() < 2 {
            return Err(SError::eof());
        }
        Ok((PasswordAuthReply { version: buf[0], status: buf[1] }, 2))
    }
}

impl PasswordAuthReq {
    pub open spec fn bytes(self) -> Seq<u8> {
        seq![self.version] + self.username.bytes() + self.password.bytes()
    }

    /// The bytes of the message.
    pub fn encode(&self) -> (r: Vec<u8>)
        ensures
            r@ == self.bytes(),
    {
        let mut buf: Vec<u8> = Vec::new();
        buf.push(self.version);
        self.username.encode(&mut buf);
        self.password.encode(&mut buf);
        assert(buf@ == self.bytes());
        buf
    }
}

impl CmdReq {
    pub open spec fn bytes(self) -> Seq<u8> {
        seq![self.version, self.cmd, self.rsv] + self.dst@.bytes()
    }

    /// The bytes of the message.
    pub fn encode(&self) -> (r: Vec<u8>)
        ensures
            r@ == self.bytes(),
    {
        let mut buf: Vec<u8> = Vec::new();
        buf.push(self.version);
        buf.push(self.cmd);
        buf.push(self.rsv);
        self.dst.encode(&mut buf);
        assert(buf@ == self.bytes());
        buf
    }
}

/// The reply at the front of `s`.
pub open spec fn cmd_reply_decode(s: Seq<u8>) -> Decoded<CmdReplyView> {
    if s.len() < 3 {
        Decoded::Short
    } else {
        match addr_decode(s.skip(3)) {
            Decoded::Value(bind_addr, used) => Decoded::Value(
                CmdReplyView { version: s[0], rep: s[1], rsv: s[2], bind_addr },
                3 + used,
            ),
            Decoded::Short => Decoded::Short,
            Decoded::Invalid => Decoded::Invalid,
        }
    }
}

impl CmdReply {
    /// Reads the reply at the front of `buf`; also gives the number of its bytes.
    pub fn decode(buf: &[u8]) -> (r: SResult<(CmdReply, usize)>)
        ensures
            match cmd_reply_decode(buf@) {
                Decoded::Value(reply, used) => r matches Ok((v, end)) && v@ == reply && end == used
                    && end <= buf@.len(),
                Decoded::Short => r matches Err(e) && e.is_eof(),
                Decoded::Invalid => r matches Err(e) && e is ProtocolViolation,
            },
    {
        if buf.len() < 3 {
            return Err(SError::eof());
        }
        match SocksAddr::decode(buf, 3) {
            Ok((bind_addr, end)) => Ok(
                (CmdReply { version: buf[0], rep: buf[1], rsv: buf[2], bind_addr }, end),
            ),
            Err(e) => Err(e),
        }
    }
}

impl UdpReqHeaderView {
    pub open spec fn bytes(self) -> Seq<u8> {
        number::be(self.rsv as nat, 2) + seq![self.frag] + self.dst.bytes()
    }
}

/// The header at the front of `s`.
pub open spec fn udp_header_decode(s: Seq<u8>) -> Decoded<UdpReqHeaderView> {
    if s.len() < 3 {
        Decoded::Short
    } else {
        match addr_decode(s.skip(3)) {
            Decoded::Value(dst, used) => Decoded::Value(
                UdpReqHeaderView { rsv: number::unbe(s.take(2)) as u16, frag: s[2], dst },
                3 + used,
            ),
            Decoded::Short => Decoded::Short,
            Decoded::Invalid => Decoded::Invalid,
        }
    }
}

impl UdpReqHeader {
    /// The bytes of the header.
    pub fn encode(&self) -> (r: Vec<u8>)
        ensures
            r@ == self@.bytes(),
    {
        let mut buf: Vec<u8> = Vec::new();
        put_be(&mut buf, self.rsv as u128, 2);
        buf.push(self.frag);
        self.dst.encode(&mut buf);
        assert(buf@ == self@.bytes());
        buf
    }

    /// Reads the header at the front of `buf`; also gives the number of its bytes.
    pub fn decode(buf: &[u8]) -> (r: SResult<(UdpReqHeader, usize)>)
        ensures
            match udp_header_decode(buf@) {
                Decoded::Value(header, used) => r matches Ok((v, end)) && v@ == header && end
                    == used && end <= buf@.len(),
                Decoded::Short => r matches Err(e) && e.is_eof(),
                Decoded::Invalid => r matches Err(e) && e is ProtocolViolation,
            },
    {
        if buf.len() < 3 {
            return Err(SError::eof());
        }
        let rsv = get_be(buf, 0, 2);
        proof {
            number::lemma_pow256(2);
            assert(buf@.take(2) == buf@.subrange(0, 2));
        }
        match SocksAddr::decode(buf, 3) {
            Ok((dst, end)) => Ok((UdpReqHeader { rsv: rsv as u16, frag: buf[2], dst }, end)),
            Err(e) => Err(e),
        }
    }
}

/// Reading a UDP header that was written gives it back and takes exactly its bytes, whatever
/// payload follows.
pub proof fn law_udp_header_round_trip(header: UdpReqHeaderView, payload: Seq<u8>)
    requires
        header.dst.wf(),
    ensures
        udp_header_decode(header.bytes() + payload) == Decoded::Value(
            header,
            header.bytes().len(),
        ),
{
    let s = header.bytes() + payload;
    number::lemma_pow256(2);
    number::lemma_unbe_be(header.rsv as nat, 2);
    assert(s.take(2) == number::be(header.rsv as nat, 2));
    assert(s.skip(3) == header.dst.bytes() + payload);
    law_address_round_trip(header.dst, payload);
}

/// A command reply needs all its bytes: any shorter part of them is incomplete.
pub proof fn law_command_reply_needs_all_its_bytes(s: Seq<u8>, k: int)
    requires
        cmd_reply_decode(s) matches Decoded::Value(_, used) && 0 <= k < used,
    ensures
        cmd_reply_decode(s.take(k)) is Short,
{
    if k >= 3 {
        assert(s.take(k).skip(3) == s.skip(3).take(k - 3));
        law_address_needs_all_its_bytes(s.skip(3), k - 3);
    }
}

/// An address starts with its kind: 1 for IPv4, 4 for IPv6, 3 for a name. The IP address
/// follows, or the length of the name and the name, and last comes the port. Numbers have their
/// high byte first.
pub proof fn law_address_layout(ip: u32, ip6: u128, len: u8, name: Seq<u8>, port: u16)
    requires
        len == name.len(),
    ensures
        ({
            let s = (SocksAddrView { host: HostView::V4(ip), port }).bytes();
            &&& s.len() == 7
            &&& s[0] == 1
            &&& number::unbe(s.subrange(1, 5)) == ip
            &&& s.skip(5) == seq![(port / 256) as u8, (port % 256) as u8]
        }),
        ({
            let s = (SocksAddrView { host: HostView::V6(ip6), port }).bytes();
            &&& s.len() == 19
            &&& s[0] == 4
            &&& number::unbe(s.subrange(1, 17)) == ip6
            &&& s.skip(17) == seq![(port / 256) as u8, (port % 256) as u8]
        }),
        (SocksAddrView { host: HostView::Domain(len, name), port }).bytes() == seq![3u8, len] + name
            + seq![(port / 256) as u8, (port % 256) as u8],
{
    number::lemma_pow256(16);
    number::lemma_unbe_be(ip as nat, 4);
    number::lemma_unbe_be(ip6 as nat, 16);
    number::law_two_bytes(port, 0, 0);
    let s = (SocksAddrView { host: HostView::V4(ip), port }).bytes();
    assert(s.subrange(1, 5) == number::be(ip as nat, 4));
    let t = (SocksAddrView { host: HostView::V6(ip6), port }).bytes();
    assert(t.subrange(1, 17) == number::be(ip6 as nat, 16));
}

/// An address is read by its kind: 1 for IPv4, 4 for IPv6, 3 for a name. No other kind is
/// known.
pub proof fn law_addresses_are_read_by_kind(
    ip: Seq<u8>,
    ip6: Seq<u8>,
    name: Seq<u8>,
    high: u8,
    low: u8,
    rest: Seq<u8>,
    kind: u8,
)
    requires
        ip.len() == 4,
        ip6.len() == 16,
        name.len() <= 255,
    ensures
        ({
            let port = (high * 256 + low) as u16;
            let tail = seq![high, low] + rest;
            let v4 = HostView::V4(number::unbe(ip) as u32);
            let v6 = HostView::V6(number::unbe(ip6) as u128);
            let domain = HostView::Domain(name.len() as u8, name);
            &&& addr_decode(seq![1u8] + ip + tail) == Decoded::Value(
                SocksAddrView { host: v4, port },
                7,
            )
            &&& addr_decode(seq![4u8] + ip6 + tail) == Decoded::Value(
                SocksAddrView { host: v6, port },
                19,
            )
            &&& addr_decode(seq![3u8, name.len() as u8] + name + tail) == Decoded::Value(
                SocksAddrView { host: domain, port },
                name.len() + 4,
            )
        }),
        addr_decode(Seq::empty()) is Short,
        kind != 1 && kind != 3 && kind != 4 ==> addr_decode(seq![kind] + rest) is Invalid,
{
    number::law_two_bytes(0, high, low);
    let tail = seq![high, low] + rest;
    let a = seq![1u8] + ip + tail;
    assert(a.subrange(1, 5) == ip);
    assert(a.subrange(5, 7) == seq![high, low]);
    let b = seq![4u8] + ip6 + tail;
    assert(b.subrange(1, 17) == ip6);
    assert(b.subrange(17, 19) == seq![high, low]);
    let n = name.len() as int;
    let c = seq![3u8, name.len() as u8] + name + tail;
    assert(c.subrange(2, 2 + n) == name);
    assert(c.subrange(2 + n, 4 + n) == seq![high, low]);
}

/// The messages of a client: a version, then what it says, each name and each list behind its
/// length.
pub proof fn law_request_layouts(offer: AuthReq, login: PasswordAuthReq, command: CmdReq)
    ensures
        offer.bytes() == seq![offer.version, offer.methods.len] + offer.methods.contents@,
        login.bytes() == seq![login.version, login.username.len] + login.username.contents@ + seq![
            login.password.len,
        ] + login.password.contents@,
        command.bytes() == seq![command.version, command.cmd, command.rsv] + command.dst@.bytes(),
{
    assert(offer.bytes() == seq![offer.version, offer.methods.len] + offer.methods.contents@);
    assert(login.bytes() == seq![login.version, login.username.len] + login.username.contents@
        + seq![login.password.len] + login.password.contents@);
}

/// A command reply is three bytes and an address.
pub proof fn law_command_reply_layout(version: u8, rep: u8, rsv: u8, tail: Seq<u8>, s: Seq<u8>)
    ensures
        s.len() < 3 ==> cmd_reply_decode(s) is Short,
        cmd_reply_decode(seq![version, rep, rsv] + tail) == match addr_decode(tail) {
            Decoded::Value(bind_addr, used) => Decoded::Value(
                CmdReplyView { version, rep, rsv, bind_addr },
                used + 3,
            ),
            Decoded::Short => Decoded::Short,
            Decoded::Invalid => Decoded::Invalid,
        },
{
    assert((seq![version, rep, rsv] + tail).skip(3) == tail);
}

/// A UDP header is two reserved bytes, the number of the fragment and an address.
pub proof fn law_udp_header_layout(
    high: u8,
    low: u8,
    frag: u8,
    tail: Seq<u8>,
    s: Seq<u8>,
    dst: SocksAddrView,
)
    ensures
        s.len() < 3 ==> udp_header_decode(s) is Short,
        udp_header_decode(seq![high, low, frag] + tail) == match addr_decode(tail) {
            Decoded::Value(dst, used) => Decoded::Value(
                UdpReqHeaderView { rsv: (high * 256 + low) as u16, frag, dst },
                used + 3,
            ),
            Decoded::Short => Decoded::Short,
            Decoded::Invalid => Decoded::Invalid,
        },
        (UdpReqHeaderView { rsv: (high * 256 + low) as u16, frag, dst }).bytes() == seq![
            high,
            low,
            frag,
        ] + dst.bytes(),
{
    let t = seq![high, low, frag] + tail;
    number::law_two_bytes((high * 256 + low) as u16, high, low);
    assert(t.skip(3) == tail);
    assert(t.take(2) == seq![high, low]);
}

/// The numbers of the protocol.
pub proof fn law_protocol_numbers()
    ensures
        SOCKS5_VERSION == 5,
        SOCKS5_AUTH_METHOD_NONE == 0,
        SOCKS5_AUTH_METHOD_PASSWORD == 2,
        SOCKS5_PASSWORD_AUTH_VERSION == 1,
        SOCKS5_CMD_TCP_CONNECT == 1,
        SOCKS5_CMD_UDP_ASSOCIATE == 3,
        SOCKS5_RESERVE == 0,
        SOCKS5_REPLY_SUCCEEDED == 0,
        SOCKS5_ADDR_TYPE_IPV4 == 1,
        SOCKS5_ADDR_TYPE_DOMAIN_NAME == 3,
        SOCKS5_ADDR_TYPE_IPV6 == 4,
{
}

/// A destination made of a socket address has its address and its port. A destination has one
/// form only: what it is known by tells its kind, its host and its port.
pub proof fn law_destinations(ip: u32, ip6: u128, flowinfo: u32, scope_id: u32, name: VarVec, port: u16)
    ensures
        <SocksAddr as vstd::std_specs::convert::FromSpec<SocketAddr>>::from_spec(
            SocketAddr::V4 { ip, port },
        ) == (SocksAddr { addr: AddrOrDomain::V4(ip), port }),
        <SocksAddr as vstd::std_specs::convert::FromSpec<SocketAddr>>::from_spec(
            SocketAddr::V6 { ip: ip6, port, flowinfo, scope_id },
        ) == (SocksAddr { addr: AddrOrDomain::V6(ip6), port }),
        (SocksAddr { addr: AddrOrDomain::V4(ip), port })@ == (SocksAddrView {
            host: HostView::V4(ip),
            port,
        }),
        (SocksAddr { addr: AddrOrDomain::V6(ip6), port })@ == (SocksAddrView {
            host: HostView::V6(ip6),
            port,
        }),
        (SocksAddr { addr: AddrOrDomain::Domain(name), port })@ == (SocksAddrView {
            host: HostView::Domain(name.len, name.contents@),
            port,
        }),
        (SocksAddrView { host: HostView::Domain(name.len, name.contents@), port }).wf() <==> name.len
            == name.contents@.len(),
{
}

/// A message is known by its fields.
pub proof fn law_messages_are_known_by_their_fields(reply: CmdReply, header: UdpReqHeader)
    ensures
        reply@.version == reply.version,
        reply@.rep == reply.rep,
        reply@.rsv == reply.rsv,
        reply@.bind_addr == reply.bind_addr@,
        header@.rsv == header.rsv,
        header@.frag == header.frag,
        header@.dst == header.dst@,
{
}

/// An address that was read has the bytes that it was read from: no two addresses share them.
pub proof fn law_addresses_are_what_was_read(s: Seq<u8>)
    requires
        addr_decode(s) is Value,
    ensures
        addr_decode(s)->Value_0.wf(),
        addr_decode(s)->Value_1 <= s.len(),
        s == addr_decode(s)->Value_0.bytes() + s.skip(addr_decode(s)->Value_1 as int),
{
    let addr = addr_decode(s)->Value_0;
    let used = addr_decode(s)->Value_1 as int;
    number::lemma_pow256(16);
    match addr.host {
        HostView::V4(_) => {
            lemma_field(s, 1, 5);
            lemma_field(s, 5, 7);
            assert(s == seq![s[0]] + s.subrange(1, 5) + s.subrange(5, 7) + s.skip(7));
        },
        HostView::V6(_) => {
            lemma_field(s, 1, 17);
            lemma_field(s, 17, 19);
            assert(s == seq![s[0]] + s.subrange(1, 17) + s.subrange(17, 19) + s.skip(19));
        },
        HostView::Domain(len, _) => {
            let n = len as int;
            lemma_field(s, 2 + n, 4 + n);
            assert(s == seq![s[0], s[1]] + s.subrange(2, 2 + n) + s.subrange(2 + n, 4 + n) + s.skip(
                4 + n,
            ));
        },
    }
    assert(addr.bytes() + s.skip(used) == s);
}

proof fn lemma_field(s: Seq<u8>, i: int, j: int)
    requires
        0 <= i <= j <= s.len(),
    ensures
        number::be(number::unbe(s.subrange(i, j)), (j - i) as nat) == s.subrange(i, j),
        number::unbe(s.subrange(i, j)) < number::pow256((j - i) as nat),
{
    number::law_bytes_are_kept(s.subrange(i, j));
    number::lemma_unbe_bound(s.subrange(i, j));
}

/// A UDP header that was read has the bytes that it was read from.
pub proof fn law_udp_headers_are_what_was_read(s: Seq<u8>)
    requires
        udp_header_decode(s) is Value,
    ensures
        udp_header_decode(s)->Value_0.dst.wf(),
        udp_header_decode(s)->Value_1 <= s.len(),
        s == udp_header_decode(s)->Value_0.bytes() + s.skip(
            udp_header_decode(s)->Value_1 as int,
        ),
{
    let header = udp_header_decode(s)->Value_0;
    let used = udp_header_decode(s)->Value_1 as int;
    law_addresses_are_what_was_read(s.skip(3));
    number::lemma_pow256(2);
    lemma_field(s, 0, 2);
    assert(s.take(2) == s.subrange(0, 2));
    assert(s.skip(3).skip(used - 3) == s.skip(used));
    assert(s == s.take(2) + seq![s[2]] + s.skip(3));
    assert(header.bytes() + s.skip(used) == s);
}

/// A command reply that was read has the bytes that it was read from.
pub proof fn law_command_replies_are_what_was_read(s: Seq<u8>)
    requires
        cmd_reply_decode(s) is Value,
    ensures
        ({
            let reply = cmd_reply_decode(s)->Value_0;
            &&& reply.bind_addr.wf()
            &&& s == seq![reply.version, reply.rep, reply.rsv] + reply.bind_addr.bytes() + s.skip(
                cmd_reply_decode(s)->Value_1 as int,
            )
        }),
{
    let reply = cmd_reply_decode(s)->Value_0;
    let used = cmd_reply_decode(s)->Value_1 as int;
    law_addresses_are_what_was_read(s.skip(3));
    assert(s.skip(3).skip(used - 3) == s.skip(used));
    assert(s == seq![s[0], s[1], s[2]] + s.skip(3));
    assert(seq![reply.version, reply.rep, reply.rsv] + reply.bind_addr.bytes() + s.skip(used) == s);
}

} // verus!
