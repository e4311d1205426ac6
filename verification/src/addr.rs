//! Internet addresses as plain numbers, and the textual forms that denote them.

use vstd::prelude::*;

use crate::text;
use crate::text::{parse_numeral, split_chars, to_chars};

verus! {

/// An IPv4 or IPv6 address, its octets read as one big-endian number.
#[derive(Clone, Copy, Debug, PartialEq, Eq, Structural)]
pub enum IpAddr {
    V4(u32),
    V6(u128),
}

/// An address with a port; an IPv6 one also carries its flow label and scope.
#[allow(inconsistent_fields)]
#[derive(Clone, Copy, Debug, PartialEq, Eq, Structural)]
pub enum SocketAddr {
    V4 { ip: u32, port: u16 },
    V6 { ip: u128, port: u16, flowinfo: u32, scope_id: u32 },
}

/// The IPv4 address that the IPv6 address `::ffff:a.b.c.d` maps.
pub open spec fn mapped_v4(ip: u128) -> Option<u32> {
    if ip / 0x1_0000_0000 == 0xffff {
        Some((ip % 0x1_0000_0000) as u32)
    } else {
        None
    }
}

/// The IPv6 address that maps `ip`.
pub open spec fn v4_mapped(ip: u32) -> u128 {
    (0xffff * 0x1_0000_0000 + ip) as u128
}

impl IpAddr {
    /// The address with an IPv4-mapped IPv6 address replaced by the IPv4 address.
    pub open spec fn unmapped(self) -> IpAddr {
        match self {
            IpAddr::V6(ip) => match mapped_v4(ip) {
                Some(v4) => IpAddr::V4(v4),
                None => self,
            },
            IpAddr::V4(_) => self,
        }
    }

    pub open spec fn unspecified(self) -> bool {
        self == IpAddr::V4(0) || self == IpAddr::V6(0)
    }
}

/// The IPv4 address that an IPv4-mapped IPv6 address maps.
pub fn to_mapped_v4(ip: u128) -> (r: Option<u32>)
    ensures
        r == mapped_v4(ip),
{
    if ip / 0x1_0000_0000 == 0xffff {
        Some((ip % 0x1_0000_0000) as u32)
    } else {
        None
    }
}

/// Replaces an IPv4-mapped IPv6 address by the IPv4 address.
pub fn normalize_ip(address: IpAddr) -> (r: IpAddr)
    ensures
        r == address.unmapped(),
{
    match address {
        IpAddr::V6(ip) => match to_mapped_v4(ip) {
            Some(v4) => IpAddr::V4(v4),
            None => IpAddr::V6(ip),
        },
        IpAddr::V4(ip) => IpAddr::V4(ip),
    }
}

impl SocketAddr {
    pub open spec fn spec_new(ip: IpAddr, port: u16) -> SocketAddr {
        match ip {
            IpAddr::V4(ip) => SocketAddr::V4 { ip, port },
            IpAddr::V6(ip) => SocketAddr::V6 { ip, port, flowinfo: 0, scope_id: 0 },
        }
    }

    pub open spec fn spec_ip(self) -> IpAddr {
        match self {
            SocketAddr::V4 { ip, .. } => IpAddr::V4(ip),
            SocketAddr::V6 { ip, .. } => IpAddr::V6(ip),
        }
    }

    pub open spec fn spec_port(self) -> u16 {
        match self {
            SocketAddr::V4 { port, .. } => port,
            SocketAddr::V6 { port, .. } => port,
        }
    }

    /// `self` with another address: the flow label and the scope stay only where both
    /// addresses are IPv6.
    pub open spec fn with_ip(self, new_ip: IpAddr) -> SocketAddr {
        match (self, new_ip) {
            (SocketAddr::V6 { port, flowinfo, scope_id, .. }, IpAddr::V6(ip)) => SocketAddr::V6 {
                ip,
                port,
                flowinfo,
                scope_id,
            },
            _ => SocketAddr::spec_new(new_ip, self.spec_port()),
        }
    }

    /// `self`, with an IPv4-mapped IPv6 address replaced by the IPv4 address.
    pub open spec fn unmapped(self) -> SocketAddr {
        match self {
            SocketAddr::V6 { ip, port, .. } => match mapped_v4(ip) {
                Some(v4) => SocketAddr::V4 { ip: v4, port },
                None => self,
            },
            SocketAddr::V4 { .. } => self,
        }
    }

    pub fn new(ip: IpAddr, port: u16) -> (r: SocketAddr)
        ensures
            r == SocketAddr::spec_new(ip, port),
    {
        match ip {
            IpAddr::V4(ip) => SocketAddr::V4 { ip, port },
            IpAddr::V6(ip) => SocketAddr::V6 { ip, port, flowinfo: 0, scope_id: 0 },
        }
    }

    pub fn ip(&self) -> (r: IpAddr)
        ensures
            r == self.spec_ip(),
    {
        match self {
            SocketAddr::V4 { ip, .. } => IpAddr::V4(*ip),
            SocketAddr::V6 { ip, .. } => IpAddr::V6(*ip),
        }
    }

    pub fn set_ip(&mut self, new_ip: IpAddr)
        ensures
            *final(self) == old(self).with_ip(new_ip),
    {
        let r = match (*self, new_ip) {
            (SocketAddr::V6 { port, flowinfo, scope_id, .. }, IpAddr::V6(ip)) => SocketAddr::V6 {
                ip,
                port,
                flowinfo,
                scope_id,
            },
            (SocketAddr::V6 { port, .. }, IpAddr::V4(ip)) => SocketAddr::V4 { ip, port },
            (SocketAddr::V4 { port, .. }, _) => SocketAddr::new(new_ip, port),
        };
        *self = r;
    }
}

/// Replaces an IPv4-mapped IPv6 address by the IPv4 address, keeping the port.
pub fn to_ipv4_mapped(addr: SocketAddr) -> (r: SocketAddr)
    ensures
        r == addr.unmapped(),
{
    match addr {
        SocketAddr::V6 { ip, port, .. } => match to_mapped_v4(ip) {
            Some(v4) => SocketAddr::V4 { ip: v4, port },
            None => addr,
        },
        SocketAddr::V4 { .. } => addr,
    }
}

/// One octet of a dotted address: up to three decimal digits without a leading zero.
pub open spec fn octet_text(s: Seq<char>) -> Option<u32> {
    if s.len() > 3 || (s.len() > 1 && s[0] == '0') {
        None
    } else {
        text::numeral_text(s, 10, 255)
    }
}

/// The IPv4 address that `s` spells in dotted decimal notation.
pub open spec fn ipv4_text(s: Seq<char>) -> Option<u32> {
    let parts = text::split(s, '.');
    if parts.len() != 4 {
        None
    } else {
        match (
            octet_text(parts[0]),
            octet_text(parts[1]),
            octet_text(parts[2]),
            octet_text(parts[3]),
        ) {
            (Some(a), Some(b), Some(c), Some(d)) => Some(
                (a * 0x100_0000 + b * 0x1_0000 + c * 0x100 + d) as u32,
            ),
            _ => None,
        }
    }
}

/// One group of an IPv6 address: up to four hexadecimal digits.
pub open spec fn hextet_text(s: Seq<char>) -> Option<u32> {
    if s.len() > 4 {
        None
    } else {
        text::numeral_text(s, 16, 0xffff)
    }
}

/// The sixteen-bit groups that `parts` spell. With `v4_tail` the last part may be a dotted
/// IPv4 address, which stands for two groups.
pub open spec fn groups_of(parts: Seq<Seq<char>>, v4_tail: bool) -> Option<Seq<u32>>
    decreases parts.len(),
{
    if parts.len() == 0 {
        Some(Seq::empty())
    } else {
        match hextet_text(parts[0]) {
            Some(group) => match groups_of(parts.skip(1), v4_tail) {
                Some(rest) => Some(seq![group] + rest),
                None => None,
            },
            None => match ipv4_text(parts[0]) {
                Some(ip) => if v4_tail && parts.len() == 1 {
                    Some(seq![ip / 0x1_0000, ip % 0x1_0000])
                } else {
                    None
                },
                None => None,
            },
        }
    }
}

/// The groups that the text on one side of `::` spells; none for the empty text.
pub open spec fn side_groups(s: Seq<char>, v4_tail: bool) -> Option<Seq<u32>> {
    if s.len() == 0 {
        Some(Seq::empty())
    } else {
        groups_of(text::split(s, ':'), v4_tail)
    }
}

/// Position of the first `::` in `s`, or the length of `s` where it holds none.
pub open spec fn gap_index(s: Seq<char>) -> nat
    decreases s.len(),
{
    if s.len() == 0 || (s.len() >= 2 && s[0] == ':' && s[1] == ':') {
        0
    } else {
        1 + gap_index(s.skip(1))
    }
}

/// The address with the eight given groups.
pub open spec fn from_groups(g: Seq<u32>) -> u128 {
    (((((((g[0] * 0x1_0000 + g[1]) * 0x1_0000 + g[2]) * 0x1_0000 + g[3]) * 0x1_0000 + g[4])
        * 0x1_0000 + g[5]) * 0x1_0000 + g[6]) * 0x1_0000 + g[7]) as u128
}

/// The IPv6 address that `s` spells: eight groups, or fewer around one `::` that stands for
/// at least one group of zeros.
pub open spec fn ipv6_text(s: Seq<char>) -> Option<u128> {
    let k = gap_index(s) as int;
    if k == s.len() {
        match groups_of(text::split(s, ':'), true) {
            Some(groups) => if groups.len() == 8 {
                Some(from_groups(groups))
            } else {
                None
            },
            None => None,
        }
    } else {
        match (side_groups(s.take(k), false), side_groups(s.skip(k + 2), true)) {
            (Some(head), Some(tail)) => if head.len() + tail.len() <= 7 {
                let zeros = Seq::new((8 - head.len() - tail.len()) as nat, |i: int| 0u32);
                Some(from_groups(head + zeros + tail))
            } else {
                None
            },
            _ => None,
        }
    }
}

/// The address that `s` spells, in IPv4 or in IPv6 notation.
pub open spec fn ip_text(s: Seq<char>) -> Option<IpAddr> {
    match ipv4_text(s) {
        Some(ip) => Some(IpAddr::V4(ip)),
        None => match ipv6_text(s) {
            Some(ip) => Some(IpAddr::V6(ip)),
            None => None,
        },
    }
}

fn parse_octet(s: &Vec<char>) -> (r: Option<u32>)
    ensures
        r == octet_text(s@),
{
    if s.len() > 3 || (s.len() > 1 && s[0] == '0') {
        None
    } else {
        assert(s@.skip(0) == s@);
        parse_numeral(s, 0, 10, 255)
    }
}

fn parse_ipv4(s: &Vec<char>) -> (r: Option<u32>)
    ensures
        r == ipv4_text(s@),
{
    let parts = split_chars(s, '.');
    let ghost view = |piece: Vec<char>| piece@;
    assert(parts@.map_values(view).len() == parts@.len());
    if parts.len() != 4 {
        return None;
    }
    assert(forall|i: int| 0 <= i < 4 ==> text::split(s@, '.')[i] == #[trigger] parts@[i]@) by {
        assert forall|i: int| 0 <= i < 4 implies text::split(s@, '.')[i] == #[trigger] parts@[i]@ by {
            assert(parts@.map_values(view)[i] == view(parts@[i]));
        }
    }
    match (parse_octet(&parts[0]), parse_octet(&parts[1]), parse_octet(&parts[2]), parse_octet(&parts[3])) {
        (Some(a), Some(b), Some(c), Some(d)) => Some(
            a * 0x100_0000 + b * 0x1_0000 + c * 0x100 + d,
        ),
        _ => None,
    }
}

fn parse_hextet(s: &Vec<char>) -> (r: Option<u32>)
    ensures
        r == hextet_text(s@),
        r matches Some(group) ==> group <= 0xffff,
{
    if s.len() > 4 {
        None
    } else {
        assert(s@.skip(0) == s@);
        parse_numeral(s, 0, 16, 0xffff)
    }
}

/// Each group fits in sixteen bits.
pub open spec fn small_groups(g: Seq<u32>) -> bool {
    forall|i: int| 0 <= i < g.len() ==> #[trigger] g[i] <= 0xffff
}

fn parse_groups(s: &Vec<char>, v4_tail: bool) -> (r: Option<Vec<u32>>)
    ensures
        match r {
            Some(groups) => groups_of(text::split(s@, ':'), v4_tail) == Some(groups@) && small_groups(
                groups@,
            ),
            None => groups_of(text::split(s@, ':'), v4_tail) is None,
        },
{
    let parts = split_chars(s, ':');
    let ghost view = |piece: Vec<char>| piece@;
    let ghost texts = text::split(s@, ':');
    let n: usize = parts.len();
    assert(parts@.map_values(view).len() == n);
    assert forall|i: int| 0 <= i < n implies texts[i] == #[trigger] parts@[i]@ by {
        assert(parts@.map_values(view)[i] == view(parts@[i]));
    }
    let mut groups: Vec<u32> = Vec::new();
    let mut i: usize = 0;
    assert(texts.skip(0) == texts);
    while i < n
        invariant
            i <= n == parts.len() == texts.len(),
            texts == text::split(s@, ':'),
            forall|j: int| 0 <= j < n ==> texts[j] == #[trigger] parts@[j]@,
            small_groups(groups@),
            groups_of(texts, v4_tail) == (match groups_of(texts.skip(i as int), v4_tail) {
                Some(rest) => Some(groups@ + rest),
                None => None,
            }),
        decreases n - i,
    {
        assert(texts.skip(i as int)[0] == parts@[i as int]@);
        assert(texts.skip(i as int).skip(1) == texts.skip(i + 1));
        let ghost before = groups@;
        match parse_hextet(&parts[i]) {
            Some(group) => {
                groups.push(group);
                proof {
                    if let Some(rest) = groups_of(texts.skip(i + 1), v4_tail) {
                        assert(before + (seq![group] + rest) == groups@ + rest);
                    }
                }
            },
            None => match parse_ipv4(&parts[i]) {
                Some(ip) => {
                    if v4_tail && i + 1 == n {
                        groups.push(ip / 0x1_0000);
                        groups.push(ip % 0x1_0000);
                        assert(before + seq![ip / 0x1_0000, ip % 0x1_0000] == groups@);
                        return Some(groups);
                    }
                    return None;
                },
                None => {
                    return None;
                },
            },
        }
        i = i + 1;
    }
    assert(groups@ + Seq::<u32>::empty() == groups@);
    Some(groups)
}

fn parse_side(s: &Vec<char>, v4_tail: bool) -> (r: Option<Vec<u32>>)
    ensures
        match r {
            Some(groups) => side_groups(s@, v4_tail) == Some(groups@) && small_groups(groups@),
            None => side_groups(s@, v4_tail) is None,
        },
{
    if s.len() == 0 {
        let none: Vec<u32> = Vec::new();
        Some(none)
    } else {
        parse_groups(s, v4_tail)
    }
}

fn combine_groups(g: &Vec<u32>) -> (r: u128)
    requires
        g.len() == 8,
        small_groups(g@),
    ensures
        r == from_groups(g@),
{
    let mut r: u128 = g[0] as u128;
    r = r * 0x1_0000 + g[1] as u128;
    r = r * 0x1_0000 + g[2] as u128;
    r = r * 0x1_0000 + g[3] as u128;
    r = r * 0x1_0000 + g[4] as u128;
    r = r * 0x1_0000 + g[5] as u128;
    r = r * 0x1_0000 + g[6] as u128;
    r * 0x1_0000 + g[7] as u128
}

proof fn lemma_gap_index(s: Seq<char>, k: nat)
    requires
        k <= s.len(),
        forall|j: int| 0 <= j < k ==> !(j + 1 < s.len() && #[trigger] s[j] == ':' && s[j + 1] == ':'),
        k < s.len() ==> k + 1 < s.len() && s[k as int] == ':' && s[k as int + 1] == ':',
    ensures
        gap_index(s) == k,
    decreases s.len(),
{
    if k > 0 {
        assert(s[0] == s[0]);
        lemma_gap_index(s.skip(1), (k - 1) as nat);
    }
}

fn find_gap(s: &Vec<char>) -> (r: usize)
    ensures
        r == gap_index(s@),
        r == s.len() || r + 1 < s.len(),
{
    let n: usize = s.len();
    let mut i: usize = 0;
    while i < n
        invariant
            i <= n == s.len(),
            forall|j: int|
                0 <= j < i ==> !(j + 1 < n && #[trigger] s@[j] == ':' && s@[j + 1] == ':'),
        decreases n - i,
    {
        if n - i >= 2 && s[i] == ':' && s[i + 1] == ':' {
            proof {
                lemma_gap_index(s@, i as nat);
            }
            return i;
        }
        i = i + 1;
    }
    proof {
        lemma_gap_index(s@, n as nat);
    }
    n
}

fn sub_chars(s: &Vec<char>, from: usize, to: usize) -> (r: Vec<char>)
    requires
        from <= to <= s.len(),
    ensures
        r@ == s@.subrange(from as int, to as int),
{
    let mut r: Vec<char> = Vec::new();
    let mut i: usize = from;
    while i < to
        invariant
            from <= i <= to <= s.len(),
            r@ == s@.subrange(from as int, i as int),
        decreases to - i,
    {
        r.push(s[i]);
        i = i + 1;
    }
    r
}

fn parse_ipv6(s: &Vec<char>) -> (r: Option<u128>)
    ensures
        r == ipv6_text(s@),
{
    let n: usize = s.len();
    let k = find_gap(s);
    if k == n {
        match parse_groups(s, true) {
            Some(groups) => if groups.len() == 8 {
                Some(combine_groups(&groups))
            } else {
                None
            },
            None => None,
        }
    } else {
        let left = sub_chars(s, 0, k);
        let right = sub_chars(s, k + 2, n);
        assert(left@ == s@.take(k as int));
        assert(right@ == s@.skip(k + 2));
        match (parse_side(&left, false), parse_side(&right, true)) {
            (Some(head), Some(tail)) => {
                if head.len() > 7 || tail.len() > 7 - head.len() {
                    return None;
                }
                let ghost zeros = Seq::new((8 - head.len() - tail.len()) as nat, |i: int| 0u32);
                let mut groups: Vec<u32> = head.clone();
                let ghost start = groups@;
                assert(start =~= head@);
                while groups.len() < 8 - tail.len()
                    invariant
                        head.len() + tail.len() <= 7,
                        head.len() <= groups.len() <= 8 - tail.len(),
                        small_groups(groups@),
                        zeros == Seq::new((8 - head.len() - tail.len()) as nat, |i: int| 0u32),
                        groups@ == head@ + zeros.take(groups.len() - head.len()),
                    decreases 8 - tail.len() - groups.len(),
                {
                    groups.push(0);
                }
                let mut i: usize = 0;
                while i < tail.len()
                    invariant
                        head.len() + tail.len() <= 7,
                        i <= tail.len(),
                        small_groups(groups@),
                        small_groups(tail@),
                        zeros == Seq::new((8 - head.len() - tail.len()) as nat, |i: int| 0u32),
                        groups@ == head@ + zeros + tail@.take(i as int),
                    decreases tail.len() - i,
                {
                    groups.push(tail[i]);
                    i = i + 1;
                }
                assert(tail@.take(i as int) == tail@);
                Some(combine_groups(&groups))
            },
            _ => None,
        }
    }
}

impl IpAddr {
    /// Reads an address in IPv4 or in IPv6 notation.
    pub fn parse(s: &str) -> (r: Option<IpAddr>)
        ensures
            r == ip_text(s@),
    {
        let chars = to_chars(s);
        match parse_ipv4(&chars) {
            Some(ip) => Some(IpAddr::V4(ip)),
            None => match parse_ipv6(&chars) {
                Some(ip) => Some(IpAddr::V6(ip)),
                None => None,
            },
        }
    }

    pub fn is_unspecified(&self) -> (r: bool)
        ensures
            r == self.unspecified(),
    {
        match self {
            IpAddr::V4(ip) => *ip == 0,
            IpAddr::V6(ip) => *ip == 0,
        }
    }
}

/// Mapping an IPv4 address into IPv6 and back changes nothing.
pub proof fn law_unmapping_undoes_mapping(ip: u32)
    ensures
        mapped_v4(v4_mapped(ip)) == Some(ip),
        IpAddr::V6(v4_mapped(ip)).unmapped() == IpAddr::V4(ip),
{
}

/// Normalizing twice is the same as normalizing once.
pub proof fn law_normalizing_is_idempotent(address: IpAddr)
    ensures
        address.unmapped().unmapped() == address.unmapped(),
{
}

/// An IPv6 address maps an IPv4 address exactly where its first eighty bits are zero and the
/// next sixteen are one; the IPv4 address is then in its last thirty-two bits. Every other
/// address stays as it is.
pub proof fn law_mapped_addresses_have_their_prefix(ip: u128, v4: u32)
    ensures
        IpAddr::V6(ip).unmapped() == IpAddr::V4(v4) <==> ip == 0xffff_0000_0000 + v4,
        IpAddr::V6(ip).unmapped() is V6 <==> !(0xffff_0000_0000 <= ip <= 0xffff_ffff_ffff),
        IpAddr::V6(ip).unmapped() is V6 ==> IpAddr::V6(ip).unmapped() == IpAddr::V6(ip),
        IpAddr::V4(v4).unmapped() == IpAddr::V4(v4),
{
}

/// An address is unspecified exactly where all its bits are zero.
pub proof fn law_unspecified_addresses_are_zero(v4: u32, v6: u128)
    ensures
        IpAddr::V4(v4).unspecified() <==> v4 == 0,
        IpAddr::V6(v6).unspecified() <==> v6 == 0,
{
}

/// A socket address has the address and the port that it was made of. Giving it another address
/// keeps the port, and unmapping it unmaps its address and keeps the port.
pub proof fn law_socket_addresses_keep_their_port(addr: SocketAddr, ip: IpAddr, port: u16)
    ensures
        SocketAddr::spec_new(ip, port).spec_ip() == ip,
        SocketAddr::spec_new(ip, port).spec_port() == port,
        addr.with_ip(ip).spec_ip() == ip,
        addr.with_ip(ip).spec_port() == addr.spec_port(),
        addr.unmapped().spec_ip() == addr.spec_ip().unmapped(),
        addr.unmapped().spec_port() == addr.spec_port(),
        addr.spec_ip().unmapped() == addr.spec_ip() ==> addr.unmapped() == addr,
{
}

/// Four numbers in dotted decimal notation.
pub open spec fn dotted(a: nat, b: nat, c: nat, d: nat) -> Seq<char> {
    text::joined(
        seq![text::decimal(a), text::decimal(b), text::decimal(c), text::decimal(d)],
        '.',
    )
}

proof fn lemma_digits_hold_no(s: Seq<char>, radix: nat, c: char)
    requires
        text::all_digits(s, radix),
        radix <= 16,
        text::digit_value(c) == 16,
    ensures
        !s.contains(c),
{
    if s.contains(c) {
        let i = choose|i: int| 0 <= i < s.len() && s[i] == c;
        assert(text::digit_value(s[i]) < radix);
    }
}

proof fn lemma_octet(n: nat)
    requires
        n <= 255,
    ensures
        octet_text(text::decimal(n)) == Some(n as u32),
        !text::decimal(n).contains('.'),
        !text::decimal(n).contains(':'),
        !text::decimal(n).contains('/'),
        !text::decimal(n).contains(','),
        text::decimal(n).len() > 0,
{
    text::law_decimal_text_reads_back(n);
    lemma_digits_hold_no(text::decimal(n), 10, '.');
    lemma_digits_hold_no(text::decimal(n), 10, ':');
    lemma_digits_hold_no(text::decimal(n), 10, '/');
    lemma_digits_hold_no(text::decimal(n), 10, ',');
}

/// The dotted decimal notation of four octets reads as the address with these octets.
pub proof fn law_dotted_notation_is_read(a: u8, b: u8, c: u8, d: u8)
    ensures
        ipv4_text(dotted(a as nat, b as nat, c as nat, d as nat)) == Some(
            (a * 0x100_0000 + b * 0x1_0000 + c * 0x100 + d) as u32,
        ),
        ip_text(dotted(a as nat, b as nat, c as nat, d as nat)) == Some(
            IpAddr::V4((a * 0x100_0000 + b * 0x1_0000 + c * 0x100 + d) as u32),
        ),
{
    lemma_octet(a as nat);
    lemma_octet(b as nat);
    lemma_octet(c as nat);
    lemma_octet(d as nat);
    let parts = seq![
        text::decimal(a as nat),
        text::decimal(b as nat),
        text::decimal(c as nat),
        text::decimal(d as nat),
    ];
    text::law_splitting_undoes_joining(parts, '.');
}

proof fn lemma_octet_is_decimal(s: Seq<char>)
    requires
        octet_text(s) is Some,
    ensures
        octet_text(s)->0 <= 255,
        s == text::decimal(octet_text(s)->0 as nat),
{
    text::law_decimal_text_is_the_only_one(s);
}

proof fn lemma_last_octet(high: nat, low: nat)
    requires
        low <= 255,
    ensures
        (high * 0x100 + low) / 0x100 == high,
        (high * 0x100 + low) % 0x100 == low,
{
}

pub proof fn lemma_octets_of(a: nat, b: nat, c: nat, d: nat)
    requires
        a <= 255,
        b <= 255,
        c <= 255,
        d <= 255,
    ensures
        ({
            let ip = a * 0x100_0000 + b * 0x1_0000 + c * 0x100 + d;
            &&& ip <= u32::MAX
            &&& ip / 0x100_0000 == a
            &&& ip / 0x1_0000 % 0x100 == b
            &&& ip / 0x100 % 0x100 == c
            &&& ip % 0x100 == d
        }),
{
    let ip = a * 0x100_0000 + b * 0x1_0000 + c * 0x100 + d;
    let ab = a * 0x100 + b;
    let abc = ab * 0x100 + c;
    assert(ip == abc * 0x100 + d);
    lemma_last_octet(a, b);
    lemma_last_octet(ab, c);
    lemma_last_octet(abc, d);
    vstd::arithmetic::div_mod::lemma_div_denominator(ip as int, 0x100, 0x100);
    vstd::arithmetic::div_mod::lemma_div_denominator(ip as int, 0x1_0000, 0x100);
}

/// Nothing but the dotted decimal notation of its octets reads as an IPv4 address.
pub proof fn law_only_dotted_notation_is_ipv4(s: Seq<char>)
    requires
        ipv4_text(s) is Some,
    ensures
        ({
            let ip = ipv4_text(s)->0 as nat;
            s == dotted(ip / 0x100_0000, ip / 0x1_0000 % 0x100, ip / 0x100 % 0x100, ip % 0x100)
        }),
{
    let parts = text::split(s, '.');
    text::law_joining_undoes_splitting(s, '.');
    lemma_octet_is_decimal(parts[0]);
    lemma_octet_is_decimal(parts[1]);
    lemma_octet_is_decimal(parts[2]);
    lemma_octet_is_decimal(parts[3]);
    let a = octet_text(parts[0])->0;
    let b = octet_text(parts[1])->0;
    let c = octet_text(parts[2])->0;
    let d = octet_text(parts[3])->0;
    lemma_octets_of(a as nat, b as nat, c as nat, d as nat);
    assert(parts == seq![
        text::decimal(a as nat),
        text::decimal(b as nat),
        text::decimal(c as nat),
        text::decimal(d as nat),
    ]);
}

pub proof fn lemma_dotted_chars(a: nat, b: nat, c: nat, d: nat)
    requires
        a <= 255,
        b <= 255,
        c <= 255,
        d <= 255,
    ensures
        !dotted(a, b, c, d).contains(':'),
        !dotted(a, b, c, d).contains('/'),
        !dotted(a, b, c, d).contains(','),
        dotted(a, b, c, d).contains('.'),
        dotted(a, b, c, d).len() > 0,
        text::digit_value(dotted(a, b, c, d)[0]) < 10,
        text::digit_value(dotted(a, b, c, d).last()) < 10,
{
    lemma_octet(a);
    lemma_octet(b);
    lemma_octet(c);
    lemma_octet(d);
    text::law_decimal_text_reads_back(a);
    text::law_decimal_text_reads_back(d);
    reveal_with_fuel(text::joined, 5);
    let (ta, tb, tc, td) = (
        text::decimal(a),
        text::decimal(b),
        text::decimal(c),
        text::decimal(d),
    );
    let parts = seq![ta, tb, tc, td];
    assert(parts.skip(1) == seq![tb, tc, td]);
    assert(parts.skip(1).skip(1) == seq![tc, td]);
    assert(parts.skip(1).skip(1).skip(1) == seq![td]);
    let s = dotted(a, b, c, d);
    let dot = seq!['.'];
    assert(s == ta + dot + (tb + dot + (tc + dot + td)));
    assert(s[ta.len() as int] == '.');
    assert(s[0] == ta[0]);
    assert(s.last() == td.last());
    assert(td.last() == td[td.len() - 1]);
    if s.contains(':') {
        let i = choose|i: int| 0 <= i < s.len() && s[i] == ':';
        lemma_which(ta, tb, tc, td, i);
    }
    if s.contains('/') {
        let i = choose|i: int| 0 <= i < s.len() && s[i] == '/';
        lemma_which(ta, tb, tc, td, i);
    }
    if s.contains(',') {
        let i = choose|i: int| 0 <= i < s.len() && s[i] == ',';
        lemma_which(ta, tb, tc, td, i);
    }
}

proof fn lemma_which(ta: Seq<char>, tb: Seq<char>, tc: Seq<char>, td: Seq<char>, i: int)
    requires
        0 <= i < (ta + seq!['.'] + (tb + seq!['.'] + (tc + seq!['.'] + td))).len(),
    ensures
        ({
            let c = (ta + seq!['.'] + (tb + seq!['.'] + (tc + seq!['.'] + td)))[i];
            c == '.' || ta.contains(c) || tb.contains(c) || tc.contains(c) || td.contains(c)
        }),
{
    let (la, lb, lc) = (ta.len(), tb.len(), tc.len());
    if i < la {
        assert(ta.contains(ta[i]));
    } else if la < i <= la + lb {
        assert(tb.contains(tb[i - la - 1]));
    } else if la + lb + 1 < i <= la + lb + 1 + lc {
        assert(tc.contains(tc[i - la - lb - 2]));
    } else if i > la + lb + lc + 2 {
        assert(td.contains(td[i - la - lb - lc - 3]));
    }
}

/// A group of an IPv6 address: one to four hexadecimal digits.
pub open spec fn is_group(s: Seq<char>) -> bool {
    1 <= s.len() <= 4 && text::all_digits(s, 16)
}

/// Each of `parts` is a group, and `groups` are the numbers that they denote in base sixteen.
pub open spec fn spell(parts: Seq<Seq<char>>, groups: Seq<u32>) -> bool {
    &&& parts.len() == groups.len()
    &&& forall|i: int|
        0 <= i < parts.len() ==> is_group(#[trigger] parts[i]) && groups[i] == text::numeral(
            parts[i],
            16,
        )
}

/// The number whose sixteen-bit groups are `groups`, most significant first.
pub open spec fn number_of(groups: Seq<u32>) -> nat
    decreases groups.len(),
{
    if groups.len() == 0 {
        0
    } else {
        number_of(groups.drop_last()) * 0x1_0000 + groups.last() as nat
    }
}

proof fn lemma_group(s: Seq<char>)
    requires
        is_group(s),
    ensures
        hextet_text(s) == Some(text::numeral(s, 16) as u32),
        text::numeral(s, 16) <= 0xffff,
        !s.contains(':'),
        !s.contains('/'),
        s[0] != ':',
        s.last() != ':',
{
    reveal_with_fuel(text::numeral, 5);
    lemma_digits_hold_no(s, 16, ':');
    lemma_digits_hold_no(s, 16, '/');
    assert(s.contains(s[0]) && s.contains(s[s.len() - 1]));
    let s1 = s.drop_last();
    let s2 = s1.drop_last();
    let s3 = s2.drop_last();
    let s4 = s3.drop_last();
    assert(text::digit_value(s[s.len() - 1]) < 16);
    if s.len() > 1 {
        assert(text::digit_value(s[s.len() - 2]) < 16);
    }
    if s.len() > 2 {
        assert(text::digit_value(s[s.len() - 3]) < 16);
    }
    if s.len() > 3 {
        assert(text::digit_value(s[s.len() - 4]) < 16);
    }
    if s.len() == 1 {
        assert(s1.len() == 0);
    } else if s.len() == 2 {
        assert(s2.len() == 0);
    } else if s.len() == 3 {
        assert(s3.len() == 0);
    } else {
        assert(s4.len() == 0);
    }
}

proof fn lemma_spelled_groups(parts: Seq<Seq<char>>, groups: Seq<u32>, v4_tail: bool)
    requires
        spell(parts, groups),
    ensures
        groups_of(parts, v4_tail) == Some(groups),
        small_groups(groups),
        no_colons(parts),
    decreases parts.len(),
{
    assert forall|i: int| 0 <= i < parts.len() implies groups[i] <= 0xffff && !(
    #[trigger] parts[i]).contains(':') && parts[i].len() > 0 by {
        lemma_group(parts[i]);
    }
    if parts.len() > 0 {
        lemma_group(parts[0]);
        assert forall|i: int| 0 <= i < parts.skip(1).len() implies is_group(
            #[trigger] parts.skip(1)[i],
        ) && groups.skip(1)[i] == text::numeral(parts.skip(1)[i], 16) by {
            assert(parts.skip(1)[i] == parts[i + 1]);
        }
        lemma_spelled_groups(parts.skip(1), groups.skip(1), v4_tail);
        assert(groups == seq![groups[0]] + groups.skip(1));
    } else {
        assert(groups == Seq::<u32>::empty());
    }
}

/// No part is empty or holds a colon.
spec fn no_colons(parts: Seq<Seq<char>>) -> bool {
    forall|i: int|
        0 <= i < parts.len() ==> !(#[trigger] parts[i]).contains(':') && parts[i].len() > 0
}

/// There is no `::` before position `k` of `s`.
spec fn no_gap_before(s: Seq<char>, k: int) -> bool {
    forall|j: int| 0 <= j < k ==> !(j + 1 < s.len() && #[trigger] s[j] == ':' && s[j + 1] == ':')
}

proof fn lemma_joined_has_no_gap(parts: Seq<Seq<char>>)
    requires
        parts.len() > 0,
        no_colons(parts),
    ensures
        text::joined(parts, ':').len() > 0,
        text::joined(parts, ':')[0] != ':',
        text::joined(parts, ':').last() != ':',
        no_gap_before(text::joined(parts, ':'), text::joined(parts, ':').len() as int),
    decreases parts.len(),
{
    let s = text::joined(parts, ':');
    let head = parts[0];
    assert(head.contains(head[0]) && head.contains(head[head.len() - 1]));
    if parts.len() > 1 {
        assert forall|i: int| 0 <= i < parts.skip(1).len() implies !(
        #[trigger] parts.skip(1)[i]).contains(':') && parts.skip(1)[i].len() > 0 by {
            assert(parts.skip(1)[i] == parts[i + 1]);
        }
        lemma_joined_has_no_gap(parts.skip(1));
        let rest = text::joined(parts.skip(1), ':');
        assert(s == head + seq![':'] + rest);
        assert forall|j: int| 0 <= j < s.len() implies !(j + 1 < s.len() && #[trigger] s[j] == ':'
            && s[j + 1] == ':') by {
            if j < head.len() {
                assert(head.contains(s[j]));
            } else if j == head.len() {
                assert(j + 1 < s.len() ==> s[j + 1] == rest[0]);
            } else {
                assert(s[j] == rest[j - head.len() - 1]);
                assert(j + 1 < s.len() ==> s[j + 1] == rest[j - head.len()]);
            }
        }
        assert(s.last() == rest.last());
    } else {
        assert forall|j: int| 0 <= j < s.len() implies !(j + 1 < s.len() && #[trigger] s[j] == ':'
            && s[j + 1] == ':') by {
            assert(head.contains(s[j]));
        }
    }
}

proof fn lemma_number_of(g: Seq<u32>)
    requires
        g.len() == 8,
        small_groups(g),
    ensures
        from_groups(g) == number_of(g),
{
    reveal_with_fuel(number_of, 9);
    let g7 = g.drop_last();
    let g6 = g7.drop_last();
    let g5 = g6.drop_last();
    let g4 = g5.drop_last();
    let g3 = g4.drop_last();
    let g2 = g3.drop_last();
    let g1 = g2.drop_last();
    assert(g1.drop_last().len() == 0);
    assert(g[0] <= 0xffff && g[1] <= 0xffff && g[2] <= 0xffff && g[3] <= 0xffff && g[4] <= 0xffff
        && g[5] <= 0xffff && g[6] <= 0xffff && g[7] <= 0xffff);
}

proof fn lemma_full_notation(parts: Seq<Seq<char>>, groups: Seq<u32>)
    requires
        parts.len() > 0,
        no_colons(parts),
        groups_of(parts, true) == Some(groups),
        groups.len() == 8,
        small_groups(groups),
    ensures
        ipv6_text(text::joined(parts, ':')) == Some(number_of(groups) as u128),
        number_of(groups) <= u128::MAX,
{
    lemma_joined_has_no_gap(parts);
    let s = text::joined(parts, ':');
    lemma_gap_index(s, s.len());
    text::law_splitting_undoes_joining(parts, ':');
    lemma_number_of(groups);
}

proof fn lemma_short_notation(
    head: Seq<Seq<char>>,
    head_groups: Seq<u32>,
    tail: Seq<Seq<char>>,
    tail_groups: Seq<u32>,
)
    requires
        no_colons(head),
        no_colons(tail),
        groups_of(head, false) == Some(head_groups),
        groups_of(tail, true) == Some(tail_groups),
        small_groups(head_groups),
        small_groups(tail_groups),
        head_groups.len() + tail_groups.len() <= 7,
        head.len() == 0 ==> head_groups.len() == 0,
    ensures
        ({
            let zeros = Seq::new((8 - head_groups.len() - tail_groups.len()) as nat, |i: int| 0u32);
            let s = text::joined(head, ':') + seq![':', ':'] + text::joined(tail, ':');
            &&& ipv6_text(s) == Some(number_of(head_groups + zeros + tail_groups) as u128)
            &&& number_of(head_groups + zeros + tail_groups) <= u128::MAX
        }),
{
    let a = text::joined(head, ':');
    let b = text::joined(tail, ':');
    let s = a + seq![':', ':'] + b;
    let k = a.len();
    if head.len() > 0 {
        lemma_joined_has_no_gap(head);
        text::law_splitting_undoes_joining(head, ':');
        assert forall|j: int| 0 <= j < k implies !(j + 1 < s.len() && #[trigger] s[j] == ':'
            && s[j + 1] == ':') by {
            assert(s[j] == a[j]);
            if j + 1 < k {
                assert(s[j + 1] == a[j + 1]);
            } else {
                assert(a[j] == a.last());
            }
        }
    }
    assert(s[k as int] == ':' && s[k as int + 1] == ':');
    lemma_gap_index(s, k);
    assert(s.take(k as int) == a);
    assert(s.skip(k as int + 2) == b);
    if tail.len() > 0 {
        lemma_joined_has_no_gap(tail);
        text::law_splitting_undoes_joining(tail, ':');
    }
    let zeros = Seq::new((8 - head_groups.len() - tail_groups.len()) as nat, |i: int| 0u32);
    let groups = head_groups + zeros + tail_groups;
    assert forall|i: int| 0 <= i < groups.len() implies #[trigger] groups[i] <= 0xffff by {
        if i < head_groups.len() {
            assert(groups[i] == head_groups[i]);
        } else if i >= head_groups.len() + zeros.len() {
            assert(groups[i] == tail_groups[i - head_groups.len() - zeros.len()]);
        }
    }
    lemma_number_of(groups);
}

/// Eight groups of hexadecimal digits with colons between them read as the address with these
/// groups.
pub proof fn law_full_ipv6_notation_is_read(parts: Seq<Seq<char>>, groups: Seq<u32>)
    requires
        parts.len() == 8,
        spell(parts, groups),
    ensures
        number_of(groups) <= u128::MAX,
        ip_text(text::joined(parts, ':')) == Some(IpAddr::V6(number_of(groups) as u128)),
{
    lemma_spelled_groups(parts, groups, true);
    lemma_full_notation(parts, groups);
    let s = text::joined(parts, ':');
    reveal_with_fuel(text::joined, 2);
    assert(s[parts[0].len() as int] == ':');
    lemma_colons_are_not_ipv4(s, parts[0].len() as int);
}

proof fn lemma_colons_are_not_ipv4(s: Seq<char>, i: int)
    requires
        0 <= i < s.len(),
        s[i] == ':',
    ensures
        ipv4_text(s) is None,
{
    if ipv4_text(s) is Some {
        law_only_dotted_notation_is_ipv4(s);
        let ip = ipv4_text(s)->0 as nat;
        lemma_dotted_chars(
            ip / 0x100_0000,
            ip / 0x1_0000 % 0x100,
            ip / 0x100 % 0x100,
            ip % 0x100,
        );
        assert(s.contains(s[i]));
    }
}

/// Groups on both sides of a `::`, at most seven of them, read as the address with these groups
/// and zeros in between.
pub proof fn law_short_ipv6_notation_is_read(
    head: Seq<Seq<char>>,
    head_groups: Seq<u32>,
    tail: Seq<Seq<char>>,
    tail_groups: Seq<u32>,
)
    requires
        spell(head, head_groups),
        spell(tail, tail_groups),
        head.len() + tail.len() <= 7,
    ensures
        ({
            let zeros = Seq::new((8 - head.len() - tail.len()) as nat, |i: int| 0u32);
            let groups = head_groups + zeros + tail_groups;
            let s = text::joined(head, ':') + seq![':', ':'] + text::joined(tail, ':');
            &&& number_of(groups) <= u128::MAX
            &&& ip_text(s) == Some(IpAddr::V6(number_of(groups) as u128))
        }),
{
    lemma_spelled_groups(head, head_groups, false);
    lemma_spelled_groups(tail, tail_groups, true);
    lemma_short_notation(head, head_groups, tail, tail_groups);
    let s = text::joined(head, ':') + seq![':', ':'] + text::joined(tail, ':');
    lemma_colons_are_not_ipv4(s, text::joined(head, ':').len() as int);
}

proof fn lemma_groups_with_dotted_tail(
    parts: Seq<Seq<char>>,
    groups: Seq<u32>,
    last: Seq<char>,
    ip: u32,
)
    requires
        spell(parts, groups),
        ipv4_text(last) == Some(ip),
        hextet_text(last) is None,
    ensures
        groups_of(parts.push(last), true) == Some(groups + seq![ip / 0x1_0000, ip % 0x1_0000]),
    decreases parts.len(),
{
    let all = parts.push(last);
    if parts.len() == 0 {
        assert(all[0] == last);
        assert(groups + seq![ip / 0x1_0000, ip % 0x1_0000] == seq![ip / 0x1_0000, ip % 0x1_0000]);
    } else {
        lemma_group(parts[0]);
        assert(all[0] == parts[0]);
        assert(all.skip(1) == parts.skip(1).push(last));
        assert forall|i: int| 0 <= i < parts.skip(1).len() implies is_group(
            #[trigger] parts.skip(1)[i],
        ) && groups.skip(1)[i] == text::numeral(parts.skip(1)[i], 16) by {
            assert(parts.skip(1)[i] == parts[i + 1]);
        }
        lemma_groups_with_dotted_tail(parts.skip(1), groups.skip(1), last, ip);
        assert(seq![groups[0]] + (groups.skip(1) + seq![ip / 0x1_0000, ip % 0x1_0000]) == groups
            + seq![ip / 0x1_0000, ip % 0x1_0000]);
    }
}

/// The last two groups may be written in dotted decimal notation.
pub proof fn law_dotted_tails_are_read(
    head: Seq<Seq<char>>,
    head_groups: Seq<u32>,
    tail: Seq<Seq<char>>,
    tail_groups: Seq<u32>,
    a: u8,
    b: u8,
    c: u8,
    d: u8,
)
    requires
        spell(head, head_groups),
        spell(tail, tail_groups),
        head.len() + tail.len() <= 5,
    ensures
        ({
            let zeros = Seq::new((6 - head.len() - tail.len()) as nat, |i: int| 0u32);
            let last = seq![(a * 0x100 + b) as u32, (c * 0x100 + d) as u32];
            let groups = head_groups + zeros + (tail_groups + last);
            let s = text::joined(head, ':') + seq![':', ':'] + text::joined(
                tail.push(dotted(a as nat, b as nat, c as nat, d as nat)),
                ':',
            );
            &&& number_of(groups) <= u128::MAX
            &&& ip_text(s) == Some(IpAddr::V6(number_of(groups) as u128))
        }),
{
    let four = dotted(a as nat, b as nat, c as nat, d as nat);
    let last = seq![(a * 0x100 + b) as u32, (c * 0x100 + d) as u32];
    lemma_dotted_tail(tail, tail_groups, a, b, c, d);
    lemma_spelled_groups(head, head_groups, false);
    lemma_short_notation(head, head_groups, tail.push(four), tail_groups + last);
    let s = text::joined(head, ':') + seq![':', ':'] + text::joined(tail.push(four), ':');
    lemma_colons_are_not_ipv4(s, text::joined(head, ':').len() as int);
}

proof fn lemma_halves_of(a: nat, b: nat, c: nat, d: nat)
    requires
        a <= 255,
        b <= 255,
        c <= 255,
        d <= 255,
    ensures
        ({
            let ip = a * 0x100_0000 + b * 0x1_0000 + c * 0x100 + d;
            &&& ip <= u32::MAX
            &&& ip / 0x1_0000 == a * 0x100 + b
            &&& ip % 0x1_0000 == c * 0x100 + d
        }),
{
}

proof fn lemma_dotted_is_no_group(a: u8, b: u8, c: u8, d: u8)
    ensures
        hextet_text(dotted(a as nat, b as nat, c as nat, d as nat)) is None,
        !dotted(a as nat, b as nat, c as nat, d as nat).contains(':'),
        dotted(a as nat, b as nat, c as nat, d as nat).len() > 0,
{
    let four = dotted(a as nat, b as nat, c as nat, d as nat);
    lemma_dotted_chars(a as nat, b as nat, c as nat, d as nat);
    let i = choose|i: int| 0 <= i < four.len() && four[i] == '.';
    assert(text::digit_value(four[i]) == 16);
}

proof fn lemma_dotted_tail(
    tail: Seq<Seq<char>>,
    tail_groups: Seq<u32>,
    a: u8,
    b: u8,
    c: u8,
    d: u8,
)
    requires
        spell(tail, tail_groups),
    ensures
        ({
            let all = tail.push(dotted(a as nat, b as nat, c as nat, d as nat));
            let last = seq![(a * 0x100 + b) as u32, (c * 0x100 + d) as u32];
            &&& groups_of(all, true) == Some(tail_groups + last)
            &&& small_groups(tail_groups + last)
            &&& no_colons(all)
        }),
{
    let four = dotted(a as nat, b as nat, c as nat, d as nat);
    let last = seq![(a * 0x100 + b) as u32, (c * 0x100 + d) as u32];
    lemma_dotted_is_no_group(a, b, c, d);
    law_dotted_notation_is_read(a, b, c, d);
    let ip = ipv4_text(four)->0;
    lemma_halves_of(a as nat, b as nat, c as nat, d as nat);
    lemma_spelled_groups(tail, tail_groups, true);
    lemma_groups_with_dotted_tail(tail, tail_groups, four, ip);
    assert(seq![ip / 0x1_0000, ip % 0x1_0000] == last);
    let all = tail.push(four);
    assert forall|i: int| 0 <= i < all.len() implies !(#[trigger] all[i]).contains(':')
        && all[i].len() > 0 by {
        if i < tail.len() {
            assert(all[i] == tail[i]);
        }
    }
    let groups = tail_groups + last;
    assert forall|i: int| 0 <= i < groups.len() implies #[trigger] groups[i] <= 0xffff by {
        if i < tail_groups.len() {
            assert(groups[i] == tail_groups[i]);
        } else {
            assert(groups[i] == last[i - tail_groups.len()]);
        }
    }
}

/// The address and the port of a socket address are those that it holds. Unmapping it changes
/// it only where it holds a mapped address; a flow label and a scope stay with IPv6 addresses.
pub proof fn law_parts_of_socket_addresses(
    ip: u32,
    ip6: u128,
    port: u16,
    flowinfo: u32,
    scope_id: u32,
    new_ip6: u128,
)
    ensures
        (SocketAddr::V4 { ip, port }).spec_ip() == IpAddr::V4(ip),
        (SocketAddr::V4 { ip, port }).spec_port() == port,
        (SocketAddr::V4 { ip, port }).unmapped() == (SocketAddr::V4 { ip, port }),
        (SocketAddr::V6 { ip: ip6, port, flowinfo, scope_id }).spec_ip() == IpAddr::V6(ip6),
        (SocketAddr::V6 { ip: ip6, port, flowinfo, scope_id }).spec_port() == port,
        (SocketAddr::V6 { ip: ip6, port, flowinfo, scope_id }).unmapped()
            == if 0xffff_0000_0000 <= ip6 <= 0xffff_ffff_ffff {
            SocketAddr::V4 { ip: (ip6 - 0xffff_0000_0000) as u32, port }
        } else {
            SocketAddr::V6 { ip: ip6, port, flowinfo, scope_id }
        },
        (SocketAddr::V6 { ip: ip6, port, flowinfo, scope_id }).with_ip(IpAddr::V6(new_ip6)) == (
        SocketAddr::V6 { ip: new_ip6, port, flowinfo, scope_id }),
        (SocketAddr::V6 { ip: ip6, port, flowinfo, scope_id }).with_ip(IpAddr::V4(ip)) == (
        SocketAddr::V4 { ip, port }),
        (SocketAddr::V4 { ip, port }).with_ip(IpAddr::V6(ip6)) == (SocketAddr::V6 {
            ip: ip6,
            port,
            flowinfo: 0,
            scope_id: 0,
        }),
{
}

/// Six groups of hexadecimal digits and a dotted decimal notation of the last two, with colons
/// between them, read as the address with these groups.
pub proof fn law_full_notation_with_dotted_tail_is_read(
    parts: Seq<Seq<char>>,
    groups: Seq<u32>,
    a: u8,
    b: u8,
    c: u8,
    d: u8,
)
    requires
        parts.len() == 6,
        spell(parts, groups),
    ensures
        ({
            let last = seq![(a * 0x100 + b) as u32, (c * 0x100 + d) as u32];
            let s = text::joined(
                parts.push(dotted(a as nat, b as nat, c as nat, d as nat)),
                ':',
            );
            &&& number_of(groups + last) <= u128::MAX
            &&& ip_text(s) == Some(IpAddr::V6(number_of(groups + last) as u128))
        }),
{
    let four = dotted(a as nat, b as nat, c as nat, d as nat);
    let all = parts.push(four);
    let last = seq![(a * 0x100 + b) as u32, (c * 0x100 + d) as u32];
    lemma_dotted_tail(parts, groups, a, b, c, d);
    lemma_full_notation(all, groups + last);
    let s = text::joined(all, ':');
    reveal_with_fuel(text::joined, 2);
    assert(s[all[0].len() as int] == ':');
    lemma_colons_are_not_ipv4(s, all[0].len() as int);
}

/// `parts` spell `groups`: each part one group in hexadecimal digits, but for the last part,
/// which with `dotted_tail` may be the dotted decimal notation of the last two groups.
pub open spec fn spell_with_tail(
    parts: Seq<Seq<char>>,
    groups: Seq<u32>,
    dotted_tail: bool,
) -> bool {
    spell(parts, groups) || {
        let n = parts.len() - 1;
        &&& dotted_tail
        &&& n >= 0
        &&& groups.len() == n + 2
        &&& spell(parts.drop_last(), groups.take(n))
        &&& groups[n] <= 0xffff
        &&& groups[n + 1] <= 0xffff
        &&& parts.last() == dotted(
            groups[n] as nat / 0x100,
            groups[n] as nat % 0x100,
            groups[n + 1] as nat / 0x100,
            groups[n + 1] as nat % 0x100,
        )
    }
}

proof fn lemma_halves_hold_octets(ip: nat)
    ensures
        ip / 0x1_0000 / 0x100 == ip / 0x100_0000,
        ip % 0x1_0000 / 0x100 == ip / 0x100 % 0x100,
        ip % 0x1_0000 % 0x100 == ip % 0x100,
{
    vstd::arithmetic::div_mod::lemma_div_denominator(ip as int, 0x1_0000, 0x100);
}

proof fn lemma_read_groups_are_spelled(parts: Seq<Seq<char>>, dotted_tail: bool)
    requires
        groups_of(parts, dotted_tail) is Some,
    ensures
        spell_with_tail(parts, groups_of(parts, dotted_tail)->0, dotted_tail),
        small_groups(groups_of(parts, dotted_tail)->0),
    decreases parts.len(),
{
    let groups = groups_of(parts, dotted_tail)->0;
    if parts.len() > 0 {
        match hextet_text(parts[0]) {
            Some(group) => {
                let rest = parts.skip(1);
                lemma_read_groups_are_spelled(rest, dotted_tail);
                let more = groups_of(rest, dotted_tail)->0;
                assert(groups == seq![group] + more);
                if spell(rest, more) {
                    assert forall|i: int| 0 <= i < parts.len() implies is_group(
                        #[trigger] parts[i],
                    ) && groups[i] == text::numeral(parts[i], 16) by {
                        if i > 0 {
                            assert(parts[i] == rest[i - 1]);
                        }
                    }
                } else {
                    let n = parts.len() - 1;
                    let init = parts.drop_last();
                    assert(rest.drop_last() == init.skip(1));
                    assert(rest.last() == parts.last());
                    assert forall|i: int| 0 <= i < init.len() implies is_group(
                        #[trigger] init[i],
                    ) && groups.take(n)[i] == text::numeral(init[i], 16) by {
                        if i > 0 {
                            assert(init[i] == rest.drop_last()[i - 1]);
                            assert(groups[i] == more.take(n - 1)[i - 1]);
                        }
                    }
                    assert(spell(init, groups.take(n)));
                    assert(groups[n] == more[n - 1] && groups[n + 1] == more[n]);
                }
                assert forall|i: int| 0 <= i < groups.len() implies #[trigger] groups[i]
                    <= 0xffff by {
                    if i > 0 {
                        assert(groups[i] == more[i - 1]);
                    }
                }
            },
            None => {
                let ip = ipv4_text(parts[0])->0;
                law_only_dotted_notation_is_ipv4(parts[0]);
                lemma_halves_hold_octets(ip as nat);
                assert(groups == seq![ip / 0x1_0000, ip % 0x1_0000]);
                assert(parts.drop_last().len() == 0);
            },
        }
    }
}

/// Nothing else reads as an IPv6 address: the text is eight groups with colons between them, or
/// at most seven around one `::`, and the address is the one with these groups. The result is
/// the parts and the groups before `::`, or all of them where there is no `::`, and those behind
/// it.
pub proof fn law_only_colon_notation_is_ipv6(s: Seq<char>) -> (r: (
    (Seq<Seq<char>>, Seq<u32>),
    Option<(Seq<Seq<char>>, Seq<u32>)>,
))
    requires
        ipv6_text(s) is Some,
    ensures
        r.1 is None ==> {
            &&& s == text::joined(r.0.0, ':')
            &&& spell_with_tail(r.0.0, r.0.1, true)
            &&& r.0.1.len() == 8
            &&& ipv6_text(s)->0 == number_of(r.0.1)
        },
        r.1 matches Some((tail, tail_groups)) ==> {
            let zeros = Seq::new((8 - r.0.1.len() - tail_groups.len()) as nat, |i: int| 0u32);
            &&& s == text::joined(r.0.0, ':') + seq![':', ':'] + text::joined(tail, ':')
            &&& spell_with_tail(r.0.0, r.0.1, false)
            &&& spell_with_tail(tail, tail_groups, true)
            &&& r.0.1.len() + tail_groups.len() <= 7
            &&& ipv6_text(s)->0 == number_of(r.0.1 + zeros + tail_groups)
        },
{
    let k = gap_index(s) as int;
    lemma_gap_is_there(s);
    if k == s.len() {
        let parts = text::split(s, ':');
        text::law_joining_undoes_splitting(s, ':');
        lemma_read_groups_are_spelled(parts, true);
        let groups = groups_of(parts, true)->0;
        lemma_number_of(groups);
        ((parts, groups), None)
    } else {
        let (a, b) = (s.take(k), s.skip(k + 2));
        assert(s == a + seq![':', ':'] + b);
        let (head, head_groups) = lemma_side_is_spelled(a, false);
        let (tail, tail_groups) = lemma_side_is_spelled(b, true);
        let zeros = Seq::new((8 - head_groups.len() - tail_groups.len()) as nat, |i: int| 0u32);
        let groups = head_groups + zeros + tail_groups;
        assert forall|i: int| 0 <= i < groups.len() implies #[trigger] groups[i] <= 0xffff by {
            if i < head_groups.len() {
                assert(groups[i] == head_groups[i]);
            } else if i >= head_groups.len() + zeros.len() {
                assert(groups[i] == tail_groups[i - head_groups.len() - zeros.len()]);
            }
        }
        lemma_number_of(groups);
        ((head, head_groups), Some((tail, tail_groups)))
    }
}

proof fn lemma_side_is_spelled(s: Seq<char>, dotted_tail: bool) -> (r: (Seq<Seq<char>>, Seq<u32>))
    requires
        side_groups(s, dotted_tail) is Some,
    ensures
        s == text::joined(r.0, ':'),
        r.1 == side_groups(s, dotted_tail)->0,
        spell_with_tail(r.0, r.1, dotted_tail),
        small_groups(r.1),
{
    if s.len() == 0 {
        assert(text::joined(Seq::empty(), ':') == s);
        (Seq::empty(), Seq::empty())
    } else {
        let parts = text::split(s, ':');
        text::law_joining_undoes_splitting(s, ':');
        lemma_read_groups_are_spelled(parts, dotted_tail);
        (parts, groups_of(parts, dotted_tail)->0)
    }
}

proof fn lemma_gap_is_there(s: Seq<char>)
    ensures
        gap_index(s) <= s.len(),
        gap_index(s) < s.len() ==> gap_index(s) + 1 < s.len() && s[gap_index(s) as int] == ':'
            && s[gap_index(s) as int + 1] == ':',
    decreases s.len(),
{
    if s.len() > 0 {
        lemma_gap_is_there(s.skip(1));
    }
}

/// An address is read in one of two notations, and as what the text is in that notation.
pub proof fn law_addresses_are_in_one_notation(s: Seq<char>)
    ensures
        ipv4_text(s) matches Some(ip) ==> ip_text(s) == Some(IpAddr::V4(ip)) && ipv6_text(
            s,
        ) is None,
        ipv6_text(s) matches Some(ip) ==> ip_text(s) == Some(IpAddr::V6(ip)),
        ipv4_text(s) is None && ipv6_text(s) is None ==> ip_text(s) is None,
{
    if ipv6_text(s) is Some {
        lemma_ipv6_holds_a_colon(s);
    }
}

proof fn lemma_ipv6_holds_a_colon(s: Seq<char>)
    requires
        ipv6_text(s) is Some,
    ensures
        ipv4_text(s) is None,
{
    let k = gap_index(s) as int;
    lemma_gap_is_there(s);
    if k < s.len() {
        lemma_colons_are_not_ipv4(s, k);
    } else {
        let parts = text::split(s, ':');
        text::law_joining_undoes_splitting(s, ':');
        lemma_read_groups_are_spelled(parts, true);
        let first = parts[0];
        assert(parts.len() >= 7);
        assert(parts == seq![first] + parts.skip(1));
        text::law_joining_puts_the_separator_between(first, parts.skip(1), ':');
        assert(s[first.len() as int] == ':');
        lemma_colons_are_not_ipv4(s, first.len() as int);
    }
}

/// The dotted notation is four decimal numbers with dots between them.
pub proof fn law_dotted_notation_is_four_numbers(a: nat, b: nat, c: nat, d: nat)
    ensures
        dotted(a, b, c, d) == text::decimal(a) + seq!['.'] + (text::decimal(b) + seq!['.'] + (
        text::decimal(c) + seq!['.'] + text::decimal(d))),
{
    let (ta, tb) = (text::decimal(a), text::decimal(b));
    let (tc, td) = (text::decimal(c), text::decimal(d));
    assert(seq![ta, tb, tc, td] == seq![ta] + seq![tb, tc, td]);
    assert(seq![tb, tc, td] == seq![tb] + seq![tc, td]);
    assert(seq![tc, td] == seq![tc] + seq![td]);
    text::law_joining_puts_the_separator_between(ta, seq![tb, tc, td], '.');
    text::law_joining_puts_the_separator_between(tb, seq![tc, td], '.');
    text::law_joining_puts_the_separator_between(tc, seq![td], '.');
    text::law_joining_puts_the_separator_between(td, Seq::empty(), '.');
}

/// A group is one to four hexadecimal digits, and each group counts sixteen bits less than the
/// one before.
pub proof fn law_groups_are_positional(s: Seq<char>, groups: Seq<u32>, group: u32)
    ensures
        is_group(s) <==> 1 <= s.len() <= 4 && forall|i: int|
            0 <= i < s.len() ==> text::digit_value(#[trigger] s[i]) < 16,
        number_of(Seq::empty()) == 0,
        number_of(groups.push(group)) == number_of(groups) * 0x1_0000 + group,
{
    assert(groups.push(group).drop_last() == groups);
}

} // verus!
