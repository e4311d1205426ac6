use shadowquic::addr::{normalize_ip, to_ipv4_mapped, IpAddr, SocketAddr};
use shadowquic::error::SError;
use shadowquic::msgs::number::{get_be, put_be};
use shadowquic::msgs::socks5::{AddrOrDomain, SocksAddr, UdpReqHeader, VarVec};
use shadowquic::msgs::squic::{decode_u16, encode_u16, SQUdpControlHeader};
use shadowquic::text::{decimal_string, join, split_str, trim};

fn addresses() -> Vec<SocksAddr> {
    vec![
        SocksAddr { addr: AddrOrDomain::V4(0x0102_0304), port: 0xabcd },
        SocksAddr { addr: AddrOrDomain::V6(0x2001_0db8 << 96 | 7), port: 1 },
        SocksAddr {
            addr: AddrOrDomain::Domain(VarVec { len: 11, contents: b"example.org".to_vec() }),
            port: 443,
        },
        SocksAddr {
            addr: AddrOrDomain::Domain(VarVec { len: 0, contents: Vec::new() }),
            port: 0,
        },
    ]
}

#[test]
fn addresses_survive_the_wire() {
    for addr in addresses() {
        let mut bytes = vec![9];
        addr.encode(&mut bytes);
        let end = bytes.len();
        bytes.push(8);
        let (read, position) = SocksAddr::decode(&bytes, 1).unwrap();
        assert!(read.same(&addr));
        assert_eq!(position, end);
        for short in 1..end {
            assert!(matches!(SocksAddr::decode(&bytes[..short], 1), Err(SError::Io(_))));
        }
    }
}

#[test]
fn addresses_have_their_layout() {
    let mut bytes = Vec::new();
    addresses()[0].encode(&mut bytes);
    assert_eq!(bytes, vec![1, 1, 2, 3, 4, 0xab, 0xcd]);
    assert!(matches!(SocksAddr::decode(&[2, 0, 0, 0], 0), Err(SError::ProtocolViolation)));
}

#[test]
fn different_addresses_are_not_the_same() {
    let all = addresses();
    for (i, a) in all.iter().enumerate() {
        for (j, b) in all.iter().enumerate() {
            assert_eq!(a.same(b), i == j);
        }
        assert!(a.copy().same(a));
        let mut other = a.copy();
        other.port = 2;
        assert!(!other.same(a));
    }
}

#[test]
fn control_headers_survive_the_wire() {
    for dst in addresses() {
        let header = SQUdpControlHeader { dst: dst.copy(), id: 0x1234 };
        let mut bytes = header.encode();
        let len = bytes.len();
        bytes.push(0);
        let (read, used) = SQUdpControlHeader::decode(&bytes).unwrap();
        assert!(read.dst.same(&dst));
        assert_eq!(read.id, 0x1234);
        assert_eq!(used, len);
        for short in 0..len {
            assert!(matches!(SQUdpControlHeader::decode(&bytes[..short]), Err(SError::Io(_))));
        }
    }
    assert!(matches!(SQUdpControlHeader::decode(&[0]), Err(SError::ProtocolViolation)));
}

#[test]
fn udp_headers_survive_the_wire() {
    for dst in addresses() {
        let header = UdpReqHeader { rsv: 0x0102, frag: 3, dst: dst.copy() };
        let mut bytes = header.encode();
        let len = bytes.len();
        bytes.extend_from_slice(b"payload");
        let (read, used) = UdpReqHeader::decode(&bytes).unwrap();
        assert_eq!((read.rsv, read.frag, used), (0x0102, 3, len));
        assert!(read.dst.same(&dst));
    }
}

#[test]
fn numbers_are_big_endian() {
    assert_eq!(encode_u16(0x0102), vec![1, 2]);
    assert_eq!(decode_u16(&[1, 2, 3]).unwrap(), 0x0102);
    assert!(matches!(decode_u16(&[1]), Err(SError::Io(_))));
    let mut bytes = vec![0xff];
    put_be(&mut bytes, 0x0a0b0c, 4);
    assert_eq!(bytes, vec![0xff, 0, 0x0a, 0x0b, 0x0c]);
    assert_eq!(get_be(&bytes, 2, 2), 0x0a0b);
}

#[test]
fn addresses_are_read_in_all_notations() {
    let v4 = |s: &str| IpAddr::parse(s);
    assert_eq!(v4("1.2.3.4"), Some(IpAddr::V4(0x0102_0304)));
    assert_eq!(v4("255.255.255.255"), Some(IpAddr::V4(u32::MAX)));
    assert_eq!(v4("::"), Some(IpAddr::V6(0)));
    assert_eq!(v4("::1"), Some(IpAddr::V6(1)));
    assert_eq!(v4("1::"), Some(IpAddr::V6(1 << 112)));
    assert_eq!(
        v4("1:2:3:4:5:6:7:8"),
        Some(IpAddr::V6(0x0001_0002_0003_0004_0005_0006_0007_0008))
    );
    assert_eq!(v4("2001:DB8::8"), Some(IpAddr::V6(0x2001_0db8 << 96 | 8)));
    assert_eq!(v4("::ffff:1.2.3.4"), Some(IpAddr::V6(0xffff_0102_0304)));
    assert_eq!(v4("1:2:3:4:5:6:1.2.3.4"), Some(IpAddr::V6(
        0x0001_0002_0003_0004_0005_0006_0102_0304
    )));
    for wrong in [
        "", "1.2.3", "1.2.3.4.5", "256.0.0.1", "01.2.3.4", "1.2.3.4 ", "+1.2.3.4", ":", ":::",
        "1:2:3:4:5:6:7", "1:2:3:4:5:6:7:8:9", "1::2::3", "12345::", "g::", "::1.2.3", "1.2.3.4::",
        "[::1]", "::1%1", "1:2:3:4:5:6:7:1.2.3.4",
    ] {
        assert_eq!(v4(wrong), None, "{wrong}");
    }
}

#[test]
fn mapped_addresses_are_unmapped() {
    assert_eq!(normalize_ip(IpAddr::V6(0xffff_0102_0304)), IpAddr::V4(0x0102_0304));
    assert_eq!(normalize_ip(IpAddr::V6(0x0102_0304)), IpAddr::V6(0x0102_0304));
    assert_eq!(normalize_ip(IpAddr::V4(1)), IpAddr::V4(1));
    let mapped = SocketAddr::V6 { ip: 0xffff_0102_0304, port: 5, flowinfo: 1, scope_id: 2 };
    assert_eq!(to_ipv4_mapped(mapped), SocketAddr::V4 { ip: 0x0102_0304, port: 5 });
    let plain = SocketAddr::V6 { ip: 1, port: 5, flowinfo: 1, scope_id: 2 };
    assert_eq!(to_ipv4_mapped(plain), plain);
    assert_eq!(SocketAddr::new(IpAddr::V4(1), 2), SocketAddr::V4 { ip: 1, port: 2 });
    assert_eq!(plain.ip(), IpAddr::V6(1));
    assert!(IpAddr::V6(0).is_unspecified());
    assert!(!IpAddr::V4(1).is_unspecified());
}

#[test]
fn text_is_cut_and_joined() {
    assert_eq!(trim(" \t\u{a0}a b\u{2003}\n"), "a b");
    assert_eq!(trim("  "), "");
    assert_eq!(split_str("a,,b", ','), vec!["a", "", "b"]);
    assert_eq!(split_str("", ','), vec![""]);
    assert_eq!(join("ab", "cd"), "abcd");
    assert_eq!(decimal_string(0), "0");
    assert_eq!(decimal_string(65535), "65535");
}
