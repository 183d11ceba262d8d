use rproxy::addr_text::{parse_ipv4, parse_ipv6, parse_port};
use rproxy::proto::ProxyAddr;
use rproxy::resolve::Resolution;

fn chars(s: &str) -> Vec<char> {
    s.chars().collect()
}

#[test]
fn ports() {
    for (text, port) in [
        ("0", Some(0)),
        ("80", Some(80)),
        ("+80", Some(80)),
        ("00080", Some(80)),
        ("65535", Some(65535)),
        ("65536", None),
        ("99999999999999999999", None),
        ("", None),
        ("+", None),
        ("++1", None),
        ("-1", None),
        ("8 0", None),
        ("0x50", None),
    ] {
        assert_eq!(parse_port(&chars(text)), port, "{}", text);
        assert_eq!(text.parse::<u16>().ok(), port, "{}", text);
    }
}

#[test]
fn ipv4_addresses() {
    for (text, octets) in [
        ("1.2.3.4", Some([1, 2, 3, 4])),
        ("0.0.0.0", Some([0, 0, 0, 0])),
        ("255.255.255.255", Some([255, 255, 255, 255])),
        ("256.0.0.1", None),
        ("01.2.3.4", None),
        ("1.2.3", None),
        ("1.2.3.4.5", None),
        ("1..3.4", None),
        ("1.2.3.4 ", None),
        ("a.b.c.d", None),
        ("", None),
    ] {
        assert_eq!(parse_ipv4(&chars(text)), octets, "{}", text);
    }
}

fn groups(g: [u16; 8]) -> [u8; 16] {
    let mut o = [0u8; 16];
    for i in 0..8 {
        o[2 * i] = (g[i] / 256) as u8;
        o[2 * i + 1] = (g[i] % 256) as u8;
    }
    o
}

#[test]
fn ipv6_addresses() {
    for (text, g) in [
        ("::", Some([0; 8])),
        ("::1", Some([0, 0, 0, 0, 0, 0, 0, 1])),
        ("1::", Some([1, 0, 0, 0, 0, 0, 0, 0])),
        ("2001:db8::8:800:200C:417A", Some([0x2001, 0xdb8, 0, 0, 8, 0x800, 0x200c, 0x417a])),
        ("1:2:3:4:5:6:7:8", Some([1, 2, 3, 4, 5, 6, 7, 8])),
        ("1:2:3:4:5:6:7::", Some([1, 2, 3, 4, 5, 6, 7, 0])),
        ("::2:3:4:5:6:7:8", Some([0, 2, 3, 4, 5, 6, 7, 8])),
        ("::ffff:192.0.2.1", Some([0, 0, 0, 0, 0, 0xffff, 0xc000, 0x0201])),
        ("1:2:3:4:5:6:7.8.9.10", Some([1, 2, 3, 4, 5, 6, 0x0708, 0x090a])),
        ("0001::", Some([1, 0, 0, 0, 0, 0, 0, 0])),
        ("00001::", None),
        ("1:2:3:4:5:6:7", None),
        ("1:2:3:4:5:6:7:8:9", None),
        ("1:2:3:4::5:6:7:8", None),
        ("1::2::3", None),
        (":::", None),
        (":1::", None),
        ("1.2.3.4::", None),
        ("::1.2.3.4:5", None),
        ("::g", None),
        ("", None),
    ] {
        assert_eq!(parse_ipv6(&chars(text)), g.map(groups), "{}", text);
    }
}

#[test]
fn targets_as_text() {
    for (addr, text) in [
        (ProxyAddr::Ipv4([192, 0, 2, 10], 443), "192.0.2.10:443"),
        (ProxyAddr::Ipv6(groups([0; 8]), 0), "[::]:0"),
        (ProxyAddr::Ipv6(groups([0, 0, 0, 0, 0, 0, 0, 1]), 80), "[::1]:80"),
        (ProxyAddr::Ipv6(groups([0x2001, 0xdb8, 0, 0, 0, 0, 0, 0x1f]), 1), "[2001:db8::1f]:1"),
        (ProxyAddr::Ipv6(groups([1, 0, 0, 2, 0, 0, 0, 3]), 1), "[1:0:0:2::3]:1"),
        (ProxyAddr::Ipv6(groups([1, 0, 0, 2, 0, 0, 3, 4]), 1), "[1::2:0:0:3:4]:1"),
        (ProxyAddr::Ipv6(groups([1, 0, 2, 3, 4, 5, 6, 7]), 1), "[1:0:2:3:4:5:6:7]:1"),
        (ProxyAddr::Ipv6(groups([1, 2, 3, 4, 5, 6, 0, 0]), 1), "[1:2:3:4:5:6::]:1"),
        (
            ProxyAddr::Ipv6(groups([0, 0, 0, 0, 0, 0xffff, 0xc000, 0x0201]), 65535),
            "[::ffff:192.0.2.1]:65535",
        ),
        (ProxyAddr::Domain("example.com".to_string(), 8443), "example.com:8443"),
    ] {
        assert_eq!(addr.display(), text);
    }
}

#[test]
fn addresses_are_read_back() {
    for a in [[0, 0, 0, 0], [10, 200, 3, 99], [255, 255, 255, 255]] {
        let text = ProxyAddr::Ipv4(a, 7).display();
        assert_eq!(parse_ipv4(&chars(&text[..text.len() - 2])), Some(a));
    }
    for g in [
        [0; 8],
        [0xffff; 8],
        [0, 0, 0, 0, 0, 0xffff, 1, 2],
        [0, 0, 1, 0, 0, 0, 2, 0],
        [0x10, 0x200, 0x3000, 4, 0xabcd, 6, 7, 0],
        [0, 1, 2, 3, 4, 5, 6, 7],
    ] {
        let text = ProxyAddr::Ipv6(groups(g), 7).display();
        assert_eq!(parse_ipv6(&chars(&text[1..text.len() - 3])), Some(groups(g)), "{}", text);
    }
}

#[test]
fn socket_addresses() {
    assert!(matches!(
        ProxyAddr::Ipv4([1, 2, 3, 4], 5).to_socket_addrs(),
        Resolution::Ipv4([1, 2, 3, 4], 5)
    ));
    assert!(matches!(
        ProxyAddr::Ipv6([6; 16], 7).to_socket_addrs(),
        Resolution::Ipv6(o, 7) if o == [6; 16]
    ));
    match ProxyAddr::Domain("example.com".to_string(), 443).to_socket_addrs() {
        Resolution::Lookup(query) => assert_eq!(query, "example.com:443"),
        other => panic!("{:?}", other),
    }
}
