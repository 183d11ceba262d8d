use rproxy::proto::{
    read_proxy_request, read_proxy_response, write_proxy_request, write_proxy_response, Progress,
    ProtoError, ProxyAddr, ATYP_DOMAIN, ATYP_IPV4, ATYP_IPV6, PROTO_VERSION, STATUS_ERR, STATUS_OK,
};

fn header(addr: &ProxyAddr) -> Vec<u8> {
    let mut w = Vec::new();
    assert!(write_proxy_request(&mut w, addr).is_ok());
    w
}

fn response(result: Result<(), String>) -> Vec<u8> {
    let mut w = Vec::new();
    write_proxy_response(&mut w, result);
    w
}

/// Reads a request the way the agent does: field by field, from a stream.
fn read_from_stream(stream: &[u8]) -> (ProxyAddr, usize) {
    let mut have = 0;
    loop {
        match read_proxy_request(&stream[..have]) {
            Progress::Need(n) => {
                assert!(n > 0);
                have += n;
            }
            Progress::Done(addr, n) => {
                assert_eq!(n, have);
                return (addr, n);
            }
            Progress::Fail(e) => panic!("{:?}", e),
        }
    }
}

#[test]
fn constants() {
    assert_eq!(PROTO_VERSION, 1);
    assert_eq!((ATYP_IPV4, ATYP_DOMAIN, ATYP_IPV6), (1, 3, 4));
    assert_eq!((STATUS_OK, STATUS_ERR), (0, 1));
}

#[test]
fn ipv4_header() {
    let addr = ProxyAddr::Ipv4([192, 0, 2, 1], 443);
    assert_eq!(addr.port(), 443);
    assert_eq!(header(&addr), [1, 1, 1, 187, 192, 0, 2, 1]);
    let addr = ProxyAddr::Ipv4([10, 0, 0, 1], 443);
    assert_eq!(header(&addr), [0x01, 0x01, 0x01, 0xBB, 10, 0, 0, 1]);
}

#[test]
fn ipv6_header() {
    let mut octets = [0u8; 16];
    octets[0] = 0x20;
    octets[1] = 0x01;
    octets[15] = 7;
    let addr = ProxyAddr::Ipv6(octets, 8080);
    assert_eq!(addr.port(), 8080);
    assert_eq!(
        header(&addr),
        [1, 4, 0x1f, 0x90, 0x20, 0x01, 0, 0, 0, 0, 0, 0, 0, 0, 0, 0, 0, 0, 0, 7]
    );
}

#[test]
fn domain_header() {
    let addr = ProxyAddr::Domain("ex.org".to_string(), 80);
    assert_eq!(addr.port(), 80);
    assert_eq!(header(&addr), [1, 3, 0, 80, 6, b'e', b'x', b'.', b'o', b'r', b'g']);
}

#[test]
fn header_is_appended() {
    let mut w = vec![9, 9];
    assert!(write_proxy_request(&mut w, &ProxyAddr::Ipv4([1, 2, 3, 4], 5)).is_ok());
    assert_eq!(w, [9, 9, 1, 1, 0, 5, 1, 2, 3, 4]);
}

#[test]
fn longest_domain() {
    let host = "a".repeat(255);
    let h = header(&ProxyAddr::Domain(host.clone(), 1));
    assert_eq!(h.len(), 5 + 255);
    assert_eq!(h[4], 255);
    match read_from_stream(&h) {
        (ProxyAddr::Domain(d, 1), 260) => assert_eq!(d, host),
        other => panic!("{:?}", other),
    }
}

#[test]
fn domain_too_long() {
    let host = "a".repeat(256);
    let mut w = vec![7];
    match write_proxy_request(&mut w, &ProxyAddr::Domain(host.clone(), 1)) {
        Err(ProtoError::DomainTooLong(h)) => assert_eq!(h, host),
        other => panic!("{:?}", other),
    }
    assert_eq!(w, [7]);
}

#[test]
fn domain_length_counts_bytes() {
    let host = "ü".repeat(128);
    let mut w = Vec::new();
    assert!(write_proxy_request(&mut w, &ProxyAddr::Domain(host, 1)).is_err());
    let h = header(&ProxyAddr::Domain("ü".repeat(127), 1));
    assert_eq!(h[4], 254);
}

#[test]
fn request_round_trip() {
    for addr in [
        ProxyAddr::Ipv4([255, 1, 0, 254], 65535),
        ProxyAddr::Ipv6([3; 16], 0),
        ProxyAddr::Domain("münchen.example".to_string(), 258),
        ProxyAddr::Domain(String::new(), 9),
    ] {
        let mut stream = header(&addr);
        let len = stream.len();
        stream.extend_from_slice(b"GET / HTTP/1.1");
        let (back, used) = read_from_stream(&stream);
        assert_eq!(format!("{:?}", back), format!("{:?}", addr));
        assert_eq!(used, len);
    }
}

#[test]
fn reader_asks_for_the_next_field() {
    let h = header(&ProxyAddr::Ipv4([1, 2, 3, 4], 5));
    let needs: Vec<usize> = (0..h.len())
        .map(|k| match read_proxy_request(&h[..k]) {
            Progress::Need(n) => n,
            other => panic!("{:?}", other),
        })
        .collect();
    assert_eq!(needs, [1, 1, 2, 1, 4, 3, 2, 1]);
    let h = header(&ProxyAddr::Domain("ab".to_string(), 5));
    let needs: Vec<usize> = (0..h.len())
        .map(|k| match read_proxy_request(&h[..k]) {
            Progress::Need(n) => n,
            other => panic!("{:?}", other),
        })
        .collect();
    assert_eq!(needs, [1, 1, 2, 1, 1, 2, 1]);
}

#[test]
fn decision_is_stable() {
    assert!(matches!(
        read_proxy_request(&[2]),
        Progress::Fail(ProtoError::UnsupportedVersion(2))
    ));
    assert!(matches!(
        read_proxy_request(&[2, 1, 1, 2, 3, 4, 5, 6]),
        Progress::Fail(ProtoError::UnsupportedVersion(2))
    ));
}

#[test]
fn unknown_address_type() {
    assert!(matches!(
        read_proxy_request(&[1, 2]),
        Progress::Fail(ProtoError::UnknownAddrType(2))
    ));
}

#[test]
fn invalid_domain() {
    match read_proxy_request(&[1, 3, 0, 80, 1, 0xff]) {
        Progress::Fail(ProtoError::InvalidDomain(e)) => {
            assert_eq!(e, "invalid utf-8 sequence of 1 bytes from index 0");
        }
        other => panic!("{:?}", other),
    }
}

#[test]
fn success_response() {
    assert_eq!(response(Ok(())), [0]);
    assert!(matches!(read_proxy_response(&[]), Progress::Need(1)));
    assert!(matches!(read_proxy_response(&[0]), Progress::Done((), 1)));
    assert!(matches!(read_proxy_response(&[0, 42]), Progress::Done((), 1)));
}

#[test]
fn error_response() {
    let bytes = response(Err("refused".to_string()));
    assert_eq!(bytes, [1, 7, b'r', b'e', b'f', b'u', b's', b'e', b'd']);
    match read_proxy_response(&bytes) {
        Progress::Fail(ProtoError::AgentError(e)) => assert_eq!(e, "refused"),
        other => panic!("{:?}", other),
    }
}

#[test]
fn response_reader_asks_for_the_next_field() {
    assert!(matches!(read_proxy_response(&[1]), Progress::Need(1)));
    assert!(matches!(read_proxy_response(&[1, 3]), Progress::Need(3)));
    assert!(matches!(read_proxy_response(&[1, 3, b'a']), Progress::Need(2)));
    assert!(matches!(
        read_proxy_response(&[1, 0]),
        Progress::Fail(ProtoError::AgentError(e)) if e.is_empty()
    ));
}

#[test]
fn long_message_is_cut() {
    let bytes = response(Err("x".repeat(300)));
    assert_eq!(bytes.len(), 2 + 255);
    assert_eq!(bytes[1], 255);
    match read_proxy_response(&bytes) {
        Progress::Fail(ProtoError::AgentError(e)) => assert_eq!(e, "x".repeat(255)),
        other => panic!("{:?}", other),
    }
}

#[test]
fn message_cut_within_a_character() {
    let bytes = response(Err(format!("{}ü", "x".repeat(254))));
    match read_proxy_response(&bytes) {
        Progress::Fail(ProtoError::AgentError(e)) => {
            assert_eq!(e, format!("{}\u{fffd}", "x".repeat(254)));
        }
        other => panic!("{:?}", other),
    }
}

#[test]
fn message_that_is_not_text() {
    match read_proxy_response(&[1, 3, b'a', 0xff, b'b']) {
        Progress::Fail(ProtoError::AgentError(e)) => assert_eq!(e, "a\u{fffd}b"),
        other => panic!("{:?}", other),
    }
}

#[test]
fn unknown_status() {
    assert!(matches!(
        read_proxy_response(&[2]),
        Progress::Fail(ProtoError::UnknownStatus(2))
    ));
}
