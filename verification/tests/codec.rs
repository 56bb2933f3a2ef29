use trojan_core::address::MixAddrType;
use trojan_core::error::ParserError;

fn v4(ip: [u8; 4], port: u16) -> MixAddrType {
    MixAddrType::V4(ip, port)
}

fn host(name: &[u8], port: u16) -> MixAddrType {
    MixAddrType::Hostname(name.to_vec(), port)
}

#[test]
fn encode_v4() {
    let a = v4([192, 168, 0, 1], 80);
    assert_eq!(a.encoded(), vec![1, 192, 168, 0, 1, 0, 80]);
}

#[test]
fn encode_hostname() {
    let a = host(b"example.com", 443);
    let mut expected = vec![3, 11];
    expected.extend_from_slice(b"example.com");
    expected.extend_from_slice(&[1, 187]);
    assert_eq!(a.encoded(), expected);
}

#[test]
fn encode_v6() {
    let a = MixAddrType::V6(vec![0x2001, 0xdb8, 0, 0, 0, 0, 0, 1], 8443);
    let enc = a.encoded();
    assert_eq!(enc[0], 4);
    assert_eq!(enc.len(), 19);
    assert_eq!(&enc[1..5], &[0x20, 0x01, 0x0d, 0xb8]);
    assert_eq!(&enc[15..17], &[0x00, 0x01]);
    assert_eq!(&enc[17..19], &[0x20, 0xfb]);
}

#[test]
fn round_trip_v4() {
    let a = v4([10, 0, 0, 7], 65535);
    let enc = a.encoded();
    match MixAddrType::decode(&enc) {
        Ok((MixAddrType::V4(ip, port), n)) => {
            assert_eq!(ip, [10, 0, 0, 7]);
            assert_eq!(port, 65535);
            assert_eq!(n, enc.len());
        }
        other => panic!("unexpected decode outcome: {:?}", other.is_ok()),
    }
}

#[test]
fn round_trip_v6() {
    let groups = vec![1, 2, 3, 4, 5, 6, 7, 8];
    let a = MixAddrType::V6(groups.clone(), 53);
    let enc = a.encoded();
    match MixAddrType::decode(&enc) {
        Ok((MixAddrType::V6(g, port), n)) => {
            assert_eq!(g, groups);
            assert_eq!(port, 53);
            assert_eq!(n, 19);
        }
        _ => panic!("expected V6"),
    }
}

#[test]
fn round_trip_hostname() {
    let a = host(b"example.com", 443);
    let enc = a.encoded();
    match MixAddrType::decode(&enc) {
        Ok((MixAddrType::Hostname(name, port), n)) => {
            assert_eq!(name, b"example.com".to_vec());
            assert_eq!(port, 443);
            assert_eq!(n, enc.len());
        }
        _ => panic!("expected hostname"),
    }
}

#[test]
fn round_trip_longest_hostname() {
    let name = vec![b'a'; 255];
    let a = host(&name, 1);
    let enc = a.encoded();
    assert_eq!(enc.len(), 259);
    match MixAddrType::decode(&enc) {
        Ok((MixAddrType::Hostname(n, port), consumed)) => {
            assert_eq!(n, name);
            assert_eq!(port, 1);
            assert_eq!(consumed, 259);
        }
        _ => panic!("expected hostname"),
    }
}

#[test]
fn decode_byte_at_a_time_reaches_one_shot() {
    let a = host(b"proxy.test", 8080);
    let enc = a.encoded();
    for n in 0..enc.len() {
        match MixAddrType::decode(&enc[..n]) {
            Err(ParserError::Incomplete(k)) => {
                assert!(k >= 1);
                assert!(n + k <= enc.len());
            }
            _ => panic!("prefix of length {} should be incomplete", n),
        }
    }
    assert!(MixAddrType::decode(&enc).is_ok());
}

#[test]
fn decode_empty_is_incomplete_by_one() {
    match MixAddrType::decode(&[]) {
        Err(ParserError::Incomplete(1)) => {}
        _ => panic!("expected Incomplete(1)"),
    }
}

#[test]
fn decode_short_v4_counts_missing() {
    match MixAddrType::decode(&[1, 127, 0]) {
        Err(ParserError::Incomplete(k)) => assert_eq!(k, 4),
        _ => panic!("expected Incomplete"),
    }
}

#[test]
fn decode_short_domain_counts_missing() {
    // atyp=domain, length 5: needs 5 + 4 = 9 bytes in all, 2 are here
    match MixAddrType::decode(&[3, 5]) {
        Err(ParserError::Incomplete(k)) => assert_eq!(k, 7),
        _ => panic!("expected Incomplete"),
    }
}

#[test]
fn decode_unknown_atyp_is_invalid() {
    match MixAddrType::decode(&[9, 0, 0]) {
        Err(ParserError::Invalid) => {}
        _ => panic!("expected Invalid"),
    }
}

#[test]
fn decode_empty_domain_is_invalid() {
    match MixAddrType::decode(&[3, 0, 0, 80]) {
        Err(ParserError::Invalid) => {}
        _ => panic!("expected Invalid"),
    }
}

#[test]
fn decode_whitespace_domain_is_invalid() {
    match MixAddrType::decode(&[3, 3, b'a', b' ', b'b', 0, 80]) {
        Err(ParserError::Invalid) => {}
        _ => panic!("expected Invalid"),
    }
}

#[test]
fn from_http_header_with_port() {
    match MixAddrType::from_http_header(true, b"example.com:8443") {
        Ok(MixAddrType::Hostname(name, port)) => {
            assert_eq!(name, b"example.com".to_vec());
            assert_eq!(port, 8443);
        }
        _ => panic!("expected hostname"),
    }
}

#[test]
fn from_http_header_default_ports() {
    match MixAddrType::from_http_header(true, b"example.com") {
        Ok(a) => assert_eq!(a.port(), 443),
        _ => panic!("expected hostname"),
    }
    match MixAddrType::from_http_header(false, b"example.com") {
        Ok(a) => assert_eq!(a.port(), 80),
        _ => panic!("expected hostname"),
    }
}

#[test]
fn from_http_header_bad_port_is_invalid() {
    assert!(MixAddrType::from_http_header(false, b"example.com:99999").is_err());
    assert!(MixAddrType::from_http_header(false, b"example.com:").is_err());
    assert!(MixAddrType::from_http_header(false, b"example.com:8a").is_err());
    assert!(MixAddrType::from_http_header(false, b"").is_err());
}
