use trojan_core::address::MixAddrType;
use trojan_core::error::ParserError;
use trojan_core::http::connect_established_reply;
use trojan_core::http::http_pre_read;
use trojan_core::http::HttpRequest;
use trojan_core::socks5::greeting_reply_no_acceptable;
use trojan_core::socks5::greeting_reply_ok;
use trojan_core::socks5::parse_greeting;
use trojan_core::socks5::parse_request;
use trojan_core::socks5::request_reply;
use trojan_core::socks5::GreetingResult;
use trojan_core::socks5::RequestResult;

#[test]
fn socks5_connect_ipv4_scenario() {
    // greeting: 05 01 00 -> reply 05 00
    match parse_greeting(&[5, 1, 0]) {
        GreetingResult::Accepted(n) => assert_eq!(n, 3),
        _ => panic!("greeting should be accepted"),
    }
    assert_eq!(greeting_reply_ok(), vec![5, 0]);
    // request: 05 01 00 01 C0 A8 00 01 00 50 -> reply 05 00 00 01 0.0.0.0:0
    match parse_request(&[5, 1, 0, 1, 0xC0, 0xA8, 0, 1, 0, 0x50]) {
        RequestResult::Accepted(MixAddrType::V4(ip, port), n) => {
            assert_eq!(ip, [0xC0, 0xA8, 0, 1]);
            assert_eq!(port, 80);
            assert_eq!(n, 10);
        }
        _ => panic!("request should be accepted"),
    }
    assert_eq!(request_reply(0), vec![5, 0, 0, 1, 0, 0, 0, 0, 0, 0]);
}

#[test]
fn socks5_invalid_version_closes_silently() {
    // 04 01 00: wrong version, no reply bytes, just Invalid
    match parse_greeting(&[4, 1, 0]) {
        GreetingResult::Invalid => {}
        _ => panic!("version 4 must be invalid"),
    }
}

#[test]
fn socks5_no_auth_not_offered() {
    match parse_greeting(&[5, 2, 1, 2]) {
        GreetingResult::NoAcceptable(n) => assert_eq!(n, 4),
        _ => panic!("expected NoAcceptable"),
    }
    assert_eq!(greeting_reply_no_acceptable(), vec![5, 0xFF]);
}

#[test]
fn socks5_greeting_byte_at_a_time() {
    let full = [5u8, 3, 1, 0, 2];
    for n in 0..full.len() {
        match parse_greeting(&full[..n]) {
            GreetingResult::NeedMore(k) => {
                assert!(k >= 1);
                assert!(n + k <= full.len());
            }
            _ => panic!("prefix {} should need more", n),
        }
    }
    match parse_greeting(&full) {
        GreetingResult::Accepted(5) => {}
        _ => panic!("full greeting should be accepted"),
    }
}

#[test]
fn socks5_unsupported_command_gets_code_7() {
    // CMD = 2 (BIND) is answered with reply code 7 and the connection closed
    match parse_request(&[5, 2, 0, 1, 1, 2, 3, 4, 0, 80]) {
        RequestResult::Unsupported => {}
        _ => panic!("expected Unsupported"),
    }
    assert_eq!(request_reply(7), vec![5, 7, 0, 1, 0, 0, 0, 0, 0, 0]);
}

#[test]
fn socks5_request_byte_at_a_time() {
    let mut full = vec![5u8, 1, 0, 3, 9];
    full.extend_from_slice(b"localhost");
    full.extend_from_slice(&[0x1F, 0x90]);
    for n in 0..full.len() {
        match parse_request(&full[..n]) {
            RequestResult::NeedMore(k) => {
                assert!(k >= 1);
                assert!(n + k <= full.len());
            }
            _ => panic!("prefix {} should need more", n),
        }
    }
    match parse_request(&full) {
        RequestResult::Accepted(MixAddrType::Hostname(name, port), n) => {
            assert_eq!(name, b"localhost".to_vec());
            assert_eq!(port, 8080);
            assert_eq!(n, full.len());
        }
        _ => panic!("full request should be accepted"),
    }
}

#[test]
fn http_connect_scenario() {
    let req = b"CONNECT example.com:443 HTTP/1.1\r\nHost: example.com:443\r\n\r\n";
    let mut p = HttpRequest::new();
    assert!(p.parse(req).is_ok());
    assert!(p.is_https);
    assert_eq!(p.cursor, req.len());
    match &p.addr {
        MixAddrType::Hostname(name, port) => {
            assert_eq!(name, &b"example.com".to_vec());
            assert_eq!(*port, 443);
        }
        _ => panic!("expected hostname"),
    }
    // reply is exactly HTTP/1.1 200 Connection established CRLF CRLF
    assert_eq!(
        connect_established_reply(),
        b"HTTP/1.1 200 Connection established\r\n\r\n".to_vec()
    );
    // handshake address section: 01 03 0B example.com 01 BB
    let mut frame = vec![1u8, 3, 11];
    frame.extend_from_slice(b"example.com");
    frame.extend_from_slice(&[1, 0xBB]);
    let mut enc = vec![1u8];
    enc.extend_from_slice(&p.addr.encoded());
    assert_eq!(enc, frame);
    // CONNECT passes no pre-read downstream
    assert_eq!(http_pre_read(p.is_https, req), Vec::<u8>::new());
}

#[test]
fn http_plain_request_scenario() {
    let req = b"GET http://example.com/ HTTP/1.1\r\nHost: example.com\r\n\r\n";
    let mut p = HttpRequest::new();
    assert!(p.parse(req).is_ok());
    assert!(!p.is_https);
    match &p.addr {
        MixAddrType::Hostname(name, port) => {
            assert_eq!(name, &b"example.com".to_vec());
            assert_eq!(*port, 80);
        }
        _ => panic!("expected hostname"),
    }
    // the whole request is emitted as pre-read, verbatim
    assert_eq!(http_pre_read(p.is_https, req), req.to_vec());
}

#[test]
fn http_host_header_fallback() {
    let req = b"GET / HTTP/1.1\r\nAccept: */*\r\nhOsT: example.org:8080  \r\n\r\n";
    let mut p = HttpRequest::new();
    assert!(p.parse(req).is_ok());
    match &p.addr {
        MixAddrType::Hostname(name, port) => {
            assert_eq!(name, &b"example.org".to_vec());
            assert_eq!(*port, 8080);
        }
        _ => panic!("expected hostname"),
    }
}

#[test]
fn http_parse_byte_at_a_time() {
    let req = b"CONNECT example.com:443 HTTP/1.1\r\nHost: example.com:443\r\n\r\n";
    let mut p = HttpRequest::new();
    for n in 0..req.len() {
        match p.parse(&req[..n]) {
            Err(ParserError::Incomplete(_)) => {
                // nothing externally visible may change before completion
                assert!(!p.is_https);
                assert_eq!(p.cursor, 0);
            }
            _ => panic!("prefix {} should be incomplete", n),
        }
    }
    assert!(p.parse(req).is_ok());
    assert!(p.is_https);
}

#[test]
fn http_no_host_anywhere_is_invalid() {
    let req = b"GET / HTTP/1.1\r\nAccept: */*\r\n\r\n";
    let mut p = HttpRequest::new();
    match p.parse(req) {
        Err(ParserError::Invalid) => {}
        _ => panic!("expected Invalid"),
    }
}
