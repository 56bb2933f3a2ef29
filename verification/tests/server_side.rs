use sha2::Digest;
use trojan_core::address::MixAddrType;
use trojan_core::auth::authenticate;
use trojan_core::auth::AuthDecision;
use trojan_core::handshake::build_handshake;
use trojan_core::password_to_hash;
use trojan_core::password_to_hash_bytes;

fn hex_of(bytes: &[u8]) -> String {
    let mut s = String::new();
    for b in bytes {
        s.push_str(&format!("{:02x}", b));
    }
    s
}

#[test]
fn password_hash_known_vectors() {
    // standard SHA-224 test vectors, hex encoded
    assert_eq!(
        password_to_hash(""),
        "d14a028c2a3a2bc9476102bb288234c415a2b01f828ea62ac5b3e42f"
    );
    assert_eq!(
        password_to_hash("abc"),
        "23097d223405d8228642a477bda255b32aadbce4bda0b3f7e36c9da7"
    );
}

#[test]
fn password_hash_matches_library_digest() {
    let digest = sha2::Sha224::digest(b"pw").to_vec();
    assert_eq!(password_to_hash_bytes("pw"), digest);
    assert_eq!(password_to_hash("pw"), hex_of(&digest));
}

#[test]
fn trojan_handshake_for_socks5_scenario() {
    // expected: HEX(SHA224("pw")) 0D 0A 01 01 C0 A8 00 01 00 50 0D 0A
    let hash = password_to_hash("pw");
    let addr = MixAddrType::V4([0xC0, 0xA8, 0, 1], 80);
    let frame = build_handshake(&hash, &addr, &[]);
    let mut expected = hash.clone().into_bytes();
    expected.extend_from_slice(&[0x0D, 0x0A, 0x01, 0x01, 0xC0, 0xA8, 0x00, 0x01, 0x00, 0x50]);
    expected.extend_from_slice(&[0x0D, 0x0A]);
    assert_eq!(frame, expected);
}

#[test]
fn handshake_with_pre_read_is_one_buffer() {
    let hash = password_to_hash("pw");
    let addr = MixAddrType::Hostname(b"example.com".to_vec(), 80);
    let pre = b"GET / HTTP/1.1\r\nHost: example.com\r\n\r\n";
    let frame = build_handshake(&hash, &addr, pre);
    assert!(frame.ends_with(pre));
    assert_eq!(frame.len(), 56 + 2 + 1 + (1 + 1 + 11 + 2) + 2 + pre.len());
}

#[test]
fn server_accepts_client_handshake() {
    let hash = password_to_hash("pw");
    let addr = MixAddrType::Hostname(b"example.com".to_vec(), 443);
    let pre = b"payload after the handshake";
    let frame = build_handshake(&hash, &addr, pre);
    let creds = vec![hash.into_bytes()];
    match authenticate(&frame, &creds) {
        AuthDecision::Direct(target, off) => {
            match target {
                MixAddrType::Hostname(name, port) => {
                    assert_eq!(name, b"example.com".to_vec());
                    assert_eq!(port, 443);
                }
                _ => panic!("expected hostname target"),
            }
            assert_eq!(&frame[off..], pre);
        }
        _ => panic!("a valid handshake must authenticate"),
    }
}

#[test]
fn bad_password_falls_back() {
    // 58 arbitrary bytes, then random-ish data: never authenticated,
    // never answered; the decision is the silent fallback splice.
    let mut bytes = vec![0x61u8; 58];
    bytes.extend_from_slice(&[7, 200, 13, 10, 0, 0, 99]);
    let creds = vec![password_to_hash("pw").into_bytes()];
    match authenticate(&bytes, &creds) {
        AuthDecision::Fallback => {}
        _ => panic!("mismatched credential must fall back"),
    }
}

#[test]
fn wrong_crlf_falls_back() {
    let hash = password_to_hash("pw");
    let mut bytes = hash.clone().into_bytes();
    bytes.extend_from_slice(&[0, 0, 1]);
    let creds = vec![hash.into_bytes()];
    match authenticate(&bytes, &creds) {
        AuthDecision::Fallback => {}
        _ => panic!("missing CRLF must fall back"),
    }
}

#[test]
fn wrong_command_falls_back() {
    let hash = password_to_hash("pw");
    let mut bytes = hash.clone().into_bytes();
    bytes.extend_from_slice(&[13, 10, 3, 1, 127, 0, 0, 1, 0, 80, 13, 10]);
    let creds = vec![hash.into_bytes()];
    match authenticate(&bytes, &creds) {
        AuthDecision::Fallback => {}
        _ => panic!("a command other than CONNECT must fall back"),
    }
}

#[test]
fn short_handshake_asks_for_more() {
    let creds = vec![password_to_hash("pw").into_bytes()];
    match authenticate(&[0x61; 10], &creds) {
        AuthDecision::NeedMore(k) => assert_eq!(k, 48),
        _ => panic!("short input must ask for more"),
    }
    let hash = password_to_hash("pw");
    let mut bytes = hash.clone().into_bytes();
    bytes.extend_from_slice(&[13, 10, 1, 3, 11]);
    let creds = vec![hash.into_bytes()];
    match authenticate(&bytes, &creds) {
        AuthDecision::NeedMore(k) => assert_eq!(k, 13),
        _ => panic!("truncated address must ask for more"),
    }
}

#[test]
fn any_of_several_credentials_matches() {
    let h1 = password_to_hash("first");
    let h2 = password_to_hash("second");
    let addr = MixAddrType::V4([127, 0, 0, 1], 9);
    let frame = build_handshake(&h2, &addr, &[]);
    let creds = vec![h1.into_bytes(), h2.into_bytes()];
    match authenticate(&frame, &creds) {
        AuthDecision::Direct(_, off) => assert_eq!(off, frame.len()),
        _ => panic!("second credential must match"),
    }
}
