use trojan_core::into_local_addr;
use trojan_core::into_u16;
use trojan_core::parse_connection_mode;
use trojan_core::parse_log_level;
use trojan_core::password_to_hash;
use trojan_core::Config;
use trojan_core::ConnectionMode;
use trojan_core::LogLevel;
use trojan_core::Opt;
use trojan_core::SocketAddress;
use trojan_core::TlsConfig;
use trojan_core::WebsocketConfig;

fn base_opt() -> Opt {
    Opt {
        local_http_addr: SocketAddress { ip: "127.0.0.1".to_string(), port: 8888 },
        local_ip: String::new(),
        local_port: 0,
        local_socks5_addr: SocketAddress { ip: "127.0.0.1".to_string(), port: 8889 },
        log_level: LogLevel::Info,
        ca: None,
        server_hostname: "localhost".to_string(),
        server_port: 443,
        server_ip: String::new(),
        server: false,
        key: None,
        cert: None,
        password: None,
        fallback_port: 0,
        connection_mode: ConnectionMode::TcpTLS,
        config: None,
        password_list: Vec::new(),
        websocket: None,
        zero_copy: false,
        fast_open: false,
        tcp_keepalive: false,
        alpn: Vec::new(),
        remote_socket_addr: None,
    }
}

#[test]
fn parse_helpers() {
    assert_eq!(parse_log_level("DEBUG"), LogLevel::Debug);
    assert_eq!(parse_log_level("trace"), LogLevel::Trace);
    assert_eq!(parse_log_level("whatever"), LogLevel::Info);
    assert_eq!(parse_connection_mode("t"), ConnectionMode::TcpTLS);
    assert_eq!(parse_connection_mode("TCP-TLS"), ConnectionMode::TcpTLS);
    assert_eq!(parse_connection_mode("quic"), ConnectionMode::Quic);
    assert_eq!(parse_connection_mode("q"), ConnectionMode::Quic);
    assert_eq!(parse_connection_mode("l"), ConnectionMode::LiteTLS);
    assert_eq!(parse_connection_mode("???"), ConnectionMode::TcpTLS);
    assert_eq!(into_u16("8080"), 8080);
    assert_eq!(into_u16(""), 0);
    let a = into_local_addr("4431");
    assert_eq!(a.ip, "127.0.0.1");
    assert_eq!(a.port, 4431);
}

#[test]
fn merge_listen_ip_and_port() {
    let mut opt = base_opt();
    let mut c = Config::default();
    c.listen = Some("0.0.0.0:4431".to_string());
    opt.merge_config(c);
    assert_eq!(opt.server_ip, "0.0.0.0");
    assert_eq!(opt.server_port, 4431);
}

#[test]
fn merge_listen_bracketed_ipv6() {
    let mut opt = base_opt();
    let mut c = Config::default();
    c.listen = Some("[::1]:443".to_string());
    opt.merge_config(c);
    assert_eq!(opt.server_ip, "::1");
    assert_eq!(opt.server_port, 443);
}

#[test]
fn merge_listen_bare_port() {
    let mut opt = base_opt();
    let mut c = Config::default();
    c.listen = Some("8443".to_string());
    opt.merge_config(c);
    assert_eq!(opt.server_ip, "");
    assert_eq!(opt.server_port, 8443);
}

#[test]
fn merge_listen_unusable_values_change_nothing() {
    // an unbracketed IPv6 ip:port text is ambiguous and is not split
    let mut opt = base_opt();
    let mut c = Config::default();
    c.listen = Some("::1:443".to_string());
    opt.merge_config(c);
    assert_eq!(opt.server_ip, "");
    assert_eq!(opt.server_port, 443);
    // whitespace in the ip half is rejected, and the text is no bare port
    let mut c2 = Config::default();
    c2.listen = Some("bad host:80".to_string());
    opt.merge_config(c2);
    assert_eq!(opt.server_ip, "");
    assert_eq!(opt.server_port, 443);
}

#[test]
fn merge_remote_overrides_listen() {
    let mut opt = base_opt();
    let mut c = Config::default();
    c.listen = Some("0.0.0.0:4431".to_string());
    c.remote_addr = Some("proxy.example".to_string());
    c.remote_port = Some(9443);
    opt.merge_config(c);
    assert_eq!(opt.server_ip, "proxy.example");
    assert_eq!(opt.server_port, 9443);
}

#[test]
fn merge_password_hashes_first_entry() {
    let mut opt = base_opt();
    let mut c = Config::default();
    c.password = vec!["pw".to_string(), "other".to_string()];
    opt.merge_config(c);
    assert_eq!(opt.password_list, vec!["pw".to_string(), "other".to_string()]);
    assert_eq!(opt.password, Some(password_to_hash("pw")));
}

#[test]
fn merge_password_keeps_existing_main() {
    let mut opt = base_opt();
    opt.password = Some(password_to_hash("already"));
    let mut c = Config::default();
    c.password = vec!["pw".to_string()];
    opt.merge_config(c);
    assert_eq!(opt.password, Some(password_to_hash("already")));
    assert_eq!(opt.password_list, vec!["pw".to_string()]);
}

#[test]
fn merge_websocket_only_when_enabled() {
    let mut opt = base_opt();
    let mut c = Config::default();
    c.websocket = Some(WebsocketConfig {
        enabled: false,
        path: "/ws".to_string(),
        hostname: String::new(),
    });
    opt.merge_config(c);
    assert!(opt.websocket.is_none());
    let mut c2 = Config::default();
    c2.websocket = Some(WebsocketConfig {
        enabled: true,
        path: "/ws".to_string(),
        hostname: "h".to_string(),
    });
    opt.merge_config(c2);
    let ws = opt.websocket.expect("websocket should be kept");
    assert_eq!(ws.path, "/ws");
    assert_eq!(ws.hostname, "h");
}

#[test]
fn merge_run_type_protocol_and_flags() {
    let mut opt = base_opt();
    let mut c = Config::default();
    c.run_type = Some("server".to_string());
    c.protocol = Some("quic".to_string());
    c.log_level = Some("warn".to_string());
    c.zero_copy = Some(true);
    c.fast_open = Some(true);
    c.tcp_keepalive = Some(true);
    opt.merge_config(c);
    assert!(opt.server);
    assert_eq!(opt.connection_mode, ConnectionMode::Quic);
    assert_eq!(opt.log_level, LogLevel::Warn);
    assert!(opt.zero_copy && opt.fast_open && opt.tcp_keepalive);
    let mut c2 = Config::default();
    c2.run_type = Some("client".to_string());
    opt.merge_config(c2);
    assert!(!opt.server);
}

#[test]
fn merge_local_port_rebinds_proxies() {
    let mut opt = base_opt();
    let mut c = Config::default();
    c.local_addr = Some("10.0.0.2".to_string());
    c.local_port = Some(1080);
    opt.merge_config(c);
    assert_eq!(opt.local_ip, "10.0.0.2");
    assert_eq!(opt.local_port, 1080);
    assert_eq!(opt.local_http_addr.ip, "10.0.0.2");
    assert_eq!(opt.local_http_addr.port, 1080);
    assert_eq!(opt.local_socks5_addr.ip, "10.0.0.2");
    assert_eq!(opt.local_socks5_addr.port, 1081);
}

#[test]
fn merge_local_port_defaults_to_loopback() {
    let mut opt = base_opt();
    let mut c = Config::default();
    c.local_port = Some(3128);
    opt.merge_config(c);
    assert_eq!(opt.local_http_addr.ip, "127.0.0.1");
    assert_eq!(opt.local_socks5_addr.port, 3129);
}

#[test]
fn merge_tls_aliases() {
    let mut opt = base_opt();
    let mut t = TlsConfig {
        enabled: None,
        certificate: None,
        certificate_key: None,
        key: Some("k.pem".to_string()),
        cert: Some("c.pem".to_string()),
        alpn: Some(vec!["h2".to_string(), "http/1.1".to_string()]),
        sni: Some("example.net".to_string()),
        verify: None,
    };
    let mut c = Config::default();
    c.ssl = Some(t.clone());
    opt.merge_config(c);
    assert_eq!(opt.cert, Some("c.pem".to_string()));
    assert_eq!(opt.key, Some("k.pem".to_string()));
    assert_eq!(opt.server_hostname, "example.net");
    assert_eq!(opt.alpn, vec!["h2".to_string(), "http/1.1".to_string()]);
    // the `tls` table wins over its `ssl` alias
    t.certificate = Some("primary.pem".to_string());
    let mut c2 = Config::default();
    c2.tls = Some(t);
    c2.ssl = Some(TlsConfig {
        enabled: None,
        certificate: Some("shadowed.pem".to_string()),
        certificate_key: None,
        key: None,
        cert: None,
        alpn: None,
        sni: None,
        verify: None,
    });
    opt.merge_config(c2);
    assert_eq!(opt.cert, Some("primary.pem".to_string()));
}
