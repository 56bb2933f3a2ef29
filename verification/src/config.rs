use vstd::prelude::*;

use crate::address::all_digits;
use crate::address::dec_value;
use crate::address::is_digit;
use crate::address::is_ws_byte;
use crate::address::rfind_colon;
use crate::address::rfind_colon_exec;
use crate::http::ascii_lower;
use crate::password::ascii_string;
use crate::password::hex_chars;
use crate::password::password_to_hash;
use crate::password::sha224_of;
use vstd::string::StringExecFns;
use vstd::string::StringSliceAdditionalSpecFns;

verus! {

/// Verbosity of the log output.
#[derive(Clone, Copy, PartialEq, Eq, Structural, Debug)]
pub enum LogLevel {
    Error,
    Warn,
    Info,
    Debug,
    Trace,
}

/// How the client reaches the server.
#[derive(Clone, Copy, PartialEq, Eq, Structural, Debug)]
pub enum ConnectionMode {
    TcpTLS,
    Quic,
    LiteTLS,
}

/// A bind or dial target: an IP (or host) text and a port.
#[derive(Clone, Debug)]
pub struct SocketAddress {
    pub ip: String,
    pub port: u16,
}

/// The `websocket` table of the configuration file.
#[derive(Clone, Debug)]
pub struct WebsocketConfig {
    pub enabled: bool,
    pub path: String,
    pub hostname: String,
}

/// The `tls` (or `ssl`) table of the configuration file. Certificate and
/// key are file-system paths kept as text; the collaborator that loads
/// credentials interprets them.
#[derive(Clone, Debug)]
pub struct TlsConfig {
    pub enabled: Option<bool>,
    pub certificate: Option<String>,
    pub certificate_key: Option<String>,
    pub key: Option<String>,
    pub cert: Option<String>,
    pub alpn: Option<Vec<String>>,
    pub sni: Option<String>,
    pub verify: Option<bool>,
}

/// A configuration record, as an external collaborator delivers it from a
/// configuration file.
#[derive(Clone, Debug)]
pub struct Config {
    pub listen: Option<String>,
    pub local_addr: Option<String>,
    pub local_port: Option<u16>,
    pub remote_addr: Option<String>,
    pub remote_port: Option<u16>,
    pub password: Vec<String>,
    pub protocol: Option<String>,
    pub websocket: Option<WebsocketConfig>,
    pub tls: Option<TlsConfig>,
    pub ssl: Option<TlsConfig>,
    pub fast_open: Option<bool>,
    pub tcp_keepalive: Option<bool>,
    pub zero_copy: Option<bool>,
    pub run_type: Option<String>,
    pub log_level: Option<String>,
}

impl Default for Config {
    /// An empty record: nothing set.
    fn default() -> (r: Config)
        ensures
            r.listen is None,
            r.local_addr is None,
            r.local_port is None,
            r.remote_addr is None,
            r.remote_port is None,
            r.password@.len() == 0,
            r.protocol is None,
            r.websocket is None,
            r.tls is None,
            r.ssl is None,
            r.fast_open is None,
            r.tcp_keepalive is None,
            r.zero_copy is None,
            r.run_type is None,
            r.log_level is None,
    {
        Config {
            listen: None,
            local_addr: None,
            local_port: None,
            remote_addr: None,
            remote_port: None,
            password: Vec::new(),
            protocol: None,
            websocket: None,
            tls: None,
            ssl: None,
            fast_open: None,
            tcp_keepalive: None,
            zero_copy: None,
            run_type: None,
            log_level: None,
        }
    }
}

/// The validated options the proxy runs with.
#[derive(Clone, Debug)]
pub struct Opt {
    /// Client HTTP proxy bind address.
    pub local_http_addr: SocketAddress,
    /// Local ip text from the configuration file.
    pub local_ip: String,
    /// Local port from the configuration file.
    pub local_port: u16,
    /// Client SOCKS5 proxy bind address.
    pub local_socks5_addr: SocketAddress,
    pub log_level: LogLevel,
    /// Path of an extra root certificate, if any.
    pub ca: Option<String>,
    /// Server Name Indication, or hostname.
    pub server_hostname: String,
    pub server_port: u16,
    pub server_ip: String,
    /// Whether to start as server.
    pub server: bool,
    /// Path of the TLS private key (PEM).
    pub key: Option<String>,
    /// Path of the TLS certificate (PEM).
    pub cert: Option<String>,
    /// Hex hash of the main password.
    pub password: Option<String>,
    /// Port unauthenticated connections are spliced to; 0 disables.
    pub fallback_port: u16,
    pub connection_mode: ConnectionMode,
    /// Path of the configuration file, if any.
    pub config: Option<String>,
    /// Plaintext password list from the configuration file.
    pub password_list: Vec<String>,
    pub websocket: Option<WebsocketConfig>,
    pub zero_copy: bool,
    pub fast_open: bool,
    pub tcp_keepalive: bool,
    /// ALPN protocol preference list.
    pub alpn: Vec<String>,
    pub remote_socket_addr: Option<SocketAddress>,
}

/// The bytes of the word a `run_type` must equal to start a server.
pub open spec fn word_server() -> Seq<u8> {
    seq![115u8, 101u8, 114u8, 118u8, 101u8, 114u8]
}

/// `s` equals `w` after folding ASCII capitals in `s` to lowercase.
pub open spec fn word_eq_lower(s: Seq<u8>, w: Seq<u8>) -> bool {
    s.len() == w.len() && forall|i: int| 0 <= i < s.len() ==> ascii_lower(#[trigger] s[i]) == w[i]
}

/// What `parse_log_level` makes of (the bytes of) a level name, folded to
/// lowercase; anything unrecognized is `Info`.
pub open spec fn spec_parse_log_level(s: Seq<u8>) -> LogLevel {
    if word_eq_lower(s, seq![105u8, 110u8, 102u8, 111u8]) {
        LogLevel::Info
    } else if word_eq_lower(s, seq![100u8, 101u8, 98u8, 117u8, 103u8]) {
        LogLevel::Debug
    } else if word_eq_lower(s, seq![119u8, 97u8, 114u8, 110u8]) {
        LogLevel::Warn
    } else if word_eq_lower(s, seq![101u8, 114u8, 114u8, 111u8, 114u8]) {
        LogLevel::Error
    } else if word_eq_lower(s, seq![116u8, 114u8, 97u8, 99u8, 101u8]) {
        LogLevel::Trace
    } else {
        LogLevel::Info
    }
}

/// What `parse_connection_mode` makes of (the bytes of) a mode name, folded
/// to lowercase: `tcp-tls`, `t`, `tcp` and `tcp_tls` name TCP-TLS, `quic`
/// and `q` name QUIC, `l` names Lite-TLS; anything else defaults to TCP-TLS.
pub open spec fn spec_parse_connection_mode(s: Seq<u8>) -> ConnectionMode {
    if word_eq_lower(s, seq![116u8, 99u8, 112u8, 45u8, 116u8, 108u8, 115u8]) || word_eq_lower(
        s,
        seq![116u8],
    ) || word_eq_lower(s, seq![116u8, 99u8, 112u8]) || word_eq_lower(
        s,
        seq![116u8, 99u8, 112u8, 95u8, 116u8, 108u8, 115u8],
    ) {
        ConnectionMode::TcpTLS
    } else if word_eq_lower(s, seq![113u8, 117u8, 105u8, 99u8]) || word_eq_lower(s, seq![113u8]) {
        ConnectionMode::Quic
    } else if word_eq_lower(s, seq![108u8]) {
        ConnectionMode::LiteTLS
    } else {
        ConnectionMode::TcpTLS
    }
}

/// Compares `s`, folded to lowercase, with `w`.
fn eq_lower(s: &[u8], w: &Vec<u8>) -> (r: bool)
    ensures
        r == word_eq_lower(s@, w@),
{
    if s.len() != w.len() {
        return false;
    }
    let n = s.len();
    let mut i: usize = 0;
    while i < n
        invariant
            n == s@.len() == w@.len(),
            0 <= i <= n,
            forall|j: int| 0 <= j < i ==> ascii_lower(#[trigger] s@[j]) == w@[j],
        decreases n - i,
    {
        let b = s[i];
        let low = if 65 <= b && b <= 90 {
            b + 32
        } else {
            b
        };
        if low != w[i] {
            return false;
        }
        i = i + 1;
    }
    true
}

/// Reads a log level name, per `spec_parse_log_level`.
pub fn parse_log_level(l: &str) -> (r: LogLevel)
    ensures
        r == spec_parse_log_level(l.spec_bytes()),
{
    let b = l.as_bytes();
    let info = vec![105u8, 110u8, 102u8, 111u8];
    let debug = vec![100u8, 101u8, 98u8, 117u8, 103u8];
    let warn = vec![119u8, 97u8, 114u8, 110u8];
    let error = vec![101u8, 114u8, 114u8, 111u8, 114u8];
    let trace = vec![116u8, 114u8, 97u8, 99u8, 101u8];
    if eq_lower(b, &info) {
        LogLevel::Info
    } else if eq_lower(b, &debug) {
        LogLevel::Debug
    } else if eq_lower(b, &warn) {
        LogLevel::Warn
    } else if eq_lower(b, &error) {
        LogLevel::Error
    } else if eq_lower(b, &trace) {
        LogLevel::Trace
    } else {
        LogLevel::Info
    }
}

/// Reads a connection mode name, per `spec_parse_connection_mode`.
pub fn parse_connection_mode(l: &str) -> (r: ConnectionMode)
    ensures
        r == spec_parse_connection_mode(l.spec_bytes()),
{
    let b = l.as_bytes();
    let tcp_dash = vec![116u8, 99u8, 112u8, 45u8, 116u8, 108u8, 115u8];
    let t = vec![116u8];
    let tcp = vec![116u8, 99u8, 112u8];
    let tcp_under = vec![116u8, 99u8, 112u8, 95u8, 116u8, 108u8, 115u8];
    let quic = vec![113u8, 117u8, 105u8, 99u8];
    let q = vec![113u8];
    let l_word = vec![108u8];
    if eq_lower(b, &tcp_dash) || eq_lower(b, &t) || eq_lower(b, &tcp) || eq_lower(b, &tcp_under) {
        ConnectionMode::TcpTLS
    } else if eq_lower(b, &quic) || eq_lower(b, &q) {
        ConnectionMode::Quic
    } else if eq_lower(b, &l_word) {
        ConnectionMode::LiteTLS
    } else {
        ConnectionMode::TcpTLS
    }
}

/// Reads a decimal port number. Inputs that are not all digits or exceed a
/// 16-bit port are outside this function's domain; the configuration layer
/// treats them as fatal before calling.
pub fn into_u16(l: &str) -> (r: u16)
    requires
        all_digits(l.spec_bytes()),
        dec_value(l.spec_bytes()) <= 65535,
    ensures
        r as int == dec_value(l.spec_bytes()),
{
    let b = l.as_bytes();
    let n = b.len();
    let mut acc: u32 = 0;
    let mut i: usize = 0;
    while i < n
        invariant
            n == b@.len(),
            b@ == l.spec_bytes(),
            all_digits(b@),
            dec_value(b@) <= 65535,
            0 <= i <= n,
            acc == dec_value(b@.take(i as int)),
            acc <= 65535,
        decreases n - i,
    {
        let d = b[i];
        proof {
            assert(is_digit(b@[i as int]));
            assert(b@.take(i + 1 as int).drop_last() =~= b@.take(i as int));
            assert(all_digits(b@.take(i + 1 as int)));
            crate::address::lemma_dec_value_prefix_le(b@, i + 1);
        }
        acc = acc * 10 + (d - 48) as u32;
        i = i + 1;
    }
    proof {
        assert(b@.take(n as int) =~= b@);
    }
    acc as u16
}

/// Builds the loopback bind address `127.0.0.1:<l>`. The port text must be a
/// non-empty run of digits naming a 16-bit port; anything else is a fatal
/// configuration error and stays outside this function's domain.
pub fn into_local_addr(l: &str) -> (r: SocketAddress)
    requires
        l.spec_bytes().len() >= 1,
        all_digits(l.spec_bytes()),
        dec_value(l.spec_bytes()) <= 65535,
    ensures
        r.ip@ == "127.0.0.1"@,
        r.port as int == dec_value(l.spec_bytes()),
{
    let port = into_u16(l);
    SocketAddress { ip: String::from_str("127.0.0.1"), port }
}

/// The ip half of a `listen` value is usable: non-empty printable ASCII,
/// and free of colons unless it was bracketed.
pub open spec fn ip_text_ok(ip: Seq<u8>, bracketed: bool) -> bool {
    &&& 1 <= ip.len()
    &&& forall|i: int| 0 <= i < ip.len() ==> #[trigger] ip[i] < 128 && !is_ws_byte(ip[i])
    &&& bracketed || (forall|i: int| 0 <= i < ip.len() ==> #[trigger] ip[i] != 58)
}

/// Whether a `listen` host part is a bracketed (IPv6) ip text.
pub open spec fn host_bracketed(host: Seq<u8>) -> bool {
    host.len() >= 2 && host[0] == 91 && host.last() == 93
}

/// The ip text of a `listen` host part, brackets stripped.
pub open spec fn host_ip_text(host: Seq<u8>) -> Seq<u8> {
    if host_bracketed(host) {
        host.subrange(1, host.len() - 1)
    } else {
        host
    }
}

/// What a `listen` value yields when read as `ip:port` (brackets around an
/// IPv6 ip are stripped): the ip text and the port, provided the port is a
/// valid decimal and the ip text is usable.
pub open spec fn listen_ip_port(s: Seq<u8>) -> Option<(Seq<u8>, u16)> {
    let c = rfind_colon(s);
    if c >= 1 {
        let host = s.take(c);
        let digits = s.skip(c + 1);
        if listen_port(digits) is Some && ip_text_ok(host_ip_text(host), host_bracketed(host)) {
            Some((host_ip_text(host), dec_value(digits) as u16))
        } else {
            None
        }
    } else {
        None
    }
}

/// What a `listen` value yields when read as a bare decimal port.
pub open spec fn listen_port(s: Seq<u8>) -> Option<u16> {
    if 1 <= s.len() && all_digits(s) && dec_value(s) <= 65535 {
        Some(dec_value(s) as u16)
    } else {
        None
    }
}

/// The UTF-8 bytes of a text value.
pub open spec fn str_bytes(s: Seq<char>) -> Seq<u8> {
    vstd::utf8::encode_utf8(s)
}

/// The characters of an ASCII byte text.
pub open spec fn bytes_chars(s: Seq<u8>) -> Seq<char> {
    s.map_values(|b: u8| b as char)
}

/// The `tls` table that takes effect: `tls`, or `ssl` as its alias.
pub open spec fn spec_tls(c: Config) -> Option<TlsConfig> {
    if c.tls is Some {
        c.tls
    } else {
        c.ssl
    }
}

/// Whether the record carries an enabled websocket table.
pub open spec fn ws_enabled(c: Config) -> bool {
    match c.websocket {
        Some(w) => w.enabled,
        None => false,
    }
}

/// The server port after a merge: `remote_port` wins; otherwise a `listen`
/// value read as `ip:port` or as a bare port; otherwise the old value.
pub open spec fn merged_server_port(o: u16, c: Config) -> u16 {
    let after_listen = match c.listen {
        Some(l) => match listen_ip_port(str_bytes(l@)) {
            Some((_, p)) => p,
            None => match listen_port(str_bytes(l@)) {
                Some(p) => p,
                None => o,
            },
        },
        None => o,
    };
    match c.remote_port {
        Some(rp) => rp,
        None => after_listen,
    }
}

/// The server ip text after a merge: `remote_addr` wins; otherwise the ip
/// half of a `listen` value; otherwise the old value.
pub open spec fn merged_server_ip(o: Seq<char>, c: Config) -> Seq<char> {
    let after_listen = match c.listen {
        Some(l) => match listen_ip_port(str_bytes(l@)) {
            Some((ip, _)) => bytes_chars(ip),
            None => o,
        },
        None => o,
    };
    match c.remote_addr {
        Some(ra) => ra@,
        None => after_listen,
    }
}

/// The certificate path after a merge: `certificate`, or `cert` as its
/// alias; otherwise the old value.
pub open spec fn merged_cert(o: Option<String>, t: Option<TlsConfig>) -> Option<String> {
    match t {
        Some(t) => if t.certificate is Some {
            t.certificate
        } else if t.cert is Some {
            t.cert
        } else {
            o
        },
        None => o,
    }
}

/// The key path after a merge: `certificate_key`, or `key` as its alias;
/// otherwise the old value.
pub open spec fn merged_key(o: Option<String>, t: Option<TlsConfig>) -> Option<String> {
    match t {
        Some(t) => if t.certificate_key is Some {
            t.certificate_key
        } else if t.key is Some {
            t.key
        } else {
            o
        },
        None => o,
    }
}

/// The ip text the local proxies bind to: the merged `local_addr` when one
/// is set, else loopback.
pub open spec fn chosen_local_ip(o: Seq<char>, c: Config) -> Seq<char> {
    let merged = match c.local_addr {
        Some(la) => la@,
        None => o,
    };
    if merged.len() > 0 {
        merged
    } else {
        "127.0.0.1"@
    }
}

impl Opt {
    /// Folds a loaded configuration record into the options. Precedence
    /// follows the record: `listen` feeds the server address, `remote_addr`
    /// and `remote_port` override it; `tls` wins over its `ssl` alias and
    /// field aliases resolve as `merged_cert` and `merged_key` say; the
    /// first password is hashed into the main credential unless one is
    /// already set; `local_port` rebinds the HTTP proxy there and the SOCKS5
    /// proxy one port above it, which keeps that port below the 16-bit top.
    #[verifier::rlimit(100)]
    pub fn merge_config(&mut self, config: Config)
        requires
            config.local_port matches Some(lp) ==> lp < 65535,
        ensures
            final(self).server_port == merged_server_port(old(self).server_port, config),
            final(self).server_ip@ == merged_server_ip(old(self).server_ip@, config),
            config.password@.len() > 0 ==> final(self).password_list == config.password,
            config.password@.len() == 0 ==> final(self).password_list == old(self).password_list,
            config.password@.len() > 0 && old(self).password is None ==> (final(self).password
                matches Some(h) && h@ == hex_chars(sha224_of(str_bytes(config.password@[0]@)))),
            !(config.password@.len() > 0 && old(self).password is None) ==> final(self).password
                == old(self).password,
            ws_enabled(config) ==> final(self).websocket == config.websocket,
            !ws_enabled(config) ==> final(self).websocket == old(self).websocket,
            final(self).cert == merged_cert(old(self).cert, spec_tls(config)),
            final(self).key == merged_key(old(self).key, spec_tls(config)),
            final(self).server_hostname == (match spec_tls(config) {
                Some(t) => match t.sni {
                    Some(sni) => sni,
                    None => old(self).server_hostname,
                },
                None => old(self).server_hostname,
            }),
            final(self).alpn == (match spec_tls(config) {
                Some(t) => match t.alpn {
                    Some(a) => a,
                    None => old(self).alpn,
                },
                None => old(self).alpn,
            }),
            final(self).zero_copy == (match config.zero_copy {
                Some(z) => z,
                None => old(self).zero_copy,
            }),
            final(self).fast_open == (match config.fast_open {
                Some(f) => f,
                None => old(self).fast_open,
            }),
            final(self).tcp_keepalive == (match config.tcp_keepalive {
                Some(t) => t,
                None => old(self).tcp_keepalive,
            }),
            final(self).log_level == (match config.log_level {
                Some(l) => spec_parse_log_level(str_bytes(l@)),
                None => old(self).log_level,
            }),
            final(self).server == (match config.run_type {
                Some(rt) => str_bytes(rt@) == word_server(),
                None => old(self).server,
            }),
            final(self).connection_mode == (match config.protocol {
                Some(p) => spec_parse_connection_mode(str_bytes(p@)),
                None => old(self).connection_mode,
            }),
            final(self).local_ip == (match config.local_addr {
                Some(la) => la,
                None => old(self).local_ip,
            }),
            final(self).local_port == (match config.local_port {
                Some(lp) => lp,
                None => old(self).local_port,
            }),
            config.local_port matches Some(lp) ==> {
                &&& final(self).local_http_addr.ip@ == chosen_local_ip(
                    old(self).local_ip@,
                    config,
                )
                &&& final(self).local_http_addr.port == lp
                &&& final(self).local_socks5_addr.ip@ == chosen_local_ip(
                    old(self).local_ip@,
                    config,
                )
                &&& final(self).local_socks5_addr.port == lp + 1
            },
            config.local_port is None ==> final(self).local_http_addr == old(
                self,
            ).local_http_addr && final(self).local_socks5_addr == old(self).local_socks5_addr,
            final(self).ca == old(self).ca,
            final(self).config == old(self).config,
            final(self).fallback_port == old(self).fallback_port,
            final(self).remote_socket_addr == old(self).remote_socket_addr,
    {
        let Config {
            listen,
            local_addr,
            local_port,
            remote_addr,
            remote_port,
            password,
            protocol,
            websocket,
            tls,
            ssl,
            fast_open,
            tcp_keepalive,
            zero_copy,
            run_type,
            log_level,
        } = config;

        apply_listen(listen, &mut self.server_ip, &mut self.server_port);
        apply_password(password, &mut self.password, &mut self.password_list);
        apply_websocket(websocket, &mut self.websocket);
        apply_tls(
            tls,
            ssl,
            &mut self.cert,
            &mut self.key,
            &mut self.server_hostname,
            &mut self.alpn,
        );
        apply_flag(zero_copy, &mut self.zero_copy);
        apply_flag(fast_open, &mut self.fast_open);
        apply_flag(tcp_keepalive, &mut self.tcp_keepalive);
        apply_log_level(log_level, &mut self.log_level);
        apply_run_type(run_type, &mut self.server);
        apply_protocol(protocol, &mut self.connection_mode);
        apply_locals(
            local_addr,
            local_port,
            &mut self.local_ip,
            &mut self.local_port,
            &mut self.local_http_addr,
            &mut self.local_socks5_addr,
        );
        apply_remote(remote_addr, remote_port, &mut self.server_ip, &mut self.server_port);
    }
}

/// Keeps an enabled websocket table; anything else changes nothing.
fn apply_websocket(ws: Option<WebsocketConfig>, field: &mut Option<WebsocketConfig>)
    ensures
        (match ws {
            Some(w) => w.enabled,
            None => false,
        }) ==> *final(field) == ws,
        !(match ws {
            Some(w) => w.enabled,
            None => false,
        }) ==> *final(field) == *old(field),
{
    if let Some(w) = ws {
        if w.enabled {
            *field = Some(w);
        }
    }
}

/// Overrides a boolean option when the record sets it.
fn apply_flag(v: Option<bool>, field: &mut bool)
    ensures
        *final(field) == (match v {
            Some(b) => b,
            None => *old(field),
        }),
{
    if let Some(b) = v {
        *field = b;
    }
}

/// Applies a `log_level` name when the record carries one.
fn apply_log_level(v: Option<String>, field: &mut LogLevel)
    ensures
        *final(field) == (match v {
            Some(l) => spec_parse_log_level(str_bytes(l@)),
            None => *old(field),
        }),
{
    if let Some(l) = v {
        *field = parse_log_level(l.as_str());
    }
}

/// Applies a `run_type` word when the record carries one.
fn apply_run_type(v: Option<String>, field: &mut bool)
    ensures
        *final(field) == (match v {
            Some(rt) => str_bytes(rt@) == word_server(),
            None => *old(field),
        }),
{
    if let Some(rt) = v {
        *field = str_eq_server(rt.as_str());
    }
}

/// Applies a `protocol` name when the record carries one.
fn apply_protocol(v: Option<String>, field: &mut ConnectionMode)
    ensures
        *final(field) == (match v {
            Some(p) => spec_parse_connection_mode(str_bytes(p@)),
            None => *old(field),
        }),
{
    if let Some(p) = v {
        *field = parse_connection_mode(p.as_str());
    }
}

/// Applies the `remote_addr` and `remote_port` overrides.
fn apply_remote(
    remote_addr: Option<String>,
    remote_port: Option<u16>,
    server_ip: &mut String,
    server_port: &mut u16,
)
    ensures
        *final(server_ip) == (match remote_addr {
            Some(ra) => ra,
            None => *old(server_ip),
        }),
        *final(server_port) == (match remote_port {
            Some(rp) => rp,
            None => *old(server_port),
        }),
{
    if let Some(ra) = remote_addr {
        *server_ip = ra;
    }
    if let Some(rp) = remote_port {
        *server_port = rp;
    }
}

/// Applies a `listen` value to the server address fields: an `ip:port` form
/// sets both, a bare port sets the port, anything else changes nothing.
fn apply_listen(listen: Option<String>, server_ip: &mut String, server_port: &mut u16)
    ensures
        match listen {
            Some(l) => {
                &&& *final(server_port) == (match listen_ip_port(str_bytes(l@)) {
                    Some((_, p)) => p,
                    None => match listen_port(str_bytes(l@)) {
                        Some(p) => p,
                        None => *old(server_port),
                    },
                })
                &&& final(server_ip)@ == (match listen_ip_port(str_bytes(l@)) {
                    Some((ip, _)) => bytes_chars(ip),
                    None => old(server_ip)@,
                })
            },
            None => *final(server_port) == *old(server_port) && final(server_ip)@ == old(
                server_ip,
            )@,
        },
{
    if let Some(l) = listen {
        let b = l.as_str().as_bytes();
        match parse_listen_bytes(b) {
            Some((ipb, p)) => {
                *server_port = p;
                *server_ip = ascii_string(ipb);
            },
            None => {
                if let Some(p) = parse_port_digits(b) {
                    *server_port = p;
                }
            },
        }
    }
}

/// Applies the password list: the first password is hashed into the main
/// credential unless one is already set, and the list is kept.
fn apply_password(pws: Vec<String>, main: &mut Option<String>, list: &mut Vec<String>)
    ensures
        pws@.len() > 0 ==> *final(list) == pws,
        pws@.len() == 0 ==> *final(list) == *old(list),
        pws@.len() > 0 && *old(main) is None ==> (*final(main) matches Some(h) && h@ == hex_chars(
            sha224_of(str_bytes(pws@[0]@)),
        )),
        !(pws@.len() > 0 && *old(main) is None) ==> *final(main) == *old(main),
{
    if pws.len() > 0 {
        if main.is_none() {
            *main = Some(password_to_hash(pws[0].as_str()));
        }
        *list = pws;
    }
}

/// Applies a `tls` (or aliased `ssl`) table to the TLS options.
fn apply_tls(
    tls: Option<TlsConfig>,
    ssl: Option<TlsConfig>,
    cert: &mut Option<String>,
    key: &mut Option<String>,
    hostname: &mut String,
    alpn: &mut Vec<String>,
)
    ensures
        ({
            let t = if tls is Some {
                tls
            } else {
                ssl
            };
            &&& *final(cert) == merged_cert(*old(cert), t)
            &&& *final(key) == merged_key(*old(key), t)
            &&& *final(hostname) == (match t {
                Some(tt) => match tt.sni {
                    Some(sni) => sni,
                    None => *old(hostname),
                },
                None => *old(hostname),
            })
            &&& *final(alpn) == (match t {
                Some(tt) => match tt.alpn {
                    Some(a) => a,
                    None => *old(alpn),
                },
                None => *old(alpn),
            })
        }),
{
    let tls_table = if tls.is_some() {
        tls
    } else {
        ssl
    };
    if let Some(t) = tls_table {
        let TlsConfig { enabled: _, certificate, certificate_key, key: key_alias, cert: cert_alias, alpn: alpn_list, sni, verify: _ } =
            t;
        if certificate.is_some() {
            *cert = certificate;
        } else if cert_alias.is_some() {
            *cert = cert_alias;
        }
        if certificate_key.is_some() {
            *key = certificate_key;
        } else if key_alias.is_some() {
            *key = key_alias;
        }
        if let Some(s) = sni {
            *hostname = s;
        }
        if let Some(a) = alpn_list {
            *alpn = a;
        }
    }
}

/// Applies `local_addr` and `local_port`: a port rebinds the HTTP proxy
/// there and the SOCKS5 proxy one port above, on the merged local ip or
/// loopback.
fn apply_locals(
    local_addr: Option<String>,
    local_port: Option<u16>,
    local_ip: &mut String,
    local_port_field: &mut u16,
    http_addr: &mut SocketAddress,
    socks5_addr: &mut SocketAddress,
)
    requires
        local_port matches Some(lp) ==> lp < 65535,
    ensures
        *final(local_ip) == (match local_addr {
            Some(la) => la,
            None => *old(local_ip),
        }),
        *final(local_port_field) == (match local_port {
            Some(lp) => lp,
            None => *old(local_port_field),
        }),
        match local_port {
            Some(lp) => {
                let chosen = if (match local_addr {
                    Some(la) => la@,
                    None => old(local_ip)@,
                }).len() > 0 {
                    match local_addr {
                        Some(la) => la@,
                        None => old(local_ip)@,
                    }
                } else {
                    "127.0.0.1"@
                };
                &&& final(http_addr).ip@ == chosen
                &&& final(http_addr).port == lp
                &&& final(socks5_addr).ip@ == chosen
                &&& final(socks5_addr).port == lp + 1
            },
            None => *final(http_addr) == *old(http_addr) && *final(socks5_addr) == *old(
                socks5_addr,
            ),
        },
{
    if let Some(la) = local_addr {
        *local_ip = la;
    }
    if let Some(lp) = local_port {
        *local_port_field = lp;
        let ip = if !local_ip.as_str().is_empty() {
            local_ip.clone()
        } else {
            String::from_str("127.0.0.1")
        };
        let ip2 = ip.clone();
        *http_addr = SocketAddress { ip, port: lp };
        *socks5_addr = SocketAddress { ip: ip2, port: lp + 1 };
    }
}

/// Whether `s` spells `server`.
fn str_eq_server(s: &str) -> (r: bool)
    ensures
        r == (s.spec_bytes() == word_server()),
{
    let b = s.as_bytes();
    if b.len() != 6 {
        proof {
            assert(s.spec_bytes().len() != word_server().len());
        }
        return false;
    }
    let r = b[0] == 115 && b[1] == 101 && b[2] == 114 && b[3] == 118 && b[4] == 101 && b[5] == 114;
    proof {
        if r {
            assert(b@ =~= word_server());
        } else {
            if b@ == word_server() {
                assert(forall|k: int| 0 <= k < 6 ==> b@[k] == word_server()[k]);
                assert(b@[0] == 115 && b@[1] == 101 && b@[2] == 114 && b@[3] == 118 && b@[4] == 101
                    && b@[5] == 114);
            }
        }
    }
    r
}

/// Reads a bare decimal port, per `listen_port`.
fn parse_port_digits(b: &[u8]) -> (r: Option<u16>)
    ensures
        r == listen_port(b@),
{
    let n = b.len();
    if n == 0 {
        return None;
    }
    let mut acc: u32 = 0;
    let mut i: usize = 0;
    while i < n
        invariant
            n == b@.len(),
            1 <= n,
            0 <= i <= n,
            acc == dec_value(b@.take(i as int)),
            acc <= 65535,
            forall|j: int| 0 <= j < i ==> is_digit(#[trigger] b@[j]),
        decreases n - i,
    {
        let d = b[i];
        if !(48 <= d && d <= 57) {
            proof {
                assert(!all_digits(b@));
            }
            return None;
        }
        proof {
            assert(b@.take(i + 1 as int).drop_last() =~= b@.take(i as int));
        }
        acc = acc * 10 + (d - 48) as u32;
        i = i + 1;
        if acc > 65535 {
            proof {
                crate::address::lemma_dec_value_monotone_overflow(b@, i as int);
            }
            return None;
        }
    }
    proof {
        assert(b@.take(n as int) =~= b@);
    }
    Some(acc as u16)
}

/// Reads a `listen` value as `ip:port`, per `listen_ip_port`.
fn parse_listen_bytes(b: &[u8]) -> (r: Option<(Vec<u8>, u16)>)
    ensures
        match r {
            Some((ip, p)) => listen_ip_port(b@) == Some((ip@, p)) && forall|i: int|
                0 <= i < ip@.len() ==> ip@[i] < 128,
            None => listen_ip_port(b@) is None,
        },
{
    let len = b.len();
    let c = match rfind_colon_exec(b) {
        Some(c) => c,
        None => {
            return None;
        },
    };
    if c < 1 {
        return None;
    }
    let digits = &b[c + 1..len];
    proof {
        assert(digits@ =~= b@.skip(c + 1 as int));
    }
    let port = match parse_port_digits(digits) {
        Some(p) => p,
        None => {
            return None;
        },
    };
    let host = &b[0..c];
    proof {
        assert(host@ =~= b@.take(c as int));
    }
    let hlen = host.len();
    let bracketed = hlen >= 2 && host[0] == 91 && host[hlen - 1] == 93;
    let (s0, s1) = if bracketed {
        (1usize, hlen - 1)
    } else {
        (0usize, hlen)
    };
    if s1 - s0 < 1 {
        proof {
            assert(host_ip_text(host@).len() == s1 - s0);
            assert(!ip_text_ok(host_ip_text(host@), host_bracketed(host@)));
        }
        return None;
    }
    let mut ip: Vec<u8> = Vec::new();
    let mut i: usize = s0;
    while i < s1
        invariant
            len == b@.len(),
            rfind_colon(b@) == c,
            1 <= c < len,
            listen_port(b@.skip(c + 1 as int)) == Some(port),
            host@ == b@.take(c as int),
            hlen == host@.len(),
            bracketed == (host@.len() >= 2 && host@[0] == 91 && host@.last() == 93),
            s0 == if bracketed {
                1int
            } else {
                0int
            },
            s1 == if bracketed {
                hlen - 1
            } else {
                hlen as int
            },
            s0 < s1,
            s0 <= i <= s1 <= host@.len(),
            ip@ =~= host@.subrange(s0 as int, i as int),
            forall|j: int|
                0 <= j < ip@.len() ==> #[trigger] ip@[j] < 128 && !is_ws_byte(ip@[j]) && (
                !(s0 == 0) || ip@[j] != 58),
        decreases s1 - i,
    {
        let ghost ipspec = if bracketed {
            host@.subrange(1, host@.len() - 1)
        } else {
            host@
        };
        let x = host[i];
        if x >= 128 || x == 32 || x == 9 || x == 13 || x == 10 {
            proof {
                if !bracketed {
                    assert(host@.subrange(s0 as int, s1 as int) =~= host@);
                }
                assert(bracketed == host_bracketed(host@));
                assert(ipspec == host_ip_text(host@));
                assert(ipspec[i - s0] == host@[i as int]);
                assert(0 <= i - s0 < ipspec.len());
                assert(!(ipspec[i - s0] < 128 && !is_ws_byte(ipspec[i - s0])));
                assert(!ip_text_ok(ipspec, bracketed));
                assert(listen_ip_port(b@) is None);
            }
            return None;
        }
        if s0 == 0 && x == 58 {
            proof {
                assert(host@.subrange(s0 as int, s1 as int) =~= host@);
                assert(bracketed == host_bracketed(host@));
                assert(ipspec == host_ip_text(host@));
                assert(ipspec[i - s0] == host@[i as int]);
                assert(0 <= i - s0 < ipspec.len());
                assert(ipspec[i - s0] == 58);
                assert(!bracketed);
                assert(!ip_text_ok(ipspec, bracketed));
                assert(listen_ip_port(b@) is None);
            }
            return None;
        }
        ip.push(x);
        proof {
            assert(ip@ =~= host@.subrange(s0 as int, (i + 1) as int));
        }
        i = i + 1;
    }
    proof {
        assert(ip@ =~= host@.subrange(s0 as int, s1 as int));
        if !bracketed {
            assert(host@.subrange(s0 as int, s1 as int) =~= host@);
        }
        assert(bracketed == host_bracketed(host@));
        assert(ip@ == host_ip_text(host@));
        assert(ip_text_ok(ip@, bracketed));
    }
    Some((ip, port))
}

} // verus!
