use vstd::prelude::*;

use vstd::string::StrSliceExecFns;
use vstd::string::StringExecFns;

verus! {

/// A WebSocket message, modeled with plain payload bytes (for `Text`, the
/// UTF-8 bytes of the text).
pub enum WsMessage {
    Binary(Vec<u8>),
    Text(Vec<u8>),
    Ping(Vec<u8>),
    Pong(Vec<u8>),
    Close,
    Frame(Vec<u8>),
}

/// What the read side does after examining one pulled message.
#[derive(PartialEq, Eq, Structural, Debug)]
pub enum WsFeedResult {
    /// Payload appended to the residual buffer: data is ready.
    Appended,
    /// Control message consumed silently: pull again.
    Skipped,
    /// Close frame: the byte stream ends here.
    Eof,
}

/// Feeds one pulled message into the residual read buffer: Binary and Text
/// payloads are appended, a Close frame means end-of-stream, and control
/// frames (ping, pong, raw frames) are consumed silently.
pub fn ws_read_feed(residual: &mut Vec<u8>, msg: WsMessage) -> (r: WsFeedResult)
    ensures
        match msg {
            WsMessage::Binary(b) => final(residual)@ == old(residual)@ + b@ && r
                == WsFeedResult::Appended,
            WsMessage::Text(t) => final(residual)@ == old(residual)@ + t@ && r
                == WsFeedResult::Appended,
            WsMessage::Close => final(residual)@ == old(residual)@ && r == WsFeedResult::Eof,
            _ => final(residual)@ == old(residual)@ && r == WsFeedResult::Skipped,
        },
{
    match msg {
        WsMessage::Binary(mut b) => {
            residual.append(&mut b);
            WsFeedResult::Appended
        },
        WsMessage::Text(mut t) => {
            residual.append(&mut t);
            WsFeedResult::Appended
        },
        WsMessage::Close => WsFeedResult::Eof,
        _ => WsFeedResult::Skipped,
    }
}

/// Hands out up to `want` bytes from the front of the residual buffer,
/// keeping the rest: the read side of the byte-stream adapter.
pub fn ws_read_take(residual: &mut Vec<u8>, want: usize) -> (out: Vec<u8>)
    ensures
        ({
            let n = if want <= old(residual)@.len() {
                want as int
            } else {
                old(residual)@.len() as int
            };
            &&& out@ == old(residual)@.take(n)
            &&& final(residual)@ == old(residual)@.skip(n)
        }),
{
    let len = residual.len();
    let n = if want <= len {
        want
    } else {
        len
    };
    let mut out: Vec<u8> = Vec::new();
    let mut i: usize = 0;
    while i < n
        invariant
            n <= old(residual)@.len(),
            residual@ == old(residual)@,
            0 <= i <= n,
            out@ =~= old(residual)@.take(i as int),
        decreases n - i,
    {
        out.push(residual[i]);
        proof {
            assert(out@ =~= old(residual)@.take(i + 1 as int));
        }
        i = i + 1;
    }
    let mut rest: Vec<u8> = Vec::new();
    let mut j: usize = n;
    while j < len
        invariant
            n <= len == old(residual)@.len(),
            residual@ == old(residual)@,
            n <= j <= len,
            rest@ =~= old(residual)@.subrange(n as int, j as int),
        decreases len - j,
    {
        rest.push(residual[j]);
        proof {
            assert(rest@ =~= old(residual)@.subrange(n as int, (j + 1) as int));
        }
        j = j + 1;
    }
    *residual = rest;
    proof {
        assert(final(residual)@ =~= old(residual)@.skip(n as int));
    }
    out
}

/// Wraps one write as exactly one Binary frame carrying exactly the written
/// bytes: the adapter never coalesces writes and never fragments one.
pub fn ws_write_frame(buf: &[u8]) -> (m: WsMessage)
    ensures
        m matches WsMessage::Binary(p) && p@ == buf@,
{
    WsMessage::Binary(slice_to_vec(buf))
}

/// Copies a byte slice into a fresh buffer.
fn slice_to_vec(buf: &[u8]) -> (r: Vec<u8>)
    ensures
        r@ == buf@,
{
    let mut v: Vec<u8> = Vec::new();
    let mut i: usize = 0;
    while i < buf.len()
        invariant
            0 <= i <= buf@.len(),
            v@ =~= buf@.take(i as int),
        decreases buf@.len() - i,
    {
        v.push(buf[i]);
        proof {
            assert(v@ =~= buf@.take(i + 1 as int));
        }
        i = i + 1;
    }
    proof {
        assert(v@ =~= buf@);
    }
    v
}

/// The configured WebSocket path with a leading slash guaranteed.
pub open spec fn normalized_path(s: Seq<u8>) -> Seq<u8> {
    if s.len() > 0 && s[0] == 47 {
        s
    } else {
        seq![47u8] + s
    }
}

/// Normalizes the configured WebSocket path, per `normalized_path`.
pub fn normalize_ws_path(path: &[u8]) -> (r: Vec<u8>)
    ensures
        r@ == normalized_path(path@),
{
    let mut v: Vec<u8> = Vec::new();
    if !(path.len() > 0 && path[0] == 47) {
        v.push(47);
    }
    let mut i: usize = 0;
    let ghost base = v@;
    while i < path.len()
        invariant
            0 <= i <= path@.len(),
            v@ =~= base + path@.take(i as int),
        decreases path@.len() - i,
    {
        v.push(path[i]);
        proof {
            assert(v@ =~= base + path@.take(i + 1 as int));
        }
        i = i + 1;
    }
    proof {
        assert(v@ =~= base + path@);
        assert(v@ =~= normalized_path(path@));
    }
    v
}

/// `s` with every trailing slash removed.
pub open spec fn trim_trailing_slashes(s: Seq<u8>) -> Seq<u8>
    decreases s.len(),
{
    if s.len() > 0 && s.last() == 47 {
        trim_trailing_slashes(s.drop_last())
    } else {
        s
    }
}

/// Whether a requested path reaches the configured WebSocket endpoint: equal
/// outright, or equal once trailing slashes are ignored on both sides. A
/// request that does not match is answered with 404 and closed.
pub open spec fn ws_path_matches(req: Seq<u8>, cfg: Seq<u8>) -> bool {
    req == cfg || trim_trailing_slashes(req) == trim_trailing_slashes(cfg)
}

/// Decides `ws_path_matches` for the server handshake callback.
pub fn ws_path_matches_exec(req: &[u8], cfg: &[u8]) -> (r: bool)
    ensures
        r == ws_path_matches(req@, cfg@),
{
    if bytes_eq(req, cfg) {
        return true;
    }
    let rt = trim_slashes_end(req);
    let ct = trim_slashes_end(cfg);
    let a = &req[0..rt];
    let b = &cfg[0..ct];
    proof {
        assert(a@ =~= req@.take(rt as int));
        assert(b@ =~= cfg@.take(ct as int));
    }
    bytes_eq(a, b)
}

/// Index after the last non-slash byte: `trim_trailing_slashes(s@) ==
/// s@.take(r)`.
fn trim_slashes_end(s: &[u8]) -> (r: usize)
    ensures
        r <= s@.len(),
        trim_trailing_slashes(s@) == s@.take(r as int),
{
    let mut z: usize = s.len();
    proof {
        assert(s@.take(z as int) =~= s@);
    }
    while z > 0
        invariant
            0 <= z <= s@.len(),
            trim_trailing_slashes(s@) == trim_trailing_slashes(s@.take(z as int)),
        decreases z,
    {
        if s[z - 1] != 47 {
            proof {
                assert(s@.take(z as int).last() == s@[z - 1]);
            }
            return z;
        }
        proof {
            assert(s@.take(z as int).last() == s@[z - 1]);
            assert(s@.take(z as int).drop_last() =~= s@.take(z - 1 as int));
        }
        z = z - 1;
    }
    proof {
        assert(s@.take(0) =~= Seq::<u8>::empty());
    }
    0
}

/// Byte-wise equality of two slices.
fn bytes_eq(a: &[u8], b: &[u8]) -> (r: bool)
    ensures
        r == (a@ == b@),
{
    if a.len() != b.len() {
        return false;
    }
    let n = a.len();
    let mut i: usize = 0;
    while i < n
        invariant
            n == a@.len() == b@.len(),
            0 <= i <= n,
            forall|j: int| 0 <= j < i ==> a@[j] == b@[j],
        decreases n - i,
    {
        if a[i] != b[i] {
            return false;
        }
        i = i + 1;
    }
    proof {
        assert(a@ =~= b@);
    }
    true
}

/// The host the client's WebSocket handshake names: the websocket table's
/// hostname, or the TLS hostname when that is empty.
pub open spec fn ws_host(ws_hostname: Seq<char>, server_hostname: Seq<char>) -> Seq<char> {
    if ws_hostname.len() > 0 {
        ws_hostname
    } else {
        server_hostname
    }
}

/// Builds the WebSocket request URL `wss://<host><path>` for the client
/// handshake, choosing the host per `ws_host`.
pub fn ws_url(ws_hostname: &str, server_hostname: &str, path: &str) -> (r: String)
    ensures
        r@ == "wss://"@ + ws_host(ws_hostname@, server_hostname@) + path@,
{
    let host = if ws_hostname.unicode_len() > 0 {
        ws_hostname
    } else {
        server_hostname
    };
    let mut url = String::from_str("wss://");
    url.append(host);
    url.append(path);
    url
}

/// The ALPN preference list as raw protocol bytes, one entry per name: the
/// compute step of building the TLS client configuration.
pub fn alpn_bytes(alpn: &Vec<String>) -> (r: Vec<Vec<u8>>)
    ensures
        r.deep_view() == Seq::new(alpn@.len(), |i: int| crate::config::str_bytes(alpn@[i]@)),
{
    let mut r: Vec<Vec<u8>> = Vec::new();
    let mut i: usize = 0;
    while i < alpn.len()
        invariant
            0 <= i <= alpn@.len(),
            r@.len() == i,
            forall|j: int|
                0 <= j < i ==> #[trigger] r@[j]@ == crate::config::str_bytes(alpn@[j]@),
        decreases alpn@.len() - i,
    {
        r.push(alpn[i].as_str().as_bytes_vec());
        i = i + 1;
    }
    proof {
        assert forall|j: int|
            0 <= j < alpn@.len() implies #[trigger] r.deep_view()[j]
            == crate::config::str_bytes(alpn@[j]@) by {
            assert(r.deep_view()[j] == r@[j].deep_view());
            assert(r@[j].deep_view() =~= r@[j]@);
        }
        assert(r.deep_view() =~= Seq::new(
            alpn@.len(),
            |i: int| crate::config::str_bytes(alpn@[i]@),
        ));
    }
    r
}

} // verus!
