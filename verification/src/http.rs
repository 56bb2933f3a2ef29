use vstd::prelude::*;

use crate::address::http_host_model;
use crate::address::is_ws_byte;
use crate::address::AddrModel;
use crate::address::MixAddrType;
use crate::error::ParserError;
use vstd::string::StringSliceAdditionalSpecFns;

verus! {

/// First index at or after `i` whose byte satisfies `p`; the length when no
/// such byte exists.
pub open spec fn find_byte_from(s: Seq<u8>, i: int, p: spec_fn(u8) -> bool) -> int
    decreases s.len() - i,
{
    if i < 0 || i >= s.len() {
        s.len() as int
    } else if p(s[i]) {
        i
    } else {
        find_byte_from(s, i + 1, p)
    }
}

proof fn lemma_find_byte_skip(s: Seq<u8>, a: int, b: int, p: spec_fn(u8) -> bool)
    requires
        0 <= a <= b <= s.len(),
        forall|j: int| a <= j < b ==> !p(s[j]),
    ensures
        find_byte_from(s, a, p) == find_byte_from(s, b, p),
    decreases b - a,
{
    if a < b {
        lemma_find_byte_skip(s, a + 1, b, p);
    }
}

proof fn lemma_find_byte_char(s: Seq<u8>, i: int, p: spec_fn(u8) -> bool)
    requires
        0 <= i <= s.len(),
    ensures
        i <= find_byte_from(s, i, p) <= s.len(),
        find_byte_from(s, i, p) < s.len() ==> p(s[find_byte_from(s, i, p)]),
        forall|j: int| i <= j < find_byte_from(s, i, p) ==> !p(s[j]),
    decreases s.len() - i,
{
    if i < s.len() && !p(s[i]) {
        lemma_find_byte_char(s, i + 1, p);
    }
}

/// The byte predicates the parser scans with, as named values so that
/// contracts and code apply the very same functions.
pub open spec fn space_pred() -> spec_fn(u8) -> bool {
    |b: u8| b == 32
}

pub open spec fn non_space_pred() -> spec_fn(u8) -> bool {
    |b: u8| b != 32
}

pub open spec fn nl_pred() -> spec_fn(u8) -> bool {
    |b: u8| b == 10
}

pub open spec fn colon_pred() -> spec_fn(u8) -> bool {
    |b: u8| b == 58
}

/// A byte that ends the authority token of a request line: space, `/`, CR.
pub open spec fn host_end_pred() -> spec_fn(u8) -> bool {
    |b: u8| b == 32 || b == 47 || b == 13
}

pub open spec fn non_ws_pred() -> spec_fn(u8) -> bool {
    |b: u8| !is_ws_byte(b)
}

/// An end-of-headers marker (`CRLF CRLF`) sits at index `i`.
pub open spec fn crlf2_at(s: Seq<u8>, i: int) -> bool {
    &&& 0 <= i
    &&& i + 4 <= s.len()
    &&& s[i] == 13
    &&& s[i + 1] == 10
    &&& s[i + 2] == 13
    &&& s[i + 3] == 10
}

/// First index at or after `i` where `CRLF CRLF` sits; -1 when absent.
pub open spec fn find_crlf2_from(s: Seq<u8>, i: int) -> int
    decreases s.len() - i,
{
    if i < 0 || i + 4 > s.len() {
        -1
    } else if crlf2_at(s, i) {
        i
    } else {
        find_crlf2_from(s, i + 1)
    }
}

proof fn lemma_find_crlf2_skip(s: Seq<u8>, a: int, b: int)
    requires
        0 <= a <= b <= s.len(),
        forall|j: int| a <= j < b ==> !crlf2_at(s, j),
    ensures
        find_crlf2_from(s, a) == find_crlf2_from(s, b),
    decreases b - a,
{
    if a < b {
        lemma_find_crlf2_skip(s, a + 1, b);
    }
}

proof fn lemma_find_crlf2_char(s: Seq<u8>, i: int)
    requires
        0 <= i,
    ensures
        find_crlf2_from(s, i) >= 0 ==> i <= find_crlf2_from(s, i) && crlf2_at(
            s,
            find_crlf2_from(s, i),
        ),
        find_crlf2_from(s, i) < 0 ==> forall|j: int| j >= i ==> !crlf2_at(s, j),
        forall|j: int| i <= j < find_crlf2_from(s, i) ==> !crlf2_at(s, j),
    decreases s.len() - i,
{
    if i + 4 <= s.len() && !crlf2_at(s, i) {
        lemma_find_crlf2_char(s, i + 1);
    }
}

/// Finds the end-of-headers marker, per `find_crlf2_from`.
fn find_crlf2_exec(buf: &[u8]) -> (r: Option<usize>)
    ensures
        match r {
            Some(e) => find_crlf2_from(buf@, 0) == e && crlf2_at(buf@, e as int),
            None => find_crlf2_from(buf@, 0) == -1,
        },
{
    let len = buf.len();
    if len < 4 {
        proof {
            lemma_find_crlf2_char(buf@, 0);
        }
        return None;
    }
    let mut i: usize = 0;
    while i <= len - 4
        invariant
            len == buf@.len(),
            4 <= len,
            0 <= i <= len - 3,
            forall|j: int| 0 <= j < i ==> !crlf2_at(buf@, j),
        decreases len - i,
    {
        if buf[i] == 13 && buf[i + 1] == 10 && buf[i + 2] == 13 && buf[i + 3] == 10 {
            proof {
                lemma_find_crlf2_skip(buf@, 0, i as int);
            }
            return Some(i);
        }
        proof {
            assert(!crlf2_at(buf@, i as int));
        }
        i = i + 1;
    }
    proof {
        lemma_find_crlf2_skip(buf@, 0, i as int);
        lemma_find_crlf2_char(buf@, i as int);
    }
    None
}

/// Finds the first space at or after `from`, per `find_byte_from` with
/// `space_pred`.
fn find_space_exec(buf: &[u8], from: usize) -> (r: usize)
    requires
        from <= buf@.len(),
    ensures
        r == find_byte_from(buf@, from as int, space_pred()),
        from <= r <= buf@.len(),
        r < buf@.len() ==> buf@[r as int] == 32,
        forall|j: int| from <= j < r ==> buf@[j] != 32,
{
    let len = buf.len();
    let mut i: usize = from;
    while i < len
        invariant
            len == buf@.len(),
            from <= i <= len,
            forall|j: int| from <= j < i ==> buf@[j] != 32,
        decreases len - i,
    {
        if buf[i] == 32 {
            proof {
                lemma_find_byte_skip(buf@, from as int, i as int, space_pred());
            }
            return i;
        }
        i = i + 1;
    }
    proof {
        lemma_find_byte_skip(buf@, from as int, i as int, space_pred());
    }
    len
}

/// Finds the first non-space at or after `from`, per `find_byte_from` with
/// `non_space_pred`.
fn find_non_space_exec(buf: &[u8], from: usize) -> (r: usize)
    requires
        from <= buf@.len(),
    ensures
        r == find_byte_from(buf@, from as int, non_space_pred()),
        from <= r <= buf@.len(),
{
    let len = buf.len();
    let mut i: usize = from;
    while i < len
        invariant
            len == buf@.len(),
            from <= i <= len,
            forall|j: int| from <= j < i ==> buf@[j] == 32,
        decreases len - i,
    {
        if buf[i] != 32 {
            proof {
                lemma_find_byte_skip(buf@, from as int, i as int, non_space_pred());
            }
            return i;
        }
        i = i + 1;
    }
    proof {
        lemma_find_byte_skip(buf@, from as int, i as int, non_space_pred());
    }
    len
}

/// Finds the first newline at or after `from`, per `find_byte_from` with
/// `nl_pred`.
fn find_nl_exec(buf: &[u8], from: usize) -> (r: usize)
    requires
        from <= buf@.len(),
    ensures
        r == find_byte_from(buf@, from as int, nl_pred()),
        from <= r <= buf@.len(),
{
    let len = buf.len();
    let mut i: usize = from;
    while i < len
        invariant
            len == buf@.len(),
            from <= i <= len,
            forall|j: int| from <= j < i ==> buf@[j] != 10,
        decreases len - i,
    {
        if buf[i] == 10 {
            proof {
                lemma_find_byte_skip(buf@, from as int, i as int, nl_pred());
            }
            return i;
        }
        i = i + 1;
    }
    proof {
        lemma_find_byte_skip(buf@, from as int, i as int, nl_pred());
    }
    len
}

/// Finds the first colon at or after `from`, per `find_byte_from` with
/// `colon_pred`.
fn find_colon_exec(buf: &[u8], from: usize) -> (r: usize)
    requires
        from <= buf@.len(),
    ensures
        r == find_byte_from(buf@, from as int, colon_pred()),
        from <= r <= buf@.len(),
{
    let len = buf.len();
    let mut i: usize = from;
    while i < len
        invariant
            len == buf@.len(),
            from <= i <= len,
            forall|j: int| from <= j < i ==> buf@[j] != 58,
        decreases len - i,
    {
        if buf[i] == 58 {
            proof {
                lemma_find_byte_skip(buf@, from as int, i as int, colon_pred());
            }
            return i;
        }
        i = i + 1;
    }
    proof {
        lemma_find_byte_skip(buf@, from as int, i as int, colon_pred());
    }
    len
}

/// Finds the end of the authority token (space, `/` or CR) at or after
/// `from`, per `find_byte_from` with `host_end_pred`.
fn find_host_end_exec(buf: &[u8], from: usize) -> (r: usize)
    requires
        from <= buf@.len(),
    ensures
        r == find_byte_from(buf@, from as int, host_end_pred()),
        from <= r <= buf@.len(),
{
    let len = buf.len();
    let mut i: usize = from;
    while i < len
        invariant
            len == buf@.len(),
            from <= i <= len,
            forall|j: int| from <= j < i ==> buf@[j] != 32 && buf@[j] != 47 && buf@[j] != 13,
        decreases len - i,
    {
        let b = buf[i];
        if b == 32 || b == 47 || b == 13 {
            proof {
                lemma_find_byte_skip(buf@, from as int, i as int, host_end_pred());
            }
            return i;
        }
        i = i + 1;
    }
    proof {
        lemma_find_byte_skip(buf@, from as int, i as int, host_end_pred());
    }
    len
}

/// The byte of `b` with an ASCII capital letter folded to lowercase.
pub open spec fn ascii_lower(b: u8) -> u8 {
    if 65 <= b && b <= 90 {
        (b + 32) as u8
    } else {
        b
    }
}

/// Largest index at or before `i` holding a non-whitespace byte; -1 if none.
pub open spec fn rskip_ws(s: Seq<u8>, i: int) -> int
    decreases i + 1,
{
    if i < 0 || i >= s.len() {
        -1
    } else if !is_ws_byte(s[i]) {
        i
    } else {
        rskip_ws(s, i - 1)
    }
}

/// `s` with ASCII whitespace removed from both ends.
pub open spec fn trim_of(s: Seq<u8>) -> Seq<u8> {
    let a = find_byte_from(s, 0, non_ws_pred());
    if a == s.len() {
        Seq::empty()
    } else {
        s.subrange(a, rskip_ws(s, s.len() - 1) + 1)
    }
}

/// The ASCII bytes of the CONNECT method token.
pub open spec fn connect_method() -> Seq<u8> {
    seq![67u8, 79u8, 78u8, 78u8, 69u8, 67u8, 84u8]
}

/// An `http://` scheme prefix (case-insensitive) sits at index `p`.
pub open spec fn has_http_scheme(s: Seq<u8>, p: int) -> bool {
    &&& 0 <= p
    &&& p + 7 <= s.len()
    &&& ascii_lower(s[p]) == 104
    &&& ascii_lower(s[p + 1]) == 116
    &&& ascii_lower(s[p + 2]) == 116
    &&& ascii_lower(s[p + 3]) == 112
    &&& s[p + 4] == 58
    &&& s[p + 5] == 47
    &&& s[p + 6] == 47
}

/// The line beginning at index `i`: up to the next newline, with a trailing
/// CR stripped.
pub open spec fn line_of(s: Seq<u8>, i: int) -> Seq<u8> {
    let e = find_byte_from(s, i, nl_pred());
    let raw = s.subrange(i, e);
    if raw.len() > 0 && raw.last() == 13 {
        raw.drop_last()
    } else {
        raw
    }
}

/// A header line whose trimmed text starts with `host:`, case-insensitive on
/// the field name.
pub open spec fn is_host_line(line: Seq<u8>) -> bool {
    let t = trim_of(line);
    &&& t.len() >= 5
    &&& ascii_lower(t[0]) == 104
    &&& ascii_lower(t[1]) == 111
    &&& ascii_lower(t[2]) == 115
    &&& ascii_lower(t[3]) == 116
    &&& t[4] == 58
}

/// The value of a header line: everything after its first colon, trimmed.
pub open spec fn host_line_value(line: Seq<u8>) -> Seq<u8> {
    let c = find_byte_from(line, 0, colon_pred());
    if c == line.len() {
        Seq::empty()
    } else {
        trim_of(line.subrange(c + 1, line.len() as int))
    }
}

/// Index `i` starts a header line: the header start or right after a newline.
pub open spec fn is_line_start(s: Seq<u8>, i: int) -> bool {
    i == 0 || (0 <= i - 1 < s.len() && s[i - 1] == 10)
}

/// A `Host:` line starting at `i` whose value parses as a target address.
pub open spec fn line_hit(is_https: bool, s: Seq<u8>, i: int) -> bool {
    &&& is_line_start(s, i)
    &&& is_host_line(line_of(s, i))
    &&& http_host_model(is_https, host_line_value(line_of(s, i))) is Ok
}

/// The address from the first `Host:` header at or after index `i` whose
/// value parses; `Invalid` when no line yields one.
pub open spec fn host_from_lines(is_https: bool, s: Seq<u8>, i: int) -> Result<
    AddrModel,
    ParserError,
>
    decreases s.len() - i,
{
    if !(0 <= i < s.len()) {
        Err(ParserError::Invalid)
    } else if line_hit(is_https, s, i) {
        http_host_model(is_https, host_line_value(line_of(s, i)))
    } else {
        host_from_lines(is_https, s, i + 1)
    }
}

proof fn lemma_host_lines_skip(is_https: bool, s: Seq<u8>, a: int, b: int)
    requires
        0 <= a <= b <= s.len() + 1,
        forall|j: int| a <= j < b ==> !line_hit(is_https, s, j),
    ensures
        host_from_lines(is_https, s, a) == host_from_lines(is_https, s, b),
    decreases b - a,
{
    if a < b {
        lemma_host_lines_skip(is_https, s, a + 1, b);
    }
}

/// What the accumulated inbound bytes mean as an HTTP proxy request:
/// incomplete until the end-of-headers marker is in; then the request line's
/// method decides CONNECT-vs-plain, and the target comes from the request
/// line's authority, or failing that from the first usable `Host:` header.
pub enum HttpModel {
    NeedMore,
    Invalid,
    Complete { is_https: bool, addr: AddrModel, header_len: int },
}

pub open spec fn http_model(s: Seq<u8>) -> HttpModel {
    let e = find_crlf2_from(s, 0);
    if e < 0 {
        HttpModel::NeedMore
    } else {
        let h = s.take(e + 4);
        let sp = find_byte_from(h, 0, space_pred());
        if sp == h.len() {
            HttpModel::Invalid
        } else {
            let is_https = h.take(sp) == connect_method();
            let p = find_byte_from(h, sp + 1, non_space_pred());
            let hs = if !is_https && has_http_scheme(h, p) {
                p + 7
            } else {
                p
            };
            let he = find_byte_from(h, hs, host_end_pred());
            let from_line = if he > hs {
                http_host_model(is_https, h.subrange(hs, he))
            } else {
                Err(ParserError::Invalid)
            };
            match from_line {
                Ok(a) => HttpModel::Complete { is_https, addr: a, header_len: e + 4 },
                Err(_) => match host_from_lines(is_https, h, 0) {
                    Ok(a) => HttpModel::Complete { is_https, addr: a, header_len: e + 4 },
                    Err(_) => HttpModel::Invalid,
                },
            }
        }
    }
}

/// Law: the HTTP parser is resumable. Feeding any prefix of the input (so,
/// feeding a request one byte at a time and re-parsing the accumulated
/// buffer) either still asks for more bytes or yields exactly the one-shot
/// parse of the full input; and while the full input is itself incomplete,
/// so is every prefix.
pub proof fn lemma_http_parse_incremental(s: Seq<u8>, n: int)
    requires
        0 <= n <= s.len(),
    ensures
        http_model(s) is NeedMore ==> http_model(s.take(n)) is NeedMore,
        http_model(s.take(n)) is NeedMore || http_model(s.take(n)) == http_model(s),
{
    let t = s.take(n);
    assert(forall|j: int| 0 <= j < n ==> t[j] == s[j]);
    assert(forall|j: int| crlf2_at(t, j) ==> crlf2_at(s, j));
    let e = find_crlf2_from(s, 0);
    let et = find_crlf2_from(t, 0);
    lemma_find_crlf2_char(s, 0);
    lemma_find_crlf2_char(t, 0);
    if e < 0 {
        if et >= 0 {
            assert(crlf2_at(t, et));
            assert(crlf2_at(s, et));
            assert(false);
        }
    } else {
        if n < e + 4 {
            if et >= 0 {
                assert(crlf2_at(t, et));
                assert(et + 4 <= n);
                assert(crlf2_at(s, et));
                assert(et < e);
                assert(false);
            }
        } else {
            assert(crlf2_at(s, e));
            assert(crlf2_at(t, e));
            if et < 0 {
                assert(false);
            }
            if et < e {
                assert(crlf2_at(t, et));
                assert(crlf2_at(s, et));
                assert(false);
            }
            if et > e {
                assert(!crlf2_at(t, e));
                assert(false);
            }
            assert(et == e);
            assert(t.take(e + 4) =~= s.take(e + 4));
        }
    }
}

/// Resumable parser for inbound HTTP proxy requests. Invoked after every
/// read on the bytes accumulated so far; before the headers are complete it
/// reports `Incomplete` without visible effect, so arbitrary fragmentation
/// is tolerated.
pub struct HttpRequest {
    /// Whether the request is a CONNECT (HTTPS tunnel) request.
    pub is_https: bool,
    /// The parsed target, `Uninit` until `parse` succeeds.
    pub addr: MixAddrType,
    /// Bytes of the input the headers occupy once `parse` succeeds.
    pub cursor: usize,
}

impl HttpRequest {
    /// A parser that has seen nothing yet.
    pub fn new() -> (r: HttpRequest)
        ensures
            !r.is_https,
            r.addr@ is Uninit,
            r.cursor == 0,
    {
        HttpRequest { is_https: false, addr: MixAddrType::Uninit, cursor: 0 }
    }

    /// Parses the bytes accumulated so far, exactly as `http_model`
    /// describes. On `Incomplete` nothing is changed and the caller awaits
    /// more input; on success the fields hold the parse and `cursor` is the
    /// header length.
    pub fn parse(&mut self, buf: &[u8]) -> (r: Result<(), ParserError>)
        ensures
            match r {
                Ok(()) => {
                    &&& http_model(buf@) == (HttpModel::Complete {
                        is_https: final(self).is_https,
                        addr: final(self).addr@,
                        header_len: final(self).cursor as int,
                    })
                    &&& final(self).addr.wf()
                    &&& final(self).cursor <= buf@.len()
                },
                Err(ParserError::Incomplete(k)) => http_model(buf@) is NeedMore && *final(self)
                    == *old(self) && k == 1,
                Err(ParserError::Invalid) => http_model(buf@) is Invalid && *final(self) == *old(
                    self,
                ),
            },
    {
        let len = buf.len();
        let e = match find_crlf2_exec(buf) {
            Some(e) => e,
            None => {
                return Err(ParserError::Incomplete(1));
            },
        };
        proof {
            assert(e + 4 <= len);
        }
        let h = &buf[0..e + 4];
        proof {
            assert(h@ =~= buf@.take(e + 4 as int));
        }
        let hlen = h.len();
        let sp = find_space_exec(h, 0);
        if sp == hlen {
            return Err(ParserError::Invalid);
        }
        let is_https = is_connect_method(h, sp);
        let p = find_non_space_exec(h, sp + 1);
        let hs = if !is_https && has_http_scheme_exec(h, p) {
            p + 7
        } else {
            p
        };
        let he = find_host_end_exec(h, hs);
        if he > hs {
            let token = &h[hs..he];
            proof {
                assert(token@ =~= h@.subrange(hs as int, he as int));
            }
            match MixAddrType::from_http_header(is_https, token) {
                Ok(a) => {
                    self.is_https = is_https;
                    self.addr = a;
                    self.cursor = e + 4;
                    return Ok(());
                },
                Err(_) => {},
            }
        }
        match scan_host_lines(is_https, h) {
            Ok(a) => {
                self.is_https = is_https;
                self.addr = a;
                self.cursor = e + 4;
                Ok(())
            },
            Err(_) => Err(ParserError::Invalid),
        }
    }
}

/// The reply a CONNECT request gets once the tunnel stands, exactly
/// `HTTP/1.1 200 Connection established` and an empty header block.
pub fn connect_established_reply() -> (r: Vec<u8>)
    ensures
        r@ == "HTTP/1.1 200 Connection established\r\n\r\n".spec_bytes(),
{
    let mut v: Vec<u8> = Vec::new();
    v.extend_from_slice("HTTP/1.1 200 Connection established\r\n\r\n".as_bytes());
    proof {
        assert(v@ =~= "HTTP/1.1 200 Connection established\r\n\r\n".spec_bytes());
    }
    v
}

/// The bytes the outbound side must deliver ahead of live copying: nothing
/// for a CONNECT tunnel, the entire received request (request line and
/// headers included) for plain HTTP, so the origin sees it verbatim.
pub fn http_pre_read(is_https: bool, buf: &[u8]) -> (r: Vec<u8>)
    ensures
        is_https ==> r@ == Seq::<u8>::empty(),
        !is_https ==> r@ == buf@,
{
    if is_https {
        Vec::new()
    } else {
        let mut v: Vec<u8> = Vec::new();
        v.extend_from_slice(buf);
        proof {
            assert(v@ =~= buf@);
        }
        v
    }
}

/// Whether the first `sp` bytes of `h` spell CONNECT.
fn is_connect_method(h: &[u8], sp: usize) -> (r: bool)
    requires
        sp <= h@.len(),
    ensures
        r == (h@.take(sp as int) == connect_method()),
{
    if sp != 7 {
        proof {
            assert(h@.take(sp as int).len() != connect_method().len());
        }
        return false;
    }
    let r = h[0] == 67 && h[1] == 79 && h[2] == 78 && h[3] == 78 && h[4] == 69 && h[5] == 67 && h[6]
        == 84;
    proof {
        if r {
            assert(h@.take(7) =~= connect_method());
        } else {
            if h@.take(7) == connect_method() {
                assert(forall|k: int| 0 <= k < 7 ==> h@.take(7)[k] == connect_method()[k]);
                assert(h@[0] == 67 && h@[1] == 79 && h@[2] == 78 && h@[3] == 78 && h@[4] == 69
                    && h@[5] == 67 && h@[6] == 84);
            }
        }
    }
    r
}

/// Whether an `http://` scheme prefix (case-insensitive) sits at index `p`.
fn has_http_scheme_exec(h: &[u8], p: usize) -> (r: bool)
    requires
        p <= h@.len(),
    ensures
        r == has_http_scheme(h@, p as int),
{
    if h.len() - p < 7 {
        return false;
    }
    to_lower(h[p]) == 104 && to_lower(h[p + 1]) == 116 && to_lower(h[p + 2]) == 116 && to_lower(
        h[p + 3],
    ) == 112 && h[p + 4] == 58 && h[p + 5] == 47 && h[p + 6] == 47
}

/// Folds an ASCII capital letter to lowercase.
fn to_lower(b: u8) -> (r: u8)
    ensures
        r == ascii_lower(b),
{
    if 65 <= b && b <= 90 {
        b + 32
    } else {
        b
    }
}

/// Bounds of `s` with ASCII whitespace trimmed from both ends:
/// `trim_of(s@) == s@.subrange(r.0, r.1)`.
fn trim_slice(s: &[u8]) -> (r: (usize, usize))
    ensures
        r.0 <= r.1 <= s@.len(),
        trim_of(s@) == s@.subrange(r.0 as int, r.1 as int),
{
    let len = s.len();
    let a = find_non_ws_exec(s);
    if a == len {
        proof {
            assert(trim_of(s@) =~= s@.subrange(0, 0));
        }
        return (0, 0);
    }
    let z = rskip_ws_exec(s);
    proof {
        lemma_rskip_ws_lb(s@, len - 1, a as int);
    }
    (a, z)
}

/// Index of the first non-whitespace byte of `s`, per `find_byte_from` with
/// `non_ws_pred`; the length when `s` is all whitespace.
fn find_non_ws_exec(s: &[u8]) -> (r: usize)
    ensures
        r == find_byte_from(s@, 0, non_ws_pred()),
        r <= s@.len(),
        r < s@.len() ==> !is_ws_byte(s@[r as int]),
{
    let len = s.len();
    let mut i: usize = 0;
    while i < len
        invariant
            len == s@.len(),
            0 <= i <= len,
            forall|j: int| 0 <= j < i ==> is_ws_byte(s@[j]),
        decreases len - i,
    {
        let b = s[i];
        if !(b == 32 || b == 9 || b == 13 || b == 10) {
            proof {
                lemma_find_byte_skip(s@, 0, i as int, non_ws_pred());
            }
            return i;
        }
        i = i + 1;
    }
    proof {
        lemma_find_byte_skip(s@, 0, i as int, non_ws_pred());
    }
    len
}

/// One past the last non-whitespace byte of `s`:
/// `rskip_ws(s@, len - 1) == r - 1`, with 0 when `s` is all whitespace.
fn rskip_ws_exec(s: &[u8]) -> (r: usize)
    ensures
        r as int - 1 == rskip_ws(s@, s@.len() - 1),
        r <= s@.len(),
{
    let len = s.len();
    let mut z: usize = len;
    while z > 0
        invariant
            len == s@.len(),
            0 <= z <= len,
            rskip_ws(s@, len - 1) == rskip_ws(s@, z - 1),
        decreases z,
    {
        let b = s[z - 1];
        if !(b == 32 || b == 9 || b == 13 || b == 10) {
            return z;
        }
        z = z - 1;
    }
    z
}

proof fn lemma_rskip_ws_lb(s: Seq<u8>, i: int, a: int)
    requires
        0 <= a <= i < s.len(),
        !is_ws_byte(s[a]),
    ensures
        a <= rskip_ws(s, i),
    decreases i,
{
    if i > a && is_ws_byte(s[i]) {
        lemma_rskip_ws_lb(s, i - 1, a);
    }
}

/// Scans the header for the first `Host:` line whose value names a target,
/// per `host_from_lines`.
#[verifier::rlimit(60)]
fn scan_host_lines(is_https: bool, h: &[u8]) -> (r: Result<MixAddrType, ParserError>)
    ensures
        match r {
            Ok(a) => host_from_lines(is_https, h@, 0) == Ok::<AddrModel, ParserError>(a@) && a.wf(),
            Err(_) => host_from_lines(is_https, h@, 0) is Err,
        },
{
    let hlen = h.len();
    let mut i: usize = 0;
    while i < hlen
        invariant
            hlen == h@.len(),
            0 <= i <= hlen,
            host_from_lines(is_https, h@, 0) == host_from_lines(is_https, h@, i as int),
            i < hlen ==> is_line_start(h@, i as int),
        decreases hlen - i,
    {
        let nl = find_nl_exec(h, i);
        proof {
            lemma_find_byte_char(h@, i as int, nl_pred());
        }
        let lend = if nl > i && h[nl - 1] == 13 {
            nl - 1
        } else {
            nl
        };
        let line = &h[i..lend];
        proof {
            assert(line@ =~= h@.subrange(i as int, lend as int));
            if nl > i && h@[nl - 1] == 13 {
                assert(h@.subrange(i as int, nl as int).drop_last() =~= h@.subrange(
                    i as int,
                    lend as int,
                ));
            }
            assert(line_of(h@, i as int) == line@);
        }
        let mut hit: bool = false;
        let (ta, tb) = trim_slice(line);
        if tb - ta >= 5 {
            proof {
                assert(trim_of(line@)[0] == line@[ta as int]);
                assert(trim_of(line@)[1] == line@[ta + 1 as int]);
                assert(trim_of(line@)[2] == line@[ta + 2 as int]);
                assert(trim_of(line@)[3] == line@[ta + 3 as int]);
                assert(trim_of(line@)[4] == line@[ta + 4 as int]);
            }
            hit = to_lower(line[ta]) == 104 && to_lower(line[ta + 1]) == 111 && to_lower(
                line[ta + 2],
            ) == 115 && to_lower(line[ta + 3]) == 116 && line[ta + 4] == 58;
        }
        proof {
            assert(hit == is_host_line(line_of(h@, i as int)));
        }
        if hit {
            let c = find_colon_exec(line, 0);
            proof {
                lemma_find_byte_char(line@, 0, colon_pred());
            }
            let llen = line.len();
            if c == llen {
                proof {
                    assert(host_line_value(line@) =~= line@.subrange(0, 0));
                    assert(line@.subrange(0, 0) =~= Seq::<u8>::empty());
                }
                let empty = &line[0..0];
                proof {
                    assert(empty@ =~= host_line_value(line@));
                }
                match MixAddrType::from_http_header(is_https, empty) {
                    Ok(a) => {
                        return Ok(a);
                    },
                    Err(_) => {},
                }
            } else {
                let rest = &line[c + 1..llen];
                proof {
                    assert(rest@ =~= line@.subrange(c + 1 as int, llen as int));
                }
                let (va, vb) = trim_slice(rest);
                let value = &rest[va..vb];
                proof {
                    assert(value@ =~= rest@.subrange(va as int, vb as int));
                    assert(value@ == host_line_value(line@));
                }
                match MixAddrType::from_http_header(is_https, value) {
                    Ok(a) => {
                        return Ok(a);
                    },
                    Err(_) => {},
                }
            }
        }
        // no usable Host: line starts here; skip to the next line
        if nl < hlen {
            proof {
                assert(!line_hit(is_https, h@, i as int));
                assert(forall|j: int|
                    i < j < nl + 1 ==> !is_line_start(h@, j) && !line_hit(is_https, h@, j));
                lemma_host_lines_skip(is_https, h@, i as int, nl + 1 as int);
            }
            i = nl + 1;
        } else {
            proof {
                assert(!line_hit(is_https, h@, i as int));
                assert(forall|j: int|
                    i < j < hlen ==> !is_line_start(h@, j) && !line_hit(is_https, h@, j));
                lemma_host_lines_skip(is_https, h@, i as int, hlen as int);
            }
            i = hlen;
        }
    }
    proof {
        assert(host_from_lines(is_https, h@, i as int) is Err);
    }
    Err(ParserError::Invalid)
}

} // verus!
