use vstd::prelude::*;

use crate::address::spec_decode;
use crate::address::AddrModel;
use crate::address::MixAddrType;
use crate::error::ParserError;
use crate::handshake::CMD_CONNECT;

verus! {

/// The SOCKS protocol version this proxy speaks.
pub const SOCKS_VERSION: u8 = 5;

/// METHOD code for "no authentication required".
pub const METHOD_NO_AUTH: u8 = 0;

/// Outcome of parsing the SOCKS5 greeting `VER | NMETHODS | METHODS`.
pub enum GreetingResult {
    /// At least this many more bytes are needed.
    NeedMore(usize),
    /// Wrong protocol version: close without a reply.
    Invalid,
    /// The client does not offer NO-AUTH: reply `05 FF` and close.
    NoAcceptable(usize),
    /// NO-AUTH accepted: reply `05 00`; this many bytes were consumed.
    Accepted(usize),
}

/// Abstract form of a `GreetingResult`.
pub enum GreetingModel {
    NeedMore(int),
    Invalid,
    NoAcceptable(int),
    Accepted(int),
}

/// Whether the greeting's method list (`n` methods from offset 2) offers
/// NO-AUTH.
pub open spec fn offers_no_auth(s: Seq<u8>, n: int) -> bool {
    exists|i: int| 2 <= i < 2 + n && s[i] == METHOD_NO_AUTH
}

/// What the SOCKS5 greeting bytes mean: version check first (a wrong version
/// is rejected as soon as it is seen), then the full method list must be in,
/// then NO-AUTH must be among the offered methods.
pub open spec fn greeting_model(s: Seq<u8>) -> GreetingModel {
    if s.len() < 1 {
        GreetingModel::NeedMore(1)
    } else if s[0] != SOCKS_VERSION {
        GreetingModel::Invalid
    } else if s.len() < 2 {
        GreetingModel::NeedMore(1)
    } else if s.len() < 2 + s[1] {
        GreetingModel::NeedMore(2 + s[1] - s.len())
    } else if offers_no_auth(s, s[1] as int) {
        GreetingModel::Accepted(2 + s[1])
    } else {
        GreetingModel::NoAcceptable(2 + s[1])
    }
}

/// Parses the SOCKS5 greeting from the bytes accumulated so far, exactly as
/// `greeting_model` describes. Stateless, so it can be re-invoked on the
/// grown buffer after every read.
pub fn parse_greeting(buf: &[u8]) -> (r: GreetingResult)
    ensures
        match r {
            GreetingResult::NeedMore(k) => greeting_model(buf@) == GreetingModel::NeedMore(
                k as int,
            ) && k >= 1,
            GreetingResult::Invalid => greeting_model(buf@) == GreetingModel::Invalid,
            GreetingResult::NoAcceptable(n) => greeting_model(buf@) == GreetingModel::NoAcceptable(
                n as int,
            ) && n <= buf@.len(),
            GreetingResult::Accepted(n) => greeting_model(buf@) == GreetingModel::Accepted(n as int)
                && n <= buf@.len(),
        },
{
    let len = buf.len();
    if len < 1 {
        return GreetingResult::NeedMore(1);
    }
    if buf[0] != SOCKS_VERSION {
        return GreetingResult::Invalid;
    }
    if len < 2 {
        return GreetingResult::NeedMore(1);
    }
    let n = buf[1] as usize;
    if len < 2 + n {
        return GreetingResult::NeedMore(2 + n - len);
    }
    let mut i: usize = 2;
    while i < 2 + n
        invariant
            2 + n <= buf@.len(),
            n <= 255,
            buf@[0] == SOCKS_VERSION,
            buf@[1] == n,
            2 <= i <= 2 + n,
            forall|j: int| 2 <= j < i ==> buf@[j] != METHOD_NO_AUTH,
        decreases 2 + n - i,
    {
        if buf[i] == METHOD_NO_AUTH {
            return GreetingResult::Accepted(2 + n);
        }
        i = i + 1;
    }
    GreetingResult::NoAcceptable(2 + n)
}

/// Outcome of parsing the SOCKS5 request
/// `VER | CMD | RSV | ATYP | DST.ADDR | DST.PORT`.
pub enum RequestResult {
    /// At least this many more bytes are needed.
    NeedMore(usize),
    /// Protocol violation: close without a reply.
    Invalid,
    /// A command other than CONNECT: reply with code 7 and close.
    Unsupported,
    /// CONNECT accepted: the target address, and how many bytes the request
    /// consumed.
    Accepted(MixAddrType, usize),
}

/// Abstract form of a `RequestResult`.
pub enum RequestModel {
    NeedMore(int),
    Invalid,
    Unsupported,
    Accepted(AddrModel, int),
}

/// What the SOCKS5 request bytes mean: version, then CONNECT as the only
/// supported command, a zero reserved byte, and the address in the same wire
/// form as the Trojan handshake body.
pub open spec fn request_model(s: Seq<u8>) -> RequestModel {
    if s.len() < 1 {
        RequestModel::NeedMore(1)
    } else if s[0] != SOCKS_VERSION {
        RequestModel::Invalid
    } else if s.len() < 4 {
        RequestModel::NeedMore(4 - s.len())
    } else if s[1] != CMD_CONNECT {
        RequestModel::Unsupported
    } else if s[2] != 0 {
        RequestModel::Invalid
    } else {
        match spec_decode(s.skip(3)) {
            Ok((a, n)) => RequestModel::Accepted(a, 3 + n),
            Err(ParserError::Incomplete(k)) => RequestModel::NeedMore(k as int),
            Err(ParserError::Invalid) => RequestModel::Invalid,
        }
    }
}

/// Parses the SOCKS5 request from the bytes accumulated so far, exactly as
/// `request_model` describes. Stateless and resumable like `parse_greeting`.
pub fn parse_request(buf: &[u8]) -> (r: RequestResult)
    ensures
        match r {
            RequestResult::NeedMore(k) => request_model(buf@) == RequestModel::NeedMore(k as int)
                && k >= 1,
            RequestResult::Invalid => request_model(buf@) == RequestModel::Invalid,
            RequestResult::Unsupported => request_model(buf@) == RequestModel::Unsupported,
            RequestResult::Accepted(a, n) => request_model(buf@) == RequestModel::Accepted(
                a@,
                n as int,
            ) && a.wf() && n <= buf@.len(),
        },
{
    let len = buf.len();
    if len < 1 {
        return RequestResult::NeedMore(1);
    }
    if buf[0] != SOCKS_VERSION {
        return RequestResult::Invalid;
    }
    if len < 4 {
        return RequestResult::NeedMore(4 - len);
    }
    if buf[1] != CMD_CONNECT {
        return RequestResult::Unsupported;
    }
    if buf[2] != 0 {
        return RequestResult::Invalid;
    }
    let tail = &buf[3..len];
    proof {
        assert(tail@ =~= buf@.skip(3));
    }
    match MixAddrType::decode(tail) {
        Ok((a, n)) => RequestResult::Accepted(a, 3 + n),
        Err(ParserError::Incomplete(k)) => RequestResult::NeedMore(k),
        Err(ParserError::Invalid) => RequestResult::Invalid,
    }
}

/// The missing-byte count of a `NeedMore` request outcome; -1 otherwise.
pub open spec fn request_missing(m: RequestModel) -> int {
    match m {
        RequestModel::NeedMore(k) => k,
        _ => -1,
    }
}

/// The missing-byte count of a `NeedMore` greeting outcome; -1 otherwise.
pub open spec fn greeting_missing(m: GreetingModel) -> int {
    match m {
        GreetingModel::NeedMore(k) => k,
        _ => -1,
    }
}

/// Law: the SOCKS5 greeting parser is resumable. While a greeting that will
/// be answered (accepted or refused over its method list) is still short,
/// every prefix asks for more bytes without overshooting the greeting's
/// length; once the greeting is in, longer buffers parse the same.
pub proof fn lemma_greeting_incremental(s: Seq<u8>, i: int, n: int)
    requires
        0 <= i <= s.len(),
        greeting_model(s) == GreetingModel::Accepted(n) || greeting_model(s)
            == GreetingModel::NoAcceptable(n),
    ensures
        i < n ==> 1 <= greeting_missing(greeting_model(s.take(i))) && i + greeting_missing(
            greeting_model(s.take(i)),
        ) <= n,
        i >= n ==> greeting_model(s.take(i)) == greeting_model(s),
{
    let t = s.take(i);
    assert(forall|j: int| 0 <= j < i ==> t[j] == s[j]);
    assert(n == 2 + s[1]);
    if i >= n {
        if offers_no_auth(s, s[1] as int) {
            let w = choose|w: int| 2 <= w < 2 + s[1] && s[w] == METHOD_NO_AUTH;
            assert(t[w] == METHOD_NO_AUTH);
            assert(offers_no_auth(t, t[1] as int));
        } else {
            assert(forall|w: int| 2 <= w < 2 + t[1] ==> t[w] != METHOD_NO_AUTH);
        }
    }
}

/// Law: the SOCKS5 request parser is resumable. Every strict prefix of an
/// accepted request asks for more bytes with a count that never overshoots
/// the request's length, and any extension of an accepted request parses the
/// same: feeding the handshake one byte at a time ends in the one-shot parse.
pub proof fn lemma_request_incremental(s: Seq<u8>, i: int, a: AddrModel, n: int)
    requires
        0 <= i <= s.len(),
        request_model(s) == RequestModel::Accepted(a, n),
    ensures
        i < n ==> 1 <= request_missing(request_model(s.take(i))) && i + request_missing(
            request_model(s.take(i)),
        ) <= n,
        i >= n ==> request_model(s.take(i)) == request_model(s),
{
    let t = s.take(i);
    assert(forall|j: int| 0 <= j < i ==> t[j] == s[j]);
    let body = s.skip(3);
    let m = (n - 3) as int;
    let dec = spec_decode(body);
    assert(dec == Ok::<(AddrModel, int), ParserError>((a, m)));
    crate::address::lemma_decode_encodes(body, a, m);
    assert(crate::address::addr_encoded(a) == body.take(m));
    if i < n {
        if i >= 4 {
            assert(t.skip(3) =~= body.take(i - 3));
            assert(body.take(i - 3) =~= crate::address::addr_encoded(a).take(i - 3));
            crate::address::lemma_decode_prefix_incomplete(a, i - 3);
            assert(request_missing(request_model(t)) == crate::address::missing_bytes(
                spec_decode(t.skip(3)),
            ));
        }
    } else {
        assert(t.skip(3) =~= crate::address::addr_encoded(a) + body.skip(m).take(i - n));
        crate::address::lemma_decode_extension(a, body.skip(m).take(i - n));
    }
}

/// The greeting reply selecting NO-AUTH: `05 00`.
pub fn greeting_reply_ok() -> (r: Vec<u8>)
    ensures
        r@ == seq![SOCKS_VERSION, METHOD_NO_AUTH],
{
    let mut v: Vec<u8> = Vec::new();
    v.push(SOCKS_VERSION);
    v.push(METHOD_NO_AUTH);
    proof {
        assert(v@ =~= seq![SOCKS_VERSION, METHOD_NO_AUTH]);
    }
    v
}

/// The greeting reply when NO-AUTH is not offered: `05 FF`.
pub fn greeting_reply_no_acceptable() -> (r: Vec<u8>)
    ensures
        r@ == seq![SOCKS_VERSION, 255u8],
{
    let mut v: Vec<u8> = Vec::new();
    v.push(SOCKS_VERSION);
    v.push(255);
    proof {
        assert(v@ =~= seq![SOCKS_VERSION, 255u8]);
    }
    v
}

/// A full SOCKS5 reply with the given reply code and an all-zero IPv4 bound
/// address (the bound address is unused): `05 code 00 01 0.0.0.0 0`.
/// Code 0 accepts a CONNECT, code 5 reports general failure, code 7 reports
/// an unsupported command.
pub fn request_reply(code: u8) -> (r: Vec<u8>)
    ensures
        r@ == seq![SOCKS_VERSION, code, 0u8, 1u8, 0u8, 0u8, 0u8, 0u8, 0u8, 0u8],
{
    let mut v: Vec<u8> = Vec::new();
    v.push(SOCKS_VERSION);
    v.push(code);
    v.push(0);
    v.push(1);
    v.push(0);
    v.push(0);
    v.push(0);
    v.push(0);
    v.push(0);
    v.push(0);
    proof {
        assert(v@ =~= seq![SOCKS_VERSION, code, 0u8, 1u8, 0u8, 0u8, 0u8, 0u8, 0u8, 0u8]);
    }
    v
}

} // verus!
