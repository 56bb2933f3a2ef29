use vstd::prelude::*;

use crate::address::addr_encoded;
use crate::address::spec_decode;
use crate::address::AddrModel;
use crate::address::MixAddrType;
use crate::error::ParserError;
use crate::handshake::handshake_frame;
use crate::handshake::CMD_CONNECT;

verus! {

/// What the server does with a connection after inspecting the first
/// plaintext bytes.
pub enum AuthDecision {
    /// Too few bytes to decide: await at least this many more (the
    /// authentication timer bounds the wait).
    NeedMore(usize),
    /// A credential matched and the handshake is well-formed: connect to the
    /// target; the relayed payload starts at this offset of the input.
    Direct(MixAddrType, usize),
    /// No credential matched or the handshake is malformed: splice the input,
    /// untouched, to the fallback origin and never send a Trojan reply.
    Fallback,
}

/// Abstract form of an `AuthDecision`.
pub enum AuthDecisionModel {
    NeedMore(int),
    Direct(AddrModel, int),
    Fallback,
}

/// Whether the first 56 input bytes equal one of the accepted credentials.
pub open spec fn cred_match(s: Seq<u8>, creds: Seq<Seq<u8>>) -> bool {
    exists|i: int| 0 <= i < creds.len() && creds[i] == s.take(56)
}

/// The server-side handshake decision on input prefix `s` with accepted
/// credential set `creds`: wait for the 58-byte credential line, match it
/// byte-wise against the set, then demand CRLF, the CONNECT command, a
/// well-formed address and a final CRLF; any violation beyond a plain
/// shortage of bytes routes the connection to the fallback.
pub open spec fn auth_model(s: Seq<u8>, creds: Seq<Seq<u8>>) -> AuthDecisionModel {
    if s.len() < 58 {
        AuthDecisionModel::NeedMore(58 - s.len())
    } else if !cred_match(s, creds) {
        AuthDecisionModel::Fallback
    } else if s[56] != 13 || s[57] != 10 {
        AuthDecisionModel::Fallback
    } else if s.len() < 59 {
        AuthDecisionModel::NeedMore(1)
    } else if s[58] != CMD_CONNECT {
        AuthDecisionModel::Fallback
    } else {
        match spec_decode(s.skip(59)) {
            Ok((a, n)) => {
                if s.len() < 61 + n {
                    AuthDecisionModel::NeedMore(61 + n - s.len())
                } else if s[59 + n] == 13 && s[60 + n] == 10 {
                    AuthDecisionModel::Direct(a, 61 + n)
                } else {
                    AuthDecisionModel::Fallback
                }
            },
            Err(ParserError::Incomplete(k)) => AuthDecisionModel::NeedMore(k as int),
            Err(ParserError::Invalid) => AuthDecisionModel::Fallback,
        }
    }
}

/// Decides the fate of a server-side connection from the bytes read so far,
/// exactly as `auth_model` describes. The input is never altered and no
/// reply is produced: a mis-authenticated peer can only observe what the
/// fallback origin would show it.
pub fn authenticate(buf: &[u8], creds: &Vec<Vec<u8>>) -> (r: AuthDecision)
    ensures
        match r {
            AuthDecision::NeedMore(k) => auth_model(buf@, creds.deep_view())
                == AuthDecisionModel::NeedMore(k as int) && k >= 1,
            AuthDecision::Direct(a, off) => auth_model(buf@, creds.deep_view())
                == AuthDecisionModel::Direct(a@, off as int) && a.wf() && off <= buf@.len(),
            AuthDecision::Fallback => auth_model(buf@, creds.deep_view())
                == AuthDecisionModel::Fallback,
        },
{
    let len = buf.len();
    if len < 58 {
        return AuthDecision::NeedMore(58 - len);
    }
    if !cred_lookup(buf, creds) {
        return AuthDecision::Fallback;
    }
    if buf[56] != 13 || buf[57] != 10 {
        return AuthDecision::Fallback;
    }
    if len < 59 {
        return AuthDecision::NeedMore(1);
    }
    if buf[58] != CMD_CONNECT {
        return AuthDecision::Fallback;
    }
    let tail = &buf[59..len];
    proof {
        assert(tail@ =~= buf@.skip(59));
    }
    match MixAddrType::decode(tail) {
        Ok((a, n)) => {
            if len - 59 < n + 2 {
                AuthDecision::NeedMore(n + 2 - (len - 59))
            } else if buf[59 + n] == 13 && buf[60 + n] == 10 {
                proof {
                    assert(buf@[59 + n] == buf@.skip(59)[n as int]);
                }
                AuthDecision::Direct(a, 61 + n)
            } else {
                AuthDecision::Fallback
            }
        },
        Err(ParserError::Incomplete(k)) => AuthDecision::NeedMore(k),
        Err(ParserError::Invalid) => AuthDecision::Fallback,
    }
}

/// Whether the 56-byte prefix of `buf` equals one of the credentials.
fn cred_lookup(buf: &[u8], creds: &Vec<Vec<u8>>) -> (r: bool)
    requires
        buf@.len() >= 56,
    ensures
        r == cred_match(buf@, creds.deep_view()),
{
    let mut i: usize = 0;
    while i < creds.len()
        invariant
            buf@.len() >= 56,
            0 <= i <= creds@.len(),
            creds.deep_view().len() == creds@.len(),
            forall|j: int| 0 <= j < i ==> creds.deep_view()[j] != buf@.take(56),
        decreases creds@.len() - i,
    {
        proof {
            assert(creds.deep_view()[i as int] == creds@[i as int]@);
        }
        if cred_eq_prefix(buf, &creds[i]) {
            return true;
        }
        i = i + 1;
    }
    false
}

/// Whether `cred` equals the first 56 bytes of `buf`.
fn cred_eq_prefix(buf: &[u8], cred: &Vec<u8>) -> (r: bool)
    requires
        buf@.len() >= 56,
    ensures
        r == (cred@ == buf@.take(56)),
{
    if cred.len() != 56 {
        return false;
    }
    let mut j: usize = 0;
    while j < 56
        invariant
            buf@.len() >= 56,
            cred@.len() == 56,
            0 <= j <= 56,
            forall|k: int| 0 <= k < j ==> cred@[k] == buf@.take(56)[k],
        decreases 56 - j,
    {
        if cred[j] != buf[j] {
            proof {
                assert(buf@.take(56)[j as int] == buf@[j as int]);
            }
            return false;
        }
        j = j + 1;
    }
    proof {
        assert(cred@ =~= buf@.take(56));
    }
    true
}

/// Law: a handshake built by the client authenticates. For any well-formed
/// target address, any payload and any 56-byte credential the server
/// accepts, the server-side decision on the client's frame is `Direct` at
/// the target, and the payload offset marks exactly the pre-read bytes.
pub proof fn lemma_handshake_authenticates(
    hash: Seq<u8>,
    a: AddrModel,
    pre: Seq<u8>,
    creds: Seq<Seq<u8>>,
)
    requires
        crate::address::addr_wf(a),
        hash.len() == 56,
        exists|i: int| 0 <= i < creds.len() && creds[i] == hash,
    ensures
        auth_model(handshake_frame(hash, a, pre), creds) == AuthDecisionModel::Direct(
            a,
            61 + addr_encoded(a).len() as int,
        ),
        handshake_frame(hash, a, pre).skip(61 + addr_encoded(a).len() as int) == pre,
{
    let s = handshake_frame(hash, a, pre);
    let enc = addr_encoded(a);
    let n = enc.len() as int;
    assert(s.len() == 61 + n + pre.len());
    assert(s.take(56) =~= hash);
    assert(cred_match(s, creds));
    assert(s[56] == 13 && s[57] == 10 && s[58] == CMD_CONNECT);
    assert(s.skip(59) =~= enc + (seq![13u8, 10u8] + pre));
    crate::address::lemma_decode_extension(a, seq![13u8, 10u8] + pre);
    assert(spec_decode(s.skip(59)) == Ok::<(AddrModel, int), ParserError>((a, n)));
    assert(s[59 + n] == 13 && s[60 + n] == 10);
    assert(s.skip(61 + n) =~= pre);
}

/// Law: the target survives the whole pipeline. Whatever address the
/// client-side SOCKS5 parser accepted, the handshake built for it makes a
/// server holding the credential connect to exactly that address, and the
/// payload the server relays is exactly the client's pre-read.
pub proof fn lemma_socks5_target_reaches_server(
    s: Seq<u8>,
    a: AddrModel,
    n: int,
    hash: Seq<u8>,
    pre: Seq<u8>,
    creds: Seq<Seq<u8>>,
)
    requires
        crate::socks5::request_model(s) == crate::socks5::RequestModel::Accepted(a, n),
        hash.len() == 56,
        exists|i: int| 0 <= i < creds.len() && creds[i] == hash,
    ensures
        auth_model(handshake_frame(hash, a, pre), creds) == AuthDecisionModel::Direct(
            a,
            61 + addr_encoded(a).len() as int,
        ),
        handshake_frame(hash, a, pre).skip(61 + addr_encoded(a).len() as int) == pre,
{
    crate::address::lemma_decode_encodes(s.skip(3), a, n - 3);
    lemma_handshake_authenticates(hash, a, pre, creds);
}

/// Law: without a matching credential the server never connects anywhere on
/// the peer's behalf and never replies; once enough bytes are in, the
/// decision is always the silent fallback.
pub proof fn lemma_no_credential_no_direct(s: Seq<u8>, creds: Seq<Seq<u8>>)
    requires
        s.len() >= 58,
        !cred_match(s, creds),
    ensures
        auth_model(s, creds) == AuthDecisionModel::Fallback,
{
}

} // verus!
