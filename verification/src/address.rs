use vstd::prelude::*;

use crate::error::ParserError;

verus! {

/// Abstract form of a target address: what the codec contracts speak about.
pub enum AddrModel {
    Uninit,
    V4(Seq<u8>, u16),
    V6(Seq<u16>, u16),
    Hostname(Seq<u8>, u16),
}

/// A target address as carried in the Trojan handshake, a SOCKS5 request or
/// an HTTP proxy request: an IPv4 address, an IPv6 address, or a hostname,
/// each with a 16-bit port. `Uninit` is the sentinel for "not yet parsed".
pub enum MixAddrType {
    Uninit,
    V4([u8; 4], u16),
    V6(Vec<u16>, u16),
    Hostname(Vec<u8>, u16),
}

impl View for MixAddrType {
    type V = AddrModel;

    open spec fn view(&self) -> AddrModel {
        match self {
            MixAddrType::Uninit => AddrModel::Uninit,
            MixAddrType::V4(ip, port) => AddrModel::V4(ip@, *port),
            MixAddrType::V6(groups, port) => AddrModel::V6(groups@, *port),
            MixAddrType::Hostname(name, port) => AddrModel::Hostname(name@, *port),
        }
    }
}

/// ASCII whitespace, which a hostname must not contain.
pub open spec fn is_ws_byte(b: u8) -> bool {
    b == 32 || b == 9 || b == 13 || b == 10
}

/// A hostname on the wire: non-empty, at most 255 bytes, no whitespace.
pub open spec fn host_ok(name: Seq<u8>) -> bool {
    &&& 1 <= name.len() <= 255
    &&& forall|i: int| 0 <= i < name.len() ==> !is_ws_byte(#[trigger] name[i])
}

/// A well-formed (fully specified) address: the sentinel is excluded, field
/// widths match the wire format, and hostnames obey their invariant.
pub open spec fn addr_wf(a: AddrModel) -> bool {
    match a {
        AddrModel::Uninit => false,
        AddrModel::V4(ip, _) => ip.len() == 4,
        AddrModel::V6(groups, _) => groups.len() == 8,
        AddrModel::Hostname(name, _) => host_ok(name),
    }
}

/// High byte of a 16-bit value in network (big-endian) order.
pub open spec fn be_hi(p: u16) -> u8 {
    (p as int / 256) as u8
}

/// Low byte of a 16-bit value in network (big-endian) order.
pub open spec fn be_lo(p: u16) -> u8 {
    (p as int % 256) as u8
}

/// The 16-bit value read from two bytes in network (big-endian) order.
pub open spec fn be16(hi: u8, lo: u8) -> u16 {
    (hi as int * 256 + lo as int) as u16
}

/// Big-endian bytes of a sequence of 16-bit groups (IPv6 address body).
pub open spec fn groups_bytes(g: Seq<u16>) -> Seq<u8>
    decreases g.len(),
{
    if g.len() == 0 {
        Seq::empty()
    } else {
        seq![be_hi(g[0]), be_lo(g[0])] + groups_bytes(g.drop_first())
    }
}

/// Address type markers on the wire.
pub const ATYP_V4: u8 = 1;

pub const ATYP_HOST: u8 = 3;

pub const ATYP_V6: u8 = 4;

/// Wire encoding of an address: `atyp | addr | port(2, big-endian)`.
/// Meaningful only for well-formed addresses.
pub open spec fn addr_encoded(a: AddrModel) -> Seq<u8> {
    match a {
        AddrModel::Uninit => Seq::empty(),
        AddrModel::V4(ip, port) => seq![ATYP_V4] + ip + seq![be_hi(port), be_lo(port)],
        AddrModel::V6(groups, port) => seq![ATYP_V6] + groups_bytes(groups) + seq![
            be_hi(port),
            be_lo(port),
        ],
        AddrModel::Hostname(name, port) => seq![ATYP_HOST, name.len() as u8] + name + seq![
            be_hi(port),
            be_lo(port),
        ],
    }
}

proof fn lemma_groups_bytes_len(g: Seq<u16>)
    ensures
        groups_bytes(g).len() == 2 * g.len(),
    decreases g.len(),
{
    if g.len() > 0 {
        lemma_groups_bytes_len(g.drop_first());
    }
}

proof fn lemma_groups_bytes_push(g: Seq<u16>, x: u16)
    ensures
        groups_bytes(g.push(x)) == groups_bytes(g) + seq![be_hi(x), be_lo(x)],
    decreases g.len(),
{
    if g.len() == 0 {
        assert(g.push(x)[0] == x);
        assert(g.push(x).drop_first() =~= Seq::<u16>::empty());
        assert(groups_bytes(Seq::<u16>::empty()) == Seq::<u8>::empty());
        assert(groups_bytes(g.push(x)) =~= groups_bytes(g) + seq![be_hi(x), be_lo(x)]);
    } else {
        assert(g.push(x)[0] == g[0]);
        assert(g.push(x).drop_first() =~= g.drop_first().push(x));
        lemma_groups_bytes_push(g.drop_first(), x);
        assert(groups_bytes(g.push(x)) =~= groups_bytes(g) + seq![be_hi(x), be_lo(x)]);
    }
}

/// Byte read from a group sequence at flat position `i`.
proof fn lemma_groups_bytes_index(g: Seq<u16>, i: int)
    requires
        0 <= i < g.len(),
    ensures
        groups_bytes(g).len() == 2 * g.len(),
        groups_bytes(g)[2 * i] == be_hi(g[i]),
        groups_bytes(g)[2 * i + 1] == be_lo(g[i]),
    decreases g.len(),
{
    lemma_groups_bytes_len(g);
    lemma_groups_bytes_len(g.drop_first());
    if i > 0 {
        lemma_groups_bytes_index(g.drop_first(), i - 1);
    }
}

impl MixAddrType {
    /// Well-formedness of this address (see `addr_wf`).
    pub open spec fn wf(&self) -> bool {
        addr_wf(self@)
    }

    /// The port of a well-formed address.
    pub open spec fn spec_port(&self) -> u16 {
        match self@ {
            AddrModel::Uninit => 0,
            AddrModel::V4(_, port) => port,
            AddrModel::V6(_, port) => port,
            AddrModel::Hostname(_, port) => port,
        }
    }

    /// The port carried by this address; 0 for the sentinel.
    pub fn port(&self) -> (r: u16)
        ensures
            r == self.spec_port(),
    {
        match self {
            MixAddrType::Uninit => 0,
            MixAddrType::V4(_, port) => *port,
            MixAddrType::V6(_, port) => *port,
            MixAddrType::Hostname(_, port) => *port,
        }
    }

    /// Decides well-formedness, so callers can test it before relying on it.
    pub fn valid(&self) -> (r: bool)
        ensures
            r == self.wf(),
    {
        match self {
            MixAddrType::Uninit => false,
            MixAddrType::V4(ip, _) => {
                proof {
                    assert(ip@.len() == 4);
                }
                true
            },
            MixAddrType::V6(groups, _) => groups.len() == 8,
            MixAddrType::Hostname(name, _) => {
                let n = name.len();
                if n < 1 || n > 255 {
                    return false;
                }
                let mut i: usize = 0;
                while i < n
                    invariant
                        n == name@.len(),
                        0 <= i <= n,
                        (match self@ {
                            AddrModel::Hostname(nm, _) => nm == name@,
                            _ => false,
                        }),
                        forall|j: int| 0 <= j < i ==> !is_ws_byte(#[trigger] name@[j]),
                    decreases n - i,
                {
                    let b = name[i];
                    if b == 32 || b == 9 || b == 13 || b == 10 {
                        proof {
                            assert(is_ws_byte(name@[i as int]));
                            assert(!host_ok(name@));
                        }
                        return false;
                    }
                    i = i + 1;
                }
                proof {
                    assert(host_ok(name@));
                }
                true
            },
        }
    }

    /// True for the `Uninit` sentinel.
    pub fn is_uninit(&self) -> (r: bool)
        ensures
            r == (self@ is Uninit),
    {
        match self {
            MixAddrType::Uninit => true,
            _ => false,
        }
    }

    /// Appends the wire encoding `atyp | addr | port(2, BE)` of this address
    /// to `buf`.
    pub fn encode(&self, buf: &mut Vec<u8>)
        requires
            self.wf(),
        ensures
            final(buf)@ == old(buf)@ + addr_encoded(self@),
    {
        match self {
            MixAddrType::Uninit => {
                proof {
                    assert(old(buf)@ + addr_encoded(self@) =~= old(buf)@);
                }
            },
            MixAddrType::V4(ip, port) => {
                buf.push(ATYP_V4);
                buf.push(ip[0]);
                buf.push(ip[1]);
                buf.push(ip[2]);
                buf.push(ip[3]);
                push_port_be(buf, *port);
                proof {
                    assert(final(buf)@ =~= old(buf)@ + addr_encoded(self@));
                }
            },
            MixAddrType::V6(groups, port) => {
                buf.push(ATYP_V6);
                let ghost base = buf@;
                let mut i: usize = 0;
                while i < 8
                    invariant
                        groups@.len() == 8,
                        0 <= i <= 8,
                        buf@ == base + groups_bytes(groups@.take(i as int)),
                    decreases 8 - i,
                {
                    let g = groups[i];
                    buf.push((g / 256) as u8);
                    buf.push((g % 256) as u8);
                    proof {
                        assert(groups@.take(i + 1 as int) =~= groups@.take(i as int).push(
                            groups@[i as int],
                        ));
                        lemma_groups_bytes_push(groups@.take(i as int), groups@[i as int]);
                    }
                    i = i + 1;
                }
                assert(groups@.take(8) =~= groups@);
                push_port_be(buf, *port);
                proof {
                    assert(final(buf)@ =~= old(buf)@ + addr_encoded(self@));
                }
            },
            MixAddrType::Hostname(name, port) => {
                buf.push(ATYP_HOST);
                buf.push(name.len() as u8);
                let mut i: usize = 0;
                let ghost base = buf@;
                while i < name.len()
                    invariant
                        0 <= i <= name@.len(),
                        buf@ == base + name@.take(i as int),
                    decreases name@.len() - i,
                {
                    buf.push(name[i]);
                    proof {
                        assert(name@.take(i + 1 as int) =~= name@.take(i as int).push(
                            name@[i as int],
                        ));
                    }
                    i = i + 1;
                }
                assert(name@.take(name@.len() as int) =~= name@);
                push_port_be(buf, *port);
                proof {
                    assert(final(buf)@ =~= old(buf)@ + addr_encoded(self@));
                }
            },
        }
    }

    /// The wire encoding of this address as a fresh buffer.
    pub fn encoded(&self) -> (r: Vec<u8>)
        requires
            self.wf(),
        ensures
            r@ == addr_encoded(self@),
    {
        let mut buf: Vec<u8> = Vec::new();
        self.encode(&mut buf);
        proof {
            assert(buf@ =~= addr_encoded(self@));
        }
        buf
    }
}

/// What decoding a byte sequence as `atyp | addr | port(2, BE)` yields:
/// the address with the number of bytes consumed, `Incomplete(k)` when at
/// least `k` further bytes are needed, or `Invalid` when no extension of the
/// input can be accepted (unknown `atyp`, empty domain, whitespace in a
/// domain).
pub open spec fn spec_decode(s: Seq<u8>) -> Result<(AddrModel, int), ParserError> {
    if s.len() < 1 {
        Err(ParserError::Incomplete(1))
    } else if s[0] == ATYP_V4 {
        if s.len() < 7 {
            Err(ParserError::Incomplete((7 - s.len()) as usize))
        } else {
            Ok((AddrModel::V4(s.subrange(1, 5), be16(s[5], s[6])), 7))
        }
    } else if s[0] == ATYP_V6 {
        if s.len() < 19 {
            Err(ParserError::Incomplete((19 - s.len()) as usize))
        } else {
            Ok(
                (
                    AddrModel::V6(
                        Seq::new(8, |i: int| be16(s[1 + 2 * i], s[2 + 2 * i])),
                        be16(s[17], s[18]),
                    ),
                    19,
                ),
            )
        }
    } else if s[0] == ATYP_HOST {
        if s.len() < 2 {
            Err(ParserError::Incomplete(1))
        } else if s[1] == 0 {
            Err(ParserError::Invalid)
        } else if s.len() < s[1] + 4 {
            Err(ParserError::Incomplete((s[1] + 4 - s.len()) as usize))
        } else if host_ok(s.subrange(2, 2 + s[1] as int)) {
            Ok(
                (
                    AddrModel::Hostname(
                        s.subrange(2, 2 + s[1] as int),
                        be16(s[2 + s[1] as int], s[3 + s[1] as int]),
                    ),
                    s[1] + 4,
                ),
            )
        } else {
            Err(ParserError::Invalid)
        }
    } else {
        Err(ParserError::Invalid)
    }
}

/// The missing-byte count of an `Incomplete` decode outcome; -1 otherwise.
pub open spec fn missing_bytes(r: Result<(AddrModel, int), ParserError>) -> int {
    match r {
        Err(ParserError::Incomplete(k)) => k as int,
        _ => -1,
    }
}

impl MixAddrType {
    /// Decodes `atyp | addr | port(2, BE)` from the front of `buf`, returning
    /// the address and the number of bytes consumed, exactly as `spec_decode`
    /// describes.
    pub fn decode(buf: &[u8]) -> (r: Result<(MixAddrType, usize), ParserError>)
        ensures
            match r {
                Ok((a, n)) => {
                    &&& spec_decode(buf@) == Ok::<(AddrModel, int), ParserError>((a@, n as int))
                    &&& a.wf()
                    &&& n <= buf@.len()
                },
                Err(e) => spec_decode(buf@) == Err::<(AddrModel, int), ParserError>(e),
            },
    {
        let len = buf.len();
        if len < 1 {
            return Err(ParserError::Incomplete(1));
        }
        let atyp = buf[0];
        if atyp == ATYP_V4 {
            if len < 7 {
                return Err(ParserError::Incomplete(7 - len));
            }
            let ip = [buf[1], buf[2], buf[3], buf[4]];
            let port = read_port_be(buf, 5);
            proof {
                assert(ip@ =~= buf@.subrange(1, 5));
            }
            Ok((MixAddrType::V4(ip, port), 7))
        } else if atyp == ATYP_V6 {
            if len < 19 {
                return Err(ParserError::Incomplete(19 - len));
            }
            let mut groups: Vec<u16> = Vec::new();
            let mut i: usize = 0;
            while i < 8
                invariant
                    buf@.len() >= 19,
                    0 <= i <= 8,
                    groups@.len() == i,
                    forall|j: int|
                        0 <= j < i ==> groups@[j] == be16(buf@[1 + 2 * j], buf@[2 + 2 * j]),
                decreases 8 - i,
            {
                let g = read_port_be(buf, 1 + 2 * i);
                groups.push(g);
                i = i + 1;
            }
            let port = read_port_be(buf, 17);
            proof {
                assert(groups@ =~= Seq::new(8, |j: int| be16(buf@[1 + 2 * j], buf@[2 + 2 * j])));
            }
            Ok((MixAddrType::V6(groups, port), 19))
        } else if atyp == ATYP_HOST {
            if len < 2 {
                return Err(ParserError::Incomplete(1));
            }
            let n = buf[1] as usize;
            if n == 0 {
                return Err(ParserError::Invalid);
            }
            if len < n + 4 {
                return Err(ParserError::Incomplete(n + 4 - len));
            }
            let mut name: Vec<u8> = Vec::new();
            let mut i: usize = 0;
            while i < n
                invariant
                    buf@.len() >= n + 4,
                    buf@[0] == ATYP_HOST,
                    buf@[1] == n,
                    1 <= n <= 255,
                    0 <= i <= n,
                    name@ =~= buf@.subrange(2, 2 + i as int),
                    forall|j: int| 0 <= j < i ==> !is_ws_byte(#[trigger] name@[j]),
                decreases n - i,
            {
                let b = buf[2 + i];
                if b == 32 || b == 9 || b == 13 || b == 10 {
                    proof {
                        assert(buf@.subrange(2, 2 + n as int)[i as int] == buf@[2 + i]);
                        assert(is_ws_byte(buf@.subrange(2, 2 + n as int)[i as int]));
                        assert(!host_ok(buf@.subrange(2, 2 + n as int)));
                    }
                    return Err(ParserError::Invalid);
                }
                name.push(b);
                proof {
                    assert(name@ =~= buf@.subrange(2, 2 + (i + 1) as int));
                }
                i = i + 1;
            }
            let port = read_port_be(buf, 2 + n);
            proof {
                assert(name@ =~= buf@.subrange(2, 2 + n as int));
                assert(host_ok(name@));
            }
            Ok((MixAddrType::Hostname(name, port), n + 4))
        } else {
            Err(ParserError::Invalid)
        }
    }
}

/// Law: the address codec round-trips. Decoding the encoding of any
/// well-formed address yields that address back, consuming the whole
/// encoding.
pub proof fn lemma_addr_round_trip(a: AddrModel)
    requires
        addr_wf(a),
    ensures
        spec_decode(addr_encoded(a)) == Ok::<(AddrModel, int), ParserError>(
            (a, addr_encoded(a).len() as int),
        ),
{
    lemma_decode_extension(a, Seq::empty());
    assert(addr_encoded(a) + Seq::<u8>::empty() =~= addr_encoded(a));
}

/// Law: the decoder never reads past the encoding it consumes. Whatever
/// follows a well-formed address's encoding, decoding yields that address and
/// consumes exactly its encoding.
pub proof fn lemma_decode_extension(a: AddrModel, rest: Seq<u8>)
    requires
        addr_wf(a),
    ensures
        spec_decode(addr_encoded(a) + rest) == Ok::<(AddrModel, int), ParserError>(
            (a, addr_encoded(a).len() as int),
        ),
{
    let s = addr_encoded(a) + rest;
    assert(forall|i: int|
        0 <= i < addr_encoded(a).len() ==> s[i] == #[trigger] addr_encoded(a)[i]);
    match a {
        AddrModel::Uninit => {},
        AddrModel::V4(ip, port) => {
            assert(addr_encoded(a).len() == 7);
            assert(s[0] == ATYP_V4);
            assert(s.subrange(1, 5) =~= ip);
            lemma_be16_round_trip(port);
            assert(s[5] == be_hi(port) && s[6] == be_lo(port));
        },
        AddrModel::V6(groups, port) => {
            lemma_groups_bytes_len(groups);
            assert(addr_encoded(a).len() == 19);
            assert(s[0] == ATYP_V6);
            assert forall|i: int| 0 <= i < 8 implies be16(s[1 + 2 * i], s[2 + 2 * i])
                == groups[i] by {
                lemma_groups_bytes_index(groups, i);
                assert(s[1 + 2 * i] == groups_bytes(groups)[2 * i]);
                assert(s[2 + 2 * i] == groups_bytes(groups)[2 * i + 1]);
                lemma_be16_round_trip(groups[i]);
            }
            assert(Seq::new(8, |i: int| be16(s[1 + 2 * i], s[2 + 2 * i])) =~= groups);
            lemma_be16_round_trip(port);
            assert(s[17] == be_hi(port) && s[18] == be_lo(port));
        },
        AddrModel::Hostname(name, port) => {
            let n = name.len() as int;
            assert(addr_encoded(a).len() == n + 4);
            assert(s[0] == ATYP_HOST);
            assert(s[1] == n as u8);
            assert(s.subrange(2, 2 + n) =~= name);
            assert(host_ok(s.subrange(2, 2 + n)));
            lemma_be16_round_trip(port);
            assert(s[2 + n] == be_hi(port) && s[3 + n] == be_lo(port));
        },
    }
}

/// Splitting a 16-bit value into big-endian bytes and reading them back is
/// the identity.
proof fn lemma_be16_round_trip(p: u16)
    ensures
        be16(be_hi(p), be_lo(p)) == p,
{
    assert(p as int / 256 * 256 + p as int % 256 == p as int) by (nonlinear_arith);
}

/// Reading two bytes big-endian and splitting the value again is the
/// identity.
proof fn lemma_be16_inverse(hi: u8, lo: u8)
    ensures
        be_hi(be16(hi, lo)) == hi,
        be_lo(be16(hi, lo)) == lo,
{
    assert((hi as int * 256 + lo as int) / 256 == hi as int && (hi as int * 256 + lo as int) % 256
        == lo as int) by (nonlinear_arith);
}

/// Law: the decoder only accepts exact encodings. Whenever a decode
/// succeeds, the decoded address is well-formed and its encoding is
/// precisely the consumed prefix of the input.
pub proof fn lemma_decode_encodes(s: Seq<u8>, a: AddrModel, n: int)
    requires
        spec_decode(s) == Ok::<(AddrModel, int), ParserError>((a, n)),
    ensures
        addr_wf(a),
        0 <= n <= s.len(),
        addr_encoded(a) == s.take(n),
{
    if s[0] == ATYP_V4 {
        let port = be16(s[5], s[6]);
        lemma_be16_inverse(s[5], s[6]);
        assert(addr_encoded(a) =~= s.take(7));
    } else if s[0] == ATYP_V6 {
        let groups = Seq::new(8, |i: int| be16(s[1 + 2 * i], s[2 + 2 * i]));
        lemma_groups_bytes_len(groups);
        assert forall|i: int| 0 <= i < 16 implies groups_bytes(groups)[i] == s[1 + i] by {
            let g = i / 2;
            lemma_groups_bytes_index(groups, g);
            lemma_be16_inverse(s[1 + 2 * g], s[2 + 2 * g]);
            if i % 2 == 0 {
                assert(i == 2 * g);
            } else {
                assert(i == 2 * g + 1);
            }
        }
        lemma_be16_inverse(s[17], s[18]);
        assert(addr_encoded(a) =~= s.take(19));
    } else {
        let m = s[1] as int;
        lemma_be16_inverse(s[2 + m], s[3 + m]);
        assert(addr_encoded(a) =~= s.take(m + 4));
    }
}

/// Law: decoding any strict prefix of a well-formed address's encoding
/// reports `Incomplete` with a missing-byte count `k >= 1` that never
/// overshoots the bytes still to come, so a caller that awaits `k` more bytes
/// (repeating if told so again) reaches the successful decode without
/// re-parsing consumed input.
pub proof fn lemma_decode_prefix_incomplete(a: AddrModel, n: int)
    requires
        addr_wf(a),
        0 <= n < addr_encoded(a).len(),
    ensures
        spec_decode(addr_encoded(a).take(n)) is Err,
        1 <= missing_bytes(spec_decode(addr_encoded(a).take(n))),
        n + missing_bytes(spec_decode(addr_encoded(a).take(n))) <= addr_encoded(a).len(),
        n >= 2 ==> n + missing_bytes(spec_decode(addr_encoded(a).take(n))) == addr_encoded(
            a,
        ).len(),
        !(a is Hostname) && n >= 1 ==> n + missing_bytes(spec_decode(addr_encoded(a).take(n)))
            == addr_encoded(a).len(),
{
    let s = addr_encoded(a);
    let p = s.take(n);
    assert(p.len() == n);
    assert(forall|i: int| 0 <= i < n ==> p[i] == s[i]);
    match a {
        AddrModel::Uninit => {},
        AddrModel::V4(ip, port) => {
            assert(s.len() == 7);
        },
        AddrModel::V6(groups, port) => {
            lemma_groups_bytes_len(groups);
            assert(s.len() == 19);
        },
        AddrModel::Hostname(name, port) => {
            let len = name.len() as int;
            assert(s.len() == len + 4);
            if n >= 2 {
                assert(p[1] == len as u8);
            }
        },
    }
}

/// An ASCII decimal digit.
pub open spec fn is_digit(b: u8) -> bool {
    48 <= b && b <= 57
}

/// Every byte is an ASCII decimal digit.
pub open spec fn all_digits(s: Seq<u8>) -> bool {
    forall|i: int| 0 <= i < s.len() ==> is_digit(#[trigger] s[i])
}

/// The value of a sequence of ASCII digits read as a decimal number.
pub open spec fn dec_value(s: Seq<u8>) -> int
    decreases s.len(),
{
    if s.len() == 0 {
        0
    } else {
        dec_value(s.drop_last()) * 10 + (s.last() - 48)
    }
}

/// Index of the last colon in `s`, or -1 when there is none.
pub open spec fn rfind_colon(s: Seq<u8>) -> int
    decreases s.len(),
{
    if s.len() == 0 {
        -1
    } else if s.last() == 58 {
        s.len() - 1
    } else {
        rfind_colon(s.drop_last())
    }
}

/// The port assumed when an authority carries none: 443 for CONNECT
/// (HTTPS tunnelling), 80 for plain HTTP.
pub open spec fn default_port(is_https: bool) -> u16 {
    if is_https {
        443
    } else {
        80
    }
}

/// What an HTTP authority or Host value `host[:port]` denotes: the hostname
/// before the last colon with the decimal port after it, or the whole value
/// with the scheme's default port when no colon is present. Anything with an
/// empty or non-numeric or oversized port, or with a hostname breaking its
/// invariant, is `Invalid`.
pub open spec fn http_host_model(is_https: bool, s: Seq<u8>) -> Result<AddrModel, ParserError> {
    let c = rfind_colon(s);
    if c >= 0 {
        let host = s.take(c);
        let digits = s.skip(c + 1);
        if digits.len() == 0 || !all_digits(digits) || dec_value(digits) > 65535 {
            Err(ParserError::Invalid)
        } else if host_ok(host) {
            Ok(AddrModel::Hostname(host, dec_value(digits) as u16))
        } else {
            Err(ParserError::Invalid)
        }
    } else if host_ok(s) {
        Ok(AddrModel::Hostname(s, default_port(is_https)))
    } else {
        Err(ParserError::Invalid)
    }
}

proof fn lemma_rfind_colon_no_colon_suffix(s: Seq<u8>, i: int)
    requires
        0 <= i <= s.len(),
        forall|j: int| i <= j < s.len() ==> s[j] != 58,
    ensures
        rfind_colon(s) == rfind_colon(s.take(i)),
    decreases s.len() - i,
{
    if i == s.len() {
        assert(s.take(i) =~= s);
    } else {
        assert(s.last() != 58);
        assert(s.drop_last() =~= s.take(s.len() - 1));
        lemma_rfind_colon_no_colon_suffix(s.take(s.len() - 1), i);
        assert(s.take(s.len() - 1).take(i) =~= s.take(i));
    }
}

/// Digits read as a decimal number are never negative.
pub(crate) proof fn lemma_dec_value_nonneg(s: Seq<u8>)
    requires
        all_digits(s),
    ensures
        dec_value(s) >= 0,
    decreases s.len(),
{
    if s.len() > 0 {
        assert(all_digits(s.drop_last()));
        lemma_dec_value_nonneg(s.drop_last());
    }
}

/// A prefix of a digit string reads as at most the whole string's value.
pub(crate) proof fn lemma_dec_value_prefix_le(s: Seq<u8>, i: int)
    requires
        all_digits(s),
        0 <= i <= s.len(),
    ensures
        dec_value(s.take(i)) <= dec_value(s),
    decreases s.len() - i,
{
    if i < s.len() {
        assert(s.take(i + 1).drop_last() =~= s.take(i));
        assert(all_digits(s.take(i)));
        lemma_dec_value_nonneg(s.take(i));
        assert(dec_value(s.take(i + 1)) == dec_value(s.take(i)) * 10 + (s[i] - 48));
        assert(dec_value(s.take(i)) * 10 >= dec_value(s.take(i))) by (nonlinear_arith)
            requires
                dec_value(s.take(i)) >= 0,
        ;
        lemma_dec_value_prefix_le(s, i + 1);
    } else {
        assert(s.take(i) =~= s);
    }
}

/// Once a digit prefix exceeds the port range, the whole string does.
pub(crate) proof fn lemma_dec_value_monotone_overflow(s: Seq<u8>, i: int)
    requires
        0 <= i <= s.len(),
        dec_value(s.take(i)) > 65535,
    ensures
        dec_value(s) > 65535,
    decreases s.len() - i,
{
    if i == s.len() {
        assert(s.take(i) =~= s);
    } else {
        assert(s.take(i + 1).drop_last() =~= s.take(i));
        assert(dec_value(s.take(i + 1)) == dec_value(s.take(i)) * 10 + (s[i] - 48));
        assert(dec_value(s.take(i)) * 10 > 655350) by (nonlinear_arith)
            requires
                dec_value(s.take(i)) > 65535,
        ;
        lemma_dec_value_monotone_overflow(s, i + 1);
    }
}

impl MixAddrType {
    /// Builds the target address from an HTTP authority or Host value
    /// (`host[:port]`, with the scheme's default port when none is given),
    /// exactly as `http_host_model` describes.
    pub fn from_http_header(is_https: bool, buf: &[u8]) -> (r: Result<MixAddrType, ParserError>)
        ensures
            match r {
                Ok(a) => http_host_model(is_https, buf@) == Ok::<AddrModel, ParserError>(a@)
                    && a.wf(),
                Err(e) => http_host_model(is_https, buf@) == Err::<AddrModel, ParserError>(e),
            },
    {
        let len = buf.len();
        if let Some(c) = rfind_colon_exec(buf) {
            if c + 1 == len {
                proof {
                    assert(buf@.skip(c + 1 as int).len() == 0);
                }
                return Err(ParserError::Invalid);
            }
            let ghost digits = buf@.skip(c + 1 as int);
            let mut acc: u32 = 0;
            let mut j: usize = c + 1;
            while j < len
                invariant
                    0 <= c < c + 1 < len,
                    c + 1 <= j <= len,
                    len == buf@.len(),
                    rfind_colon(buf@) == c,
                    digits == buf@.skip(c + 1 as int),
                    acc == dec_value(digits.take(j - c - 1)),
                    acc <= 65535,
                    forall|k: int| 0 <= k < j - c - 1 ==> is_digit(#[trigger] digits[k]),
                decreases len - j,
            {
                let b = buf[j];
                if !(48 <= b && b <= 57) {
                    proof {
                        assert(digits[j - c - 1] == buf@[j as int]);
                        assert(!all_digits(digits));
                    }
                    return Err(ParserError::Invalid);
                }
                proof {
                    assert(digits.take(j - c - 1 + 1).drop_last() =~= digits.take(j - c - 1));
                    assert(digits.take(j - c - 1 + 1).last() == digits[j - c - 1]);
                    assert(digits[j - c - 1] == buf@[j as int]);
                }
                acc = acc * 10 + (b - 48) as u32;
                j = j + 1;
                if acc > 65535 {
                    proof {
                        lemma_dec_value_monotone_overflow(digits, j - c - 1);
                    }
                    return Err(ParserError::Invalid);
                }
            }
            proof {
                assert(digits.take(len - c - 1) =~= digits);
            }
            let port = acc as u16;
            match host_vec(buf, 0, c) {
                Ok(name) => {
                    proof {
                        assert(buf@.subrange(0, c as int) =~= buf@.take(c as int));
                    }
                    Ok(MixAddrType::Hostname(name, port))
                },
                Err(e) => {
                    proof {
                        assert(buf@.subrange(0, c as int) =~= buf@.take(c as int));
                    }
                    Err(e)
                },
            }
        } else {
            let port = if is_https {
                443
            } else {
                80
            };
            match host_vec(buf, 0, len) {
                Ok(name) => {
                    proof {
                        assert(buf@.subrange(0, len as int) =~= buf@);
                    }
                    Ok(MixAddrType::Hostname(name, port))
                },
                Err(e) => {
                    proof {
                        assert(buf@.subrange(0, len as int) =~= buf@);
                    }
                    Err(e)
                },
            }
        }
    }
}

/// Finds the last colon in `buf`, per `rfind_colon`.
pub(crate) fn rfind_colon_exec(buf: &[u8]) -> (r: Option<usize>)
    ensures
        match r {
            Some(c) => rfind_colon(buf@) == c && c < buf@.len(),
            None => rfind_colon(buf@) == -1,
        },
{
    let len = buf.len();
    let mut i: usize = len;
    while i > 0
        invariant
            0 <= i <= len,
            len == buf@.len(),
            forall|j: int| i <= j < len ==> buf@[j] != 58,
        decreases i,
    {
        if buf[i - 1] == 58 {
            proof {
                lemma_rfind_colon_no_colon_suffix(buf@, i as int);
                assert(buf@.take(i as int).last() == buf@[i - 1]);
                assert(buf@.take(i as int).len() == i);
            }
            return Some(i - 1);
        }
        i = i - 1;
    }
    proof {
        lemma_rfind_colon_no_colon_suffix(buf@, 0);
        assert(buf@.take(0).len() == 0);
    }
    None
}

/// Copies `buf[start..end]` out as a hostname, rejecting anything that
/// breaks the hostname invariant.
fn host_vec(buf: &[u8], start: usize, end: usize) -> (r: Result<Vec<u8>, ParserError>)
    requires
        start <= end <= buf@.len(),
    ensures
        match r {
            Ok(v) => v@ == buf@.subrange(start as int, end as int) && host_ok(v@),
            Err(e) => e == ParserError::Invalid && !host_ok(
                buf@.subrange(start as int, end as int),
            ),
        },
{
    let n = end - start;
    if n == 0 || n > 255 {
        return Err(ParserError::Invalid);
    }
    let mut name: Vec<u8> = Vec::new();
    let mut i: usize = 0;
    while i < n
        invariant
            start + n <= buf@.len(),
            end == start + n,
            1 <= n <= 255,
            0 <= i <= n,
            name@ =~= buf@.subrange(start as int, start + i as int),
            forall|j: int| 0 <= j < i ==> !is_ws_byte(#[trigger] name@[j]),
        decreases n - i,
    {
        let b = buf[start + i];
        if b == 32 || b == 9 || b == 13 || b == 10 {
            proof {
                assert(buf@.subrange(start as int, end as int)[i as int] == buf@[start + i]);
                assert(is_ws_byte(buf@.subrange(start as int, end as int)[i as int]));
            }
            return Err(ParserError::Invalid);
        }
        name.push(b);
        proof {
            assert(name@ =~= buf@.subrange(start as int, start + (i + 1) as int));
        }
        i = i + 1;
    }
    proof {
        assert(name@ =~= buf@.subrange(start as int, end as int));
    }
    Ok(name)
}

/// Reads a port in network (big-endian) order at offset `off`.
fn read_port_be(buf: &[u8], off: usize) -> (r: u16)
    requires
        off + 2 <= buf@.len(),
    ensures
        r == be16(buf@[off as int], buf@[off as int + 1]),
{
    (buf[off] as u16) * 256 + (buf[off + 1] as u16)
}

/// Appends a port in network (big-endian) order.
fn push_port_be(buf: &mut Vec<u8>, port: u16)
    ensures
        final(buf)@ == old(buf)@ + seq![be_hi(port), be_lo(port)],
{
    buf.push((port / 256) as u8);
    buf.push((port % 256) as u8);
    proof {
        assert(final(buf)@ =~= old(buf)@ + seq![be_hi(port), be_lo(port)]);
    }
}

} // verus!
