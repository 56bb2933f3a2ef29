use vstd::prelude::*;

use vstd::string::StringSliceAdditionalSpecFns;

verus! {

/// The SHA-224 digest (28 bytes) of a byte sequence, as computed by the
/// `sha2` crate. Uninterpreted: the contracts only rely on the digest being a
/// pure function of the input.
pub uninterp spec fn sha224_of(data: Seq<u8>) -> Seq<u8>;

/// Relies on sha2::Sha224 (through the Digest trait: new/update/finalize):
/// SHA-224 is a pure function of the input bytes and its digest is 28 bytes.
#[verifier::external_body]
pub fn password_to_hash_bytes(s: &str) -> (r: Vec<u8>)
    ensures
        r@ == sha224_of(s.spec_bytes()),
        r@.len() == 28,
{
    let mut hasher = <sha2::Sha224 as sha2::Digest>::new();
    sha2::Digest::update(&mut hasher, s);
    sha2::Digest::finalize(hasher).to_vec()
}

/// Relies on String::from_utf8: a buffer of ASCII bytes is valid UTF-8 and
/// decodes to exactly those characters.
#[verifier::external_body]
pub(crate) fn ascii_string(bytes: Vec<u8>) -> (r: String)
    requires
        forall|i: int| 0 <= i < bytes@.len() ==> bytes@[i] < 128,
    ensures
        r@ == bytes@.map_values(|b: u8| b as char),
{
    String::from_utf8(bytes).unwrap_or_default()
}

/// The ASCII code of the lowercase hex digit for a value below 16.
pub open spec fn hex_digit_byte(v: u8) -> u8 {
    if v < 10 {
        (48 + v) as u8
    } else {
        (87 + v) as u8
    }
}

/// Lowercase hex encoding of a byte sequence: two digits per byte.
pub open spec fn hex_bytes(bs: Seq<u8>) -> Seq<u8>
    decreases bs.len(),
{
    if bs.len() == 0 {
        Seq::empty()
    } else {
        hex_bytes(bs.drop_last()) + seq![
            hex_digit_byte((bs.last() as int / 16) as u8),
            hex_digit_byte((bs.last() as int % 16) as u8),
        ]
    }
}

/// Lowercase hex encoding of a byte sequence, as characters.
pub open spec fn hex_chars(bs: Seq<u8>) -> Seq<char> {
    hex_bytes(bs).map_values(|b: u8| b as char)
}

proof fn lemma_hex_bytes_len(bs: Seq<u8>)
    ensures
        hex_bytes(bs).len() == 2 * bs.len(),
    decreases bs.len(),
{
    if bs.len() > 0 {
        lemma_hex_bytes_len(bs.drop_last());
    }
}

/// Hex-encodes a byte buffer with lowercase digits.
fn hex_encode(bs: &Vec<u8>) -> (r: Vec<u8>)
    ensures
        r@ == hex_bytes(bs@),
        r@.len() == 2 * bs@.len(),
        forall|i: int| 0 <= i < r@.len() ==> r@[i] < 128,
{
    let mut out: Vec<u8> = Vec::new();
    let mut i: usize = 0;
    while i < bs.len()
        invariant
            0 <= i <= bs@.len(),
            out@ == hex_bytes(bs@.take(i as int)),
            forall|j: int| 0 <= j < out@.len() ==> out@[j] < 128,
        decreases bs@.len() - i,
    {
        let b = bs[i];
        out.push(hex_digit(b / 16));
        out.push(hex_digit(b % 16));
        proof {
            assert(bs@.take(i + 1 as int).drop_last() =~= bs@.take(i as int));
            assert(bs@.take(i + 1 as int).last() == bs@[i as int]);
            assert(out@ =~= hex_bytes(bs@.take(i + 1 as int)));
        }
        i = i + 1;
    }
    proof {
        assert(bs@.take(bs@.len() as int) =~= bs@);
        lemma_hex_bytes_len(bs@);
    }
    out
}

/// The lowercase hex digit for a value below 16.
fn hex_digit(v: u8) -> (r: u8)
    requires
        v < 16,
    ensures
        r == hex_digit_byte(v),
        r < 128,
{
    if v < 10 {
        48 + v
    } else {
        87 + v
    }
}

/// Hex encoding (56 lowercase characters) of the SHA-224 digest of a
/// password: the credential as it appears on the wire.
pub fn password_to_hash(s: &str) -> (r: String)
    ensures
        r@ == hex_chars(sha224_of(s.spec_bytes())),
        r@.len() == 56,
{
    let h = password_to_hash_bytes(s);
    let hex = hex_encode(&h);
    let r = ascii_string(hex);
    proof {
        assert(r@.len() == 56);
    }
    r
}

} // verus!
