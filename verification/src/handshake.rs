use vstd::prelude::*;

use crate::address::addr_encoded;
use crate::address::AddrModel;
use crate::address::MixAddrType;
use vstd::string::StringSliceAdditionalSpecFns;

verus! {

/// The only request command this proxy supports: CONNECT.
pub const CMD_CONNECT: u8 = 1;

/// The Trojan handshake frame:
/// `56 hex chars | CRLF | cmd | atyp | addr | port(2, BE) | CRLF | payload`.
pub open spec fn handshake_frame(hash: Seq<u8>, a: AddrModel, pre: Seq<u8>) -> Seq<u8> {
    hash + seq![13u8, 10u8, CMD_CONNECT] + addr_encoded(a) + seq![13u8, 10u8] + pre
}

/// Builds the Trojan handshake for `addr` as one contiguous buffer, with the
/// pre-read bytes of the inbound parser appended, so a single write carries
/// the whole handshake and no packet boundary separates credential and
/// payload.
pub fn build_handshake(password_hash: &str, addr: &MixAddrType, pre_read: &[u8]) -> (r: Vec<u8>)
    requires
        addr.wf(),
    ensures
        r@ == handshake_frame(password_hash.spec_bytes(), addr@, pre_read@),
{
    let mut buf: Vec<u8> = Vec::new();
    buf.extend_from_slice(password_hash.as_bytes());
    buf.push(13);
    buf.push(10);
    buf.push(CMD_CONNECT);
    addr.encode(&mut buf);
    buf.push(13);
    buf.push(10);
    buf.extend_from_slice(pre_read);
    proof {
        assert(buf@ =~= handshake_frame(password_hash.spec_bytes(), addr@, pre_read@));
    }
    buf
}

} // verus!
