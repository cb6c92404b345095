//! Big-endian encoding of the 16-bit value carried on the wire.
//!
//! An agent answers a query with exactly two bytes, the value in network
//! byte order; the coordinator accepts a response only when it is exactly
//! two bytes long.

use vstd::prelude::*;

verus! {

/// The value that a pair of big-endian bytes denotes.
pub open spec fn be_word(hi: u8, lo: u8) -> u16 {
    (hi * 256 + lo) as u16
}

/// The two big-endian bytes that denote a value.
pub open spec fn be_bytes(v: u16) -> Seq<u8> {
    seq![(v / 256) as u8, (v % 256) as u8]
}

/// Encode a value as its two-byte big-endian wire form.
pub fn encode_value(v: u16) -> (r: Vec<u8>)
    ensures
        r@ == be_bytes(v),
{
    let mut out: Vec<u8> = Vec::new();
    out.push((v / 256) as u8);
    out.push((v % 256) as u8);
    proof {
        assert(out@ =~= be_bytes(v));
    }
    out
}

/// Decode a response: exactly two bytes are accepted, anything else is
/// discarded.
pub fn decode_response(bytes: &Vec<u8>) -> (r: Option<u16>)
    ensures
        r is Some <==> bytes@.len() == 2,
        r is Some ==> r == Some(be_word(bytes@[0], bytes@[1])),
{
    if bytes.len() == 2 {
        let hi = bytes[0];
        let lo = bytes[1];
        Some((hi as u16) * 256 + (lo as u16))
    } else {
        None
    }
}

/// Decoding inverts encoding: the two bytes an agent sends for `v` are
/// always read back as `v`.
pub proof fn lemma_codec_round_trip(v: u16)
    ensures
        be_bytes(v).len() == 2,
        be_word(be_bytes(v)[0], be_bytes(v)[1]) == v,
{
}

} // verus!
