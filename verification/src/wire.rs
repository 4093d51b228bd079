//! The datagram format: every packet the master sends carries its `u64`
//! sequence number as eight little-endian bytes, and the echo reflects each
//! datagram byte for byte.
use vstd::prelude::*;
use vstd::bytes::*;
use vstd::slice::slice_subrange;

verus! {

/// Number of payload bytes that carry the sequence number.
pub const SEQ_LEN: usize = 8;

/// The payload of the packet that carries sequence number `seq`.
pub open spec fn seq_payload(seq: u64) -> Seq<u8> {
    spec_u64_to_le_bytes(seq)
}

/// The sequence number that a received datagram of `n` bytes (held at the
/// start of `data`) carries: its first eight bytes read little-endian, or
/// nothing when the datagram is shorter than eight bytes.
pub open spec fn reply_seq(data: Seq<u8>, n: int) -> Option<u64> {
    if SEQ_LEN <= n <= data.len() {
        Some(spec_u64_from_le_bytes(data.subrange(0, SEQ_LEN as int)))
    } else {
        None
    }
}

/// The payload for sequence number `seq`.
pub fn encode_seq(seq: u64) -> (payload: [u8; 8])
    ensures
        payload@ == seq_payload(seq),
        payload@.len() == SEQ_LEN,
{
    let payload: [u8; 8] = [
        (seq & 0xff) as u8,
        ((seq >> 8) & 0xff) as u8,
        ((seq >> 16) & 0xff) as u8,
        ((seq >> 24) & 0xff) as u8,
        ((seq >> 32) & 0xff) as u8,
        ((seq >> 40) & 0xff) as u8,
        ((seq >> 48) & 0xff) as u8,
        ((seq >> 56) & 0xff) as u8,
    ];
    proof {
        spec_u64_to_le_bytes_to_open(seq);
        assert(payload@ =~= spec_u64_to_le_bytes_open(seq));
    }
    payload
}

/// The sequence number carried by the first `n` bytes of `buf`, if there are
/// at least eight of them.
pub fn decode_reply_seq(buf: &[u8], n: usize) -> (r: Option<u64>)
    requires
        n <= buf@.len(),
    ensures
        r == reply_seq(buf@, n as int),
{
    if n >= SEQ_LEN {
        let head = slice_subrange(buf, 0, SEQ_LEN);
        Some(u64_from_le_bytes(head))
    } else {
        None
    }
}

/// What the echo sends back for a datagram of `n` bytes received into `buf`:
/// exactly those `n` bytes, unmodified.
pub fn reflect(buf: &[u8], n: usize) -> (out: &[u8])
    requires
        n <= buf@.len(),
    ensures
        out@ == buf@.subrange(0, n as int),
{
    slice_subrange(buf, 0, n)
}

/// A payload read back from its own encoding gives the sequence number it was
/// made from, and its length is exactly the sequence number's width.
pub proof fn lemma_seq_payload_roundtrip(seq: u64)
    ensures
        seq_payload(seq).len() == SEQ_LEN,
        reply_seq(seq_payload(seq), SEQ_LEN as int) == Some(seq),
{
    lemma_auto_spec_u64_to_from_le_bytes();
    assert(seq_payload(seq).subrange(0, SEQ_LEN as int) =~= seq_payload(seq));
}

/// Two different sequence numbers never have the same payload, so a reply
/// carrying another cycle's payload never reads as this cycle's number.
pub proof fn lemma_seq_payload_injective(a: u64, b: u64)
    ensures
        (seq_payload(a) == seq_payload(b)) == (a == b),
        a != b ==> reply_seq(seq_payload(a), SEQ_LEN as int) != Some(b),
{
    lemma_seq_payload_roundtrip(a);
    lemma_seq_payload_roundtrip(b);
}

/// The echo's reflection of a master packet carries the master's sequence
/// number back: reading the reply the echo sends for a datagram that holds
/// `seq_payload(seq)` at the start of its buffer gives `seq`.
pub proof fn lemma_reflection_preserves_seq(seq: u64, buf: Seq<u8>)
    requires
        SEQ_LEN <= buf.len(),
        buf.subrange(0, SEQ_LEN as int) == seq_payload(seq),
    ensures
        reply_seq(buf.subrange(0, SEQ_LEN as int), SEQ_LEN as int) == Some(seq),
        reply_seq(buf, SEQ_LEN as int) == Some(seq),
{
    lemma_seq_payload_roundtrip(seq);
    lemma_auto_spec_u64_to_from_le_bytes();
    assert(spec_u64_from_le_bytes(seq_payload(seq)) == seq);
}

} // verus!
