use drs_rt::wire::{decode_reply_seq, encode_seq, reflect, SEQ_LEN};

#[test]
fn payload_is_little_endian_sequence_number() {
    assert_eq!(encode_seq(0xDEADBEEF), 0xDEADBEEFu64.to_le_bytes());
    assert_eq!(encode_seq(0), [0u8; 8]);
    assert_eq!(encode_seq(1), [1, 0, 0, 0, 0, 0, 0, 0]);
    assert_eq!(encode_seq(0x0102_0304_0506_0708), [8, 7, 6, 5, 4, 3, 2, 1]);
    assert_eq!(encode_seq(u64::MAX).len(), SEQ_LEN);
}

#[test]
fn reply_decodes_first_eight_bytes() {
    let mut buf = [0u8; 64];
    buf[..8].copy_from_slice(&42u64.to_le_bytes());
    buf[8] = 0xff;
    assert_eq!(decode_reply_seq(&buf, 8), Some(42));
    assert_eq!(decode_reply_seq(&buf, 64), Some(42));
    assert_eq!(decode_reply_seq(&buf, 7), None);
    assert_eq!(decode_reply_seq(&buf, 0), None);
}

#[test]
fn echo_reflects_received_bytes_unchanged() {
    let mut buf = [7u8; 64];
    let payload = 0xDEADBEEFu64.to_le_bytes();
    buf[..8].copy_from_slice(&payload);
    let out = reflect(&buf, 8);
    assert_eq!(out.len(), 8, "reflected length must equal sent length");
    assert_eq!(out, &payload, "reflected payload must be unchanged");
    assert_eq!(reflect(&buf, 0).len(), 0);
    assert_eq!(reflect(&buf, 10), &buf[..10]);
}

#[test]
fn reflected_payload_roundtrips_sequence_number() {
    for seq in [0u64, 1, 255, 256, 0x0102_0304_0506_0708, u64::MAX] {
        let payload = encode_seq(seq);
        let mut buf = [0u8; 64];
        buf[..8].copy_from_slice(&payload);
        let echoed = reflect(&buf, 8);
        assert_eq!(decode_reply_seq(echoed, echoed.len()), Some(seq));
    }
}
