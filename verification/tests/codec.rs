use liarslie::codec::{decode_response, encode_value};

#[test]
fn encoding_is_big_endian() {
    assert_eq!(encode_value(0x1234), vec![0x12, 0x34]);
    assert_eq!(encode_value(0), vec![0, 0]);
    assert_eq!(encode_value(65535), vec![255, 255]);
    assert_eq!(encode_value(5), vec![0, 5]);
}

#[test]
fn decoding_inverts_encoding() {
    for v in [0u16, 1, 5, 255, 256, 0x1234, 65000, 65535] {
        assert_eq!(decode_response(&encode_value(v)), Some(v));
    }
}

#[test]
fn only_two_byte_answers_decode() {
    assert_eq!(decode_response(&Vec::new()), None);
    assert_eq!(decode_response(&vec![1]), None);
    assert_eq!(decode_response(&vec![1, 2, 3]), None);
}
