use kanono::binary::StreamPeerBuffer;
use kanono::types::DecodeError;

#[test]
fn put_get_unsigned_round_trip() {
    let mut buf = StreamPeerBuffer::new();
    buf.put_u8(0xAB);
    buf.put_u16(0x1234);
    buf.put_u32(0xDEADBEEF);
    buf.put_u64(0x0123456789ABCDEF);
    assert_eq!(buf.get_u8(), Ok(0xAB));
    assert_eq!(buf.get_u16(), Ok(0x1234));
    assert_eq!(buf.get_u32(), Ok(0xDEADBEEF));
    assert_eq!(buf.get_u64(), Ok(0x0123456789ABCDEF));
}

#[test]
fn put_get_signed_round_trip() {
    let mut buf = StreamPeerBuffer::new();
    buf.put_8(-5);
    buf.put_16(-1234);
    buf.put_32(-123456);
    buf.put_64(-1234567890123);
    assert_eq!(buf.get_8(), Ok(-5));
    assert_eq!(buf.get_16(), Ok(-1234));
    assert_eq!(buf.get_32(), Ok(-123456));
    assert_eq!(buf.get_64(), Ok(-1234567890123));
}

#[test]
fn big_endian_layout() {
    let mut buf = StreamPeerBuffer::new();
    buf.put_u16(0x0102);
    buf.put_u32(0x03040506);
    assert_eq!(buf.data, vec![0x01, 0x02, 0x03, 0x04, 0x05, 0x06]);
}

#[test]
fn get_past_end_is_truncated_error() {
    let mut buf = StreamPeerBuffer::new();
    buf.put_u8(1);
    assert_eq!(buf.get_u16(), Err(DecodeError::Truncated));
    // the cursor did not move, so the single byte is still readable
    assert_eq!(buf.get_u8(), Ok(1));
    assert_eq!(buf.get_u8(), Err(DecodeError::Truncated));
}

#[test]
fn varint_encoding_exact_bytes() {
    let mut buf = StreamPeerBuffer::new();
    buf.put_varint_mc(300);
    assert_eq!(buf.data, vec![0xAC, 0x02]);

    let mut empty = StreamPeerBuffer::new();
    empty.put_varint_mc(0);
    assert_eq!(empty.data, Vec::<u8>::new());

    let mut one = StreamPeerBuffer::new();
    one.put_varint_mc(1);
    assert_eq!(one.data, vec![0x01]);
}

#[test]
fn varlong_continuation_quirk() {
    // the long form marks continuation on every byte whose remainder is
    // not exactly one
    let mut buf = StreamPeerBuffer::new();
    buf.put_varlong(300);
    assert_eq!(buf.data, vec![0xAC, 0x82]);

    let mut quirk = StreamPeerBuffer::new();
    quirk.put_varlong(129);
    assert_eq!(quirk.data, vec![0x01, 0x81]);
}

#[test]
fn varint_utf8_prefix() {
    let mut buf = StreamPeerBuffer::new();
    buf.put_varint_utf8(b"Ace");
    assert_eq!(buf.data, vec![0x03, b'A', b'c', b'e']);
}

#[test]
fn utf8_string_round_trip() {
    let mut buf = StreamPeerBuffer::new();
    buf.put_utf8("héllo".as_bytes());
    let got = buf.get_utf8().unwrap();
    assert_eq!(String::from_utf8(got).unwrap(), "héllo");
}

#[test]
fn utf8_invalid_bytes_rejected() {
    let mut buf = StreamPeerBuffer::new();
    buf.set_data_array(vec![0x00, 0x01, 0xFF]);
    assert_eq!(buf.get_utf8(), Err(DecodeError::InvalidUtf8));
}

#[test]
fn utf8_truncated_rejected() {
    let mut buf = StreamPeerBuffer::new();
    buf.set_data_array(vec![0x00, 0x05, b'a', b'b']);
    assert_eq!(buf.get_utf8(), Err(DecodeError::Truncated));
}

#[test]
fn utf8_validator_agrees_with_std() {
    let cases: Vec<Vec<u8>> = vec![
        b"plain ascii".to_vec(),
        "höheres Leben".as_bytes().to_vec(),
        "日本語".as_bytes().to_vec(),
        vec![0xC0, 0x80],             // overlong
        vec![0xED, 0xA0, 0x80],       // surrogate
        vec![0xF4, 0x90, 0x80, 0x80], // above U+10FFFF
        vec![0x80],                   // lone continuation
        vec![0xE2, 0x82],             // truncated sequence
        vec![0xF0, 0x9F, 0x92, 0x96], // emoji
    ];
    for bytes in cases {
        assert_eq!(
            kanono::utf8::validate_utf8(&bytes),
            std::str::from_utf8(&bytes).is_ok(),
            "mismatch on {:?}",
            bytes
        );
    }
}

#[test]
fn set_data_array_rewinds_cursor() {
    let mut buf = StreamPeerBuffer::new();
    buf.set_data_array(vec![9, 8]);
    assert_eq!(buf.get_u8(), Ok(9));
    buf.set_data_array(vec![7]);
    assert_eq!(buf.get_u8(), Ok(7));
}
