use unravel::error::CfiError;
use unravel::leb128::{encode_sleb128, encode_uleb128};
use unravel::reader::ByteCursor;

fn decode_u(bytes: &[u8]) -> Result<u64, CfiError> {
    ByteCursor::new(bytes).read_uleb128()
}

fn decode_s(bytes: &[u8]) -> Result<i64, CfiError> {
    ByteCursor::new(bytes).read_sleb128()
}

#[test]
fn uleb128_known_encodings() {
    assert_eq!(encode_uleb128(0), vec![0x00]);
    assert_eq!(encode_uleb128(127), vec![0x7f]);
    assert_eq!(encode_uleb128(128), vec![0x80, 0x01]);
    assert_eq!(encode_uleb128(624485), vec![0xe5, 0x8e, 0x26]);
    assert_eq!(
        encode_uleb128(u64::MAX),
        vec![0xff, 0xff, 0xff, 0xff, 0xff, 0xff, 0xff, 0xff, 0xff, 0x01]
    );
}

#[test]
fn sleb128_known_encodings() {
    assert_eq!(encode_sleb128(0), vec![0x00]);
    assert_eq!(encode_sleb128(-1), vec![0x7f]);
    assert_eq!(encode_sleb128(63), vec![0x3f]);
    assert_eq!(encode_sleb128(64), vec![0xc0, 0x00]);
    assert_eq!(encode_sleb128(-64), vec![0x40]);
    assert_eq!(encode_sleb128(-65), vec![0xbf, 0x7f]);
    assert_eq!(encode_sleb128(-123456), vec![0xc0, 0xbb, 0x78]);
    assert_eq!(
        encode_sleb128(i64::MIN),
        vec![0x80, 0x80, 0x80, 0x80, 0x80, 0x80, 0x80, 0x80, 0x80, 0x7f]
    );
    assert_eq!(
        encode_sleb128(i64::MAX),
        vec![0xff, 0xff, 0xff, 0xff, 0xff, 0xff, 0xff, 0xff, 0xff, 0x00]
    );
}

#[test]
fn uleb128_known_decodings() {
    assert_eq!(decode_u(&[0x00]), Ok(0));
    assert_eq!(decode_u(&[0xe5, 0x8e, 0x26]), Ok(624485));
    assert_eq!(decode_u(&[0x80, 0x01]), Ok(128));
    // a longer spelling of a small number is still that number
    assert_eq!(decode_u(&[0x81, 0x80, 0x00]), Ok(1));
}

#[test]
fn sleb128_known_decodings() {
    assert_eq!(decode_s(&[0x7f]), Ok(-1));
    assert_eq!(decode_s(&[0x7e]), Ok(-2));
    assert_eq!(decode_s(&[0x78]), Ok(-8));
    assert_eq!(decode_s(&[0x02]), Ok(2));
    assert_eq!(decode_s(&[0xc0, 0xbb, 0x78]), Ok(-123456));
    assert_eq!(decode_s(&[0x80, 0x01]), Ok(128));
}

#[test]
fn uleb128_round_trip() {
    let values: [u64; 9] = [0, 1, 127, 128, 300, 16383, 16384, 1 << 63, u64::MAX];
    for x in values {
        let bytes = encode_uleb128(x);
        let mut cursor = ByteCursor::new(&bytes);
        assert_eq!(cursor.read_uleb128(), Ok(x));
        assert_eq!(cursor.remaining(), 0);
    }
}

#[test]
fn sleb128_round_trip() {
    let values: [i64; 12] =
        [0, 1, -1, 63, 64, -64, -65, 8191, -8192, -8193, i64::MAX, i64::MIN];
    for y in values {
        let bytes = encode_sleb128(y);
        let mut cursor = ByteCursor::new(&bytes);
        assert_eq!(cursor.read_sleb128(), Ok(y));
        assert_eq!(cursor.remaining(), 0);
    }
}

#[test]
fn leb128_leaves_what_follows() {
    let bytes = [0xe5, 0x8e, 0x26, 0xaa, 0xbb];
    let mut cursor = ByteCursor::new(&bytes);
    assert_eq!(cursor.read_uleb128(), Ok(624485));
    assert_eq!(cursor.remaining(), 2);
    assert_eq!(cursor.read_u8(), Ok(0xaa));
}

#[test]
fn leb128_more_than_ten_groups_is_malformed() {
    let bytes = [0x80, 0x80, 0x80, 0x80, 0x80, 0x80, 0x80, 0x80, 0x80, 0x80, 0x00];
    assert_eq!(decode_u(&bytes), Err(CfiError::MalformedEncoding));
    assert_eq!(decode_s(&bytes), Err(CfiError::MalformedEncoding));
}

#[test]
fn leb128_cut_short_is_malformed() {
    assert_eq!(decode_u(&[]), Err(CfiError::MalformedEncoding));
    assert_eq!(decode_u(&[0x80]), Err(CfiError::MalformedEncoding));
    assert_eq!(decode_s(&[0xff, 0xff]), Err(CfiError::MalformedEncoding));
}

#[test]
fn leb128_beyond_64_bits_is_malformed() {
    let too_big = [0xff, 0xff, 0xff, 0xff, 0xff, 0xff, 0xff, 0xff, 0xff, 0x02];
    assert_eq!(decode_u(&too_big), Err(CfiError::MalformedEncoding));
    let too_low = [0x80, 0x80, 0x80, 0x80, 0x80, 0x80, 0x80, 0x80, 0x80, 0x7e];
    assert_eq!(decode_s(&too_low), Err(CfiError::MalformedEncoding));
    let too_high = [0x80, 0x80, 0x80, 0x80, 0x80, 0x80, 0x80, 0x80, 0x80, 0x01];
    assert_eq!(decode_s(&too_high), Err(CfiError::MalformedEncoding));
}

#[test]
fn failed_leb128_read_consumes_nothing() {
    let bytes = [0x80, 0x80];
    let mut cursor = ByteCursor::new(&bytes);
    assert_eq!(cursor.read_uleb128(), Err(CfiError::MalformedEncoding));
    assert_eq!(cursor.remaining(), 2);
}

#[test]
fn fixed_width_reads_are_little_endian() {
    let bytes = [0x78, 0x56, 0x34, 0x12, 0x01, 0x02, 0x03, 0x04, 0x05, 0x06, 0x07, 0x08, 0x09];
    let mut cursor = ByteCursor::new(&bytes);
    assert_eq!(cursor.read_u32(), Ok(0x12345678));
    assert_eq!(cursor.read_u64(), Ok(0x0807060504030201));
    assert_eq!(cursor.read_u8(), Ok(0x09));
    assert_eq!(cursor.read_u8(), Err(CfiError::UnexpectedEof));
    let mut cursor = ByteCursor::new(&bytes[..3]);
    assert_eq!(cursor.read_u32(), Err(CfiError::UnexpectedEof));
    assert_eq!(cursor.remaining(), 3);
    let mut cursor = ByteCursor::new(&bytes[..3]);
    assert_eq!(cursor.read_uint(2), Ok(0x5678));
    assert_eq!(cursor.read_uint(0), Ok(0));
    assert_eq!(cursor.read_uint(1), Ok(0x34));
}

#[test]
fn zero_terminated_string_and_bytes() {
    let bytes = [0x7a, 0x52, 0x00, 0x01, 0x02, 0x03];
    let mut cursor = ByteCursor::new(&bytes);
    assert_eq!(cursor.read_utf8(), Ok(vec![0x7a, 0x52]));
    assert_eq!(cursor.read_bytes(4), Err(CfiError::UnexpectedEof));
    assert_eq!(cursor.read_bytes(2), Ok(vec![0x01, 0x02]));
    assert_eq!(cursor.read_to_end(), vec![0x03]);
    assert_eq!(cursor.remaining(), 0);
    let mut cursor = ByteCursor::new(&bytes[..2]);
    assert_eq!(cursor.read_utf8(), Err(CfiError::UnexpectedEof));
    assert_eq!(cursor.remaining(), 2);
}

#[test]
fn sub_cursor_is_bounded() {
    let bytes = [1, 2, 3, 4, 5];
    let mut cursor = ByteCursor::new(&bytes);
    let mut sub = cursor.take(2).unwrap();
    assert_eq!(cursor.remaining(), 3);
    assert_eq!(sub.read_u8(), Ok(1));
    assert_eq!(sub.read_u8(), Ok(2));
    assert_eq!(sub.read_u8(), Err(CfiError::UnexpectedEof));
    assert!(cursor.take(4).is_err());
    assert_eq!(cursor.remaining(), 3);
}
