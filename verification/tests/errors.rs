use bintext::hex;
use bintext::hex::{avx2, fallback, sse2, DecodeError};

#[test]
fn odd_length_all_paths() {
    for text in ["a", "abc", "0123456789abcdef0"] {
        assert_eq!(hex::decode(text), Err(DecodeError::OddLength));
        assert_eq!(fallback::decode(text), Err(DecodeError::OddLength));
        assert_eq!(sse2::decode(text), Err(DecodeError::OddLength));
        assert_eq!(avx2::decode(text), Err(DecodeError::OddLength));
        assert_eq!(hex::decode_noerr(text), Err(()));
    }
}

#[test]
fn error_position() {
    assert_eq!(hex::decode("zz"), Err(DecodeError::InvalidCharAt(0)));
    assert_eq!(hex::decode("a0a0g0"), Err(DecodeError::InvalidCharAt(4)));
    assert_eq!(fallback::decode("zz"), Err(DecodeError::InvalidCharAt(0)));
    assert_eq!(fallback::decode("a0a0g0"), Err(DecodeError::InvalidCharAt(4)));
    assert_eq!(sse2::decode("zz"), Err(DecodeError::InvalidCharAt(0)));
    assert_eq!(sse2::decode("a0a0g0"), Err(DecodeError::InvalidCharAt(4)));
    assert_eq!(avx2::decode("zz"), Err(DecodeError::InvalidCharAt(0)));
    assert_eq!(avx2::decode("a0a0g0"), Err(DecodeError::InvalidCharAt(4)));
}

#[test]
fn error_position_inside_blocks() {
    // 64 characters, one bad byte inside a full block of each width: the
    // secondary scan recovers the exact offset.
    let good = "00112233445566778899aabbccddeeff00112233445566778899aabbccddeeff";
    let text = format!("{}g{}", &good[..21], &good[22..]);
    assert_eq!(fallback::decode(&text), Err(DecodeError::InvalidCharAt(21)));
    assert_eq!(sse2::decode(&text), Err(DecodeError::InvalidCharAt(21)));
    assert_eq!(avx2::decode(&text), Err(DecodeError::InvalidCharAt(21)));
    // One bad byte in the scalar tail after the last full block.
    let short = "00112233445566778899aabbccddeeff0011223344";
    let tail = format!("{}!{}", &short[..37], &short[38..]);
    assert_eq!(fallback::decode(&tail), Err(DecodeError::InvalidCharAt(37)));
    assert_eq!(sse2::decode(&tail), Err(DecodeError::InvalidCharAt(37)));
    assert_eq!(avx2::decode(&tail), Err(DecodeError::InvalidCharAt(37)));
}

#[test]
fn decode_noalloc_fills_buffer() {
    let text = "34cd6f62afa91a82c724";
    let mut out = [0u8; 10];
    assert!(hex::decode_noalloc(text, &mut out[..]).is_ok());
    assert_eq!(out, [0x34, 0xcd, 0x6f, 0x62, 0xaf, 0xa9, 0x1a, 0x82, 0xc7, 0x24]);
    // Odd text is rejected before the buffer is touched.
    let mut untouched = [0xEEu8; 4];
    assert_eq!(
        hex::decode_noalloc("abc", &mut untouched[..]),
        Err(DecodeError::OddLength)
    );
    assert_eq!(untouched, [0xEE; 4]);
    // An invalid character is reported with its offset.
    let mut out2 = [0u8; 2];
    assert_eq!(
        hex::decode_noalloc("a0!0", &mut out2[..]),
        Err(DecodeError::InvalidCharAt(2))
    );
}

#[test]
fn decode_noerr_collapses_errors() {
    assert_eq!(hex::decode_noerr("zz"), Err(()));
    assert_eq!(hex::decode_noerr("abc"), Err(()));
    assert_eq!(hex::decode_noerr("ad877f").unwrap(), vec![0xADu8, 0x87, 0x7F]);
}

#[test]
fn error_messages() {
    assert_eq!(
        DecodeError::OddLength.message(),
        "odd length, hexadecimal strings should be always even"
    );
    assert_eq!(
        DecodeError::InvalidCharAt(0).message(),
        "invalid hexadecimal char at 0"
    );
    assert_eq!(
        DecodeError::InvalidCharAt(4).message(),
        "invalid hexadecimal char at 4"
    );
    assert_eq!(
        DecodeError::InvalidCharAt(12345).message(),
        "invalid hexadecimal char at 12345"
    );
    assert_eq!(
        DecodeError::BadOffset.message(),
        "not enough offset was given, it needs to be equal or greater than alignment"
    );
}

#[test]
fn mixed_case_pairs() {
    // Mixed case is accepted per character independently.
    assert_eq!(hex::decode("aAbBcC").unwrap(), vec![0xAAu8, 0xBB, 0xCC]);
    assert_eq!(hex::decode("Ad877F").unwrap(), vec![0xADu8, 0x87, 0x7F]);
}
