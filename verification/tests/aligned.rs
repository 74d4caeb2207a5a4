use bintext::hex::{decode_aligned, DecodeError};

/// Entries of (expected bytes, input text, offset, align, start): the text
/// from `start` on is decoded in place with the given offset and alignment.
fn aligned_samples() -> Vec<(Vec<u8>, &'static str, usize, usize, usize)> {
    vec![
        (vec![0x02, 0x03, 0x04, 0x05], "----02030405", 4, 4, 0),
        (vec![0x02, 0x03, 0x04, 0x05], "#----02030405", 5, 4, 0),
        (vec![0x02, 0x03, 0x04, 0x05], "#--02030405", 3, 2, 0),
        (vec![0x02, 0x03, 0x04, 0x05], "02030405", 0, 1, 0),
        (vec![0x02, 0x03, 0x04, 0x05], "...#----02030405", 5, 4, 3),
    ]
}

#[test]
fn decoding_aligned() {
    for (expected, input, offset, align, start) in aligned_samples() {
        let mut v: Vec<u8> = input[start..].as_bytes().to_vec();
        let view = decode_aligned(&mut v, offset, align).unwrap();
        assert_eq!(&v[view.start..view.start + view.len], &expected[..]);
        assert_eq!((v.as_ptr() as usize + view.start) % align, 0);
    }
}

#[test]
fn alignment_contract() {
    // Eight characters of padding, offset 8, alignment 8.
    let mut v: Vec<u8> = "--------a1f7d5e8d14f0f76".as_bytes().to_vec();
    let view = decode_aligned(&mut v, 8, 8).unwrap();
    assert_eq!(view.len, 8);
    assert_eq!(
        &v[view.start..view.start + view.len],
        &[0xa1, 0xf7, 0xd5, 0xe8, 0xd1, 0x4f, 0x0f, 0x76][..]
    );
    assert_eq!((v.as_ptr() as usize + view.start) % 8, 0);
}

#[test]
fn bad_offset() {
    // Padding shorter than the alignment is rejected.
    let mut v: Vec<u8> = "---02030405".as_bytes().to_vec();
    assert_eq!(decode_aligned(&mut v, 3, 4), Err(DecodeError::BadOffset));
    let mut w: Vec<u8> = "02030405".as_bytes().to_vec();
    assert_eq!(decode_aligned(&mut w, 0, 2), Err(DecodeError::BadOffset));
    assert_eq!(decode_aligned(&mut w, 1, 2), Err(DecodeError::BadOffset));
}

#[test]
fn aligned_odd_length() {
    let mut v: Vec<u8> = "----0203040".as_bytes().to_vec();
    assert_eq!(decode_aligned(&mut v, 4, 4), Err(DecodeError::OddLength));
}

#[test]
fn aligned_invalid_char() {
    let mut v: Vec<u8> = "----02g30405".as_bytes().to_vec();
    assert_eq!(
        decode_aligned(&mut v, 4, 4),
        Err(DecodeError::InvalidCharAt(2))
    );
}
