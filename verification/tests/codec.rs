use bintext::hex;
use bintext::hex::{avx2, fallback, sse2};

/// Sample pairs of bytes and their hex text, sized to cover the scalar path,
/// one 128-bit block, one 256-bit block, and block-plus-tail shapes.
fn samples() -> Vec<(Vec<u8>, &'static str)> {
    vec![
        (vec![0xAd, 0x87, 0x7F], "ad877f"),
        (
            vec![0x34, 0xcD, 0x6f, 0x62, 0xAf, 0xa9, 0x1a, 0x82, 0xC7, 0x24],
            "34cd6f62afa91a82c724",
        ),
        (
            vec![
                0x0a, 0x86, 0x16, 0x81, 0x45, 0x16, 0x51, 0xb7, 0x97, 0x4e, 0x81, 0x7f, 0xc7,
                0xe8, 0x9e, 0xee, 0xbe, 0x61, 0x45, 0xe7,
            ],
            "0a861681451651b7974e817fc7e89eeebe6145e7",
        ),
        (
            vec![
                0x61, 0xa9, 0xa7, 0x25, 0x9e, 0x8b, 0x08, 0x82, 0x4c, 0xc7, 0xd5, 0xa7, 0x4f,
                0xd6, 0x13, 0x8f, 0x97, 0x03, 0x79, 0x5a, 0xa5, 0x09, 0xf6, 0xa2, 0xf9, 0xa9,
                0x1c, 0x0e, 0xfb, 0xad, 0x23, 0x72, 0x84, 0xe4, 0x0c, 0x8e, 0x6d, 0xb3, 0xb3,
                0x4e,
            ],
            "61a9a7259e8b08824cc7d5a74fd6138f9703795aa509f6a2f9a91c0efbad237284e40c8e6db3b34e",
        ),
        (
            vec![
                0x82, 0xf1, 0x80, 0xca, 0x2c, 0xc7, 0xfe, 0x31, 0xef, 0x44, 0xe4, 0xae, 0xce,
                0x70, 0x63, 0x42, 0xfa, 0x95, 0xf6, 0x4e, 0x2c, 0xbf, 0xac, 0x65, 0xa2, 0x51,
                0xab, 0xf3, 0x21, 0x17, 0x4c, 0x28, 0x94, 0x9b, 0x80, 0x8c, 0x7d, 0xf1, 0x2c,
                0xd0, 0xda, 0xfb, 0xb7, 0x5c, 0xc4, 0x13, 0xba, 0xe7, 0xf2, 0xe1, 0xa6, 0x74,
                0x59, 0x76, 0x0d, 0x34, 0x2c, 0x3b, 0x49, 0xc2, 0x05, 0xb8, 0x7d, 0xaa, 0xdd,
                0x39, 0x6f, 0x64, 0xee, 0x14,
            ],
            "82f180ca2cc7fe31ef44e4aece706342fa95f64e2cbfac65a251abf321174c28949b808c7df12cd0dafbb75cc413bae7f2e1a67459760d342c3b49c205b87daadd396f64ee14",
        ),
    ]
}

/// A fixed pseudo-random buffer, long enough to force full blocks on every
/// path plus a scalar tail.
fn mixed_buffer() -> Vec<u8> {
    let mut v: Vec<u8> = Vec::new();
    let mut state: u32 = 0x2545_f491;
    for _ in 0..257 {
        state = state.wrapping_mul(1_103_515_245).wrapping_add(12_345);
        v.push((state >> 16) as u8);
    }
    v
}

#[test]
fn encoding() {
    for (input, expected) in samples() {
        assert_eq!(hex::encode(&input), expected);
    }
}

#[test]
fn decoding() {
    for (expected, input) in samples() {
        assert_eq!(hex::decode(input).unwrap(), expected);
    }
    for (expected, input) in samples() {
        assert_eq!(hex::decode(&str::to_uppercase(input)).unwrap(), expected);
    }
}

#[test]
fn encoding_fallback() {
    for (input, expected) in samples() {
        assert_eq!(fallback::encode(&input), expected);
    }
}

#[test]
fn decoding_fallback() {
    for (expected, input) in samples() {
        assert_eq!(fallback::decode(input).unwrap(), expected);
        assert_eq!(fallback::decode(&str::to_uppercase(input)).unwrap(), expected);
    }
    assert!(fallback::meet_requirements());
}

#[test]
fn encoding_sse2() {
    for (input, expected) in samples() {
        assert_eq!(sse2::encode(&input), expected);
    }
}

#[test]
fn decoding_sse2() {
    for (expected, input) in samples() {
        assert_eq!(sse2::decode(input).unwrap(), expected);
        assert_eq!(sse2::decode(&str::to_uppercase(input)).unwrap(), expected);
    }
    assert!(sse2::meet_requirements());
}

#[test]
fn encoding_avx2() {
    for (input, expected) in samples() {
        assert_eq!(avx2::encode(&input), expected);
    }
}

#[test]
fn decoding_avx2() {
    for (expected, input) in samples() {
        assert_eq!(avx2::decode(input).unwrap(), expected);
        assert_eq!(avx2::decode(&str::to_uppercase(input)).unwrap(), expected);
    }
    assert!(avx2::meet_requirements());
}

#[test]
fn concrete_vectors() {
    assert_eq!(hex::encode(&[0xAD, 0x87, 0x7F]), "ad877f");
    assert_eq!(hex::decode("ad877f").unwrap(), vec![0xADu8, 0x87, 0x7F]);
    // A 70-byte buffer crosses a block boundary and leaves a scalar tail.
    let (bytes, text) = samples().pop().unwrap();
    assert_eq!(bytes.len(), 70);
    assert_eq!(hex::decode(&hex::encode(&bytes)).unwrap(), bytes);
    assert_eq!(hex::encode(&hex::decode(text).unwrap()), text);
}

#[test]
fn round_trip() {
    for len in [0usize, 1, 2, 15, 16, 17, 31, 32, 33, 257] {
        let b: Vec<u8> = mixed_buffer().into_iter().take(len).collect();
        assert_eq!(hex::decode(&hex::encode(&b)).unwrap(), b);
        assert_eq!(fallback::decode(&fallback::encode(&b)).unwrap(), b);
        assert_eq!(sse2::decode(&sse2::encode(&b)).unwrap(), b);
        assert_eq!(avx2::decode(&avx2::encode(&b)).unwrap(), b);
    }
}

#[test]
fn cross_implementation_equivalence() {
    // Forcing each implementation directly must give bit-identical output.
    let b = mixed_buffer();
    let t_fallback = fallback::encode(&b);
    let t_sse2 = sse2::encode(&b);
    let t_avx2 = avx2::encode(&b);
    assert_eq!(t_fallback, t_sse2);
    assert_eq!(t_fallback, t_avx2);
    let d_fallback = fallback::decode(&t_fallback).unwrap();
    let d_sse2 = sse2::decode(&t_fallback).unwrap();
    let d_avx2 = avx2::decode(&t_fallback).unwrap();
    assert_eq!(d_fallback, b);
    assert_eq!(d_sse2, b);
    assert_eq!(d_avx2, b);
}

#[test]
fn table_agreement() {
    // For every possible byte value, the scalar table and both block paths
    // agree on validity and on the decoded value.
    for byte in 0..=255u8 {
        let input = [byte; 32];
        let mut out_fallback = [0u8; 16];
        let mut out_sse2 = [0u8; 16];
        let mut out_avx2 = [0u8; 16];
        let r_fallback = fallback::decode_noalloc(&input[..], &mut out_fallback[..]);
        let r_sse2 = sse2::decode_noalloc(&input[..], &mut out_sse2[..]);
        let r_avx2 = avx2::decode_noalloc(&input[..], &mut out_avx2[..]);
        assert_eq!(r_fallback, r_sse2);
        assert_eq!(r_fallback, r_avx2);
        if r_fallback.is_ok() {
            assert_eq!(out_fallback, out_sse2);
            assert_eq!(out_fallback, out_avx2);
        }
    }
}

#[test]
fn encode_empty() {
    assert_eq!(hex::encode(&[]), "");
    assert_eq!(hex::decode("").unwrap(), Vec::<u8>::new());
}
