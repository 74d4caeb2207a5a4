//! 128-bit block codec: processes 16 bytes per step.
//!
//! Decoding classifies all 16 lanes at once into three ASCII windows
//! (`'0'..='9'`, `'A'..='F'`, `'a'..='f'`), looks every lane up in a 16-entry
//! in-register table holding the bitwise complement of each nibble value,
//! aggregates the three window results with bitwise OR (the windows are
//! disjoint, so at most one contributes a nonzero lane), validates the whole
//! block through one mask of the lanes' high bits, and pairs adjacent lanes
//! into output bytes while undoing the complement. When the block mask fails,
//! a secondary scan of the block recovers the exact offending offset, so this
//! path reports error positions exactly as the scalar path does. Input left
//! over after the last full block is handled by the scalar algorithm.

use vstd::prelude::*;
use vstd::string::StringSliceAdditionalSpecFns;

use super::{
    all_hex_digits, bytes_as_chars, decode_bytes, encode_bytes, first_invalid_at, is_hex_digit,
    nibble_of, pair_byte, range_mask, shuffle_digit, shuffle_letter, window_index,
};
use super::{
    ascii_string, byte_buffer, hex_char_lane, hex_encode_pair, nibble_decode, shuffle_digit_lane,
    shuffle_letter_lane, window_index_of, DecodeError,
};

verus! {

/// What one lane of the block classifier decodes a byte to: the complement of
/// its nibble value when the byte is a hex digit, 0 otherwise. The three
/// window masks are combined with bitwise OR after each window's table
/// shuffle.
pub open spec fn lane_decode(x: u8) -> u8 {
    (shuffle_digit(window_index(x, 0x30)) & range_mask(x, 0x30, 0x3f)) | (shuffle_letter(
        window_index(x, 0x40),
    ) & range_mask(x, 0x40, 0x4f)) | (shuffle_letter(window_index(x, 0x60)) & range_mask(
        x,
        0x60,
        0x6f,
    ))
}

/// The block path's lookup agrees with the canonical nibble table on every
/// one of the 256 byte values: a lane decodes to nonzero (equivalently, to a
/// value with its high bit set) exactly for the 22 hex digit characters, and
/// then to the complement of the value the canonical table gives.
pub proof fn lemma_lane_table_agreement()
    ensures
        forall|x: u8| ((#[trigger] lane_decode(x)) & 0x80 != 0) <==> is_hex_digit(x),
        forall|x: u8| (#[trigger] lane_decode(x)) != 0 <==> is_hex_digit(x),
        forall|x: u8| is_hex_digit(x) ==> !(#[trigger] lane_decode(x)) == nibble_of(x),
{
    assert(forall|x: u8|
        ((#[trigger] lane_decode(x)) & 0x80 != 0) <==> (0x30 <= x && x <= 0x39) || (0x41 <= x && x
            <= 0x46) || (0x61 <= x && x <= 0x66)) by (bit_vector);
    assert(forall|x: u8|
        (#[trigger] lane_decode(x)) != 0 <==> (0x30 <= x && x <= 0x39) || (0x41 <= x && x <= 0x46)
            || (0x61 <= x && x <= 0x66)) by (bit_vector);
    assert(forall|x: u8|
        ((0x30 <= x && x <= 0x39) || (0x41 <= x && x <= 0x46) || (0x61 <= x && x <= 0x66))
            ==> !(#[trigger] lane_decode(x)) == (if 0x30 <= x && x <= 0x39 {
            (x - 0x30) as u8
        } else if 0x41 <= x && x <= 0x46 {
            (x - 0x37) as u8
        } else {
            (x - 0x57) as u8
        })) by (bit_vector);
}

/// Decodes one 16-byte block starting at `i` into 8 bytes, or reports the
/// absolute offset of the first byte of the block outside the hex alphabet.
fn decode_block16(input: &[u8], i: usize) -> (r: Result<[u8; 8], usize>)
    requires
        i + 16 <= input@.len(),
    ensures
        match r {
            Ok(out) => {
                &&& forall|k: int| i <= k < i + 16 ==> is_hex_digit(#[trigger] input@[k])
                &&& forall|k: int|
                    0 <= k < 8 ==> out@[k] == pair_byte(
                        input@[i + 2 * k],
                        input@[i + 2 * k + 1],
                    )
            },
            Err(p) => {
                &&& i <= p < i + 16
                &&& !is_hex_digit(input@[p as int])
                &&& forall|j: int| i <= j < p ==> is_hex_digit(#[trigger] input@[j])
            },
        },
{
    let len = input.len();
    // Classify and look up all 16 lanes.
    let mut dec: [u8; 16] = [0u8; 16];
    let mut lane: usize = 0;
    while lane < 16
        invariant
            i + 16 <= input@.len(),
            len == input@.len(),
            lane <= 16,
            forall|k: int| 0 <= k < lane ==> #[trigger] dec@[k] == lane_decode(input@[i + k]),
        decreases 16 - lane,
    {
        let x = input[i + lane];
        // Range-comparison masks for the three windows.
        let m3: u8 = if 0x30 <= x && x <= 0x3f {
            0xff
        } else {
            0
        };
        let m4: u8 = if 0x40 <= x && x <= 0x4f {
            0xff
        } else {
            0
        };
        let m6: u8 = if 0x60 <= x && x <= 0x6f {
            0xff
        } else {
            0
        };
        // Lane-local window indices.
        let i3 = window_index_of(x, 0x30);
        let i4 = window_index_of(x, 0x40);
        let i6 = window_index_of(x, 0x60);
        // In-register table lookups.
        let v3 = shuffle_digit_lane(i3);
        let v4 = shuffle_letter_lane(i4);
        let v6 = shuffle_letter_lane(i6);
        // Aggregate: the windows are disjoint, at most one lane is nonzero.
        let d = (v3 & m3) | (v4 & m4) | (v6 & m6);
        dec[lane] = d;
        lane += 1;
    }
    // The lanes' high bits, checked as one mask: every decoded lane is a
    // complemented nibble value (high bit set); a missed lookup left 0.
    let mut all_valid: bool = true;
    let mut lane: usize = 0;
    while lane < 16
        invariant
            lane <= 16,
            forall|k: int| 0 <= k < 16 ==> #[trigger] dec@[k] == lane_decode(input@[i + k]),
            i + 16 <= input@.len(),
            all_valid <==> (forall|k: int| 0 <= k < lane ==> (#[trigger] dec@[k]) & 0x80 != 0),
        decreases 16 - lane,
    {
        all_valid = all_valid && (dec[lane] & 0x80 != 0);
        lane += 1;
    }
    if !all_valid {
        // Secondary scan: recover the exact offset of the first bad byte.
        let mut k: usize = 0;
        while k < 16
            invariant
                i + 16 <= input@.len(),
                len == input@.len(),
                k <= 16,
                forall|j: int| i <= j < i + k ==> is_hex_digit(#[trigger] input@[j]),
            decreases 16 - k,
        {
            if nibble_decode(input[i + k]) > 0xf {
                return Err(i + k);
            }
            k += 1;
        }
        // Unreachable: some lane failed the mask, so some byte is invalid.
        proof {
            lemma_lane_table_agreement();
        }
        assert(false);
        return Err(i);
    }
    // Pair adjacent lanes (even lane holds the most significant nibble) and
    // undo the complement.
    let mut out: [u8; 8] = [0u8; 8];
    let mut k: usize = 0;
    while k < 8
        invariant
            i + 16 <= input@.len(),
            k <= 8,
            forall|m: int| 0 <= m < 16 ==> #[trigger] dec@[m] == lane_decode(input@[i + m]),
            forall|m: int| 0 <= m < 16 ==> (#[trigger] dec@[m]) & 0x80 != 0,
            forall|m: int|
                0 <= m < k ==> #[trigger] out@[m] == pair_byte(
                    input@[i + 2 * m],
                    input@[i + 2 * m + 1],
                ),
        decreases 8 - k,
    {
        proof {
            lemma_lane_table_agreement();
        }
        let hi = !dec[2 * k];
        let lo = !dec[2 * k + 1];
        out[k] = (hi << 4) | lo;
        k += 1;
    }
    proof {
        lemma_lane_table_agreement();
        assert forall|k: int| i <= k < i + 16 implies is_hex_digit(input@[k]) by {
            assert(dec@[k - i] == lane_decode(input@[i + (k - i)]));
            assert(dec@[k - i] & 0x80 != 0);
        }
    }
    Ok(out)
}

/// Decodes hex text into a fresh byte buffer, 16 bytes of text per block.
///
/// Same contract as the scalar path: `OddLength` for odd-length text,
/// `InvalidCharAt` naming the first offending offset, otherwise the decoded
/// bytes.
pub fn decode(input: &str) -> (r: Result<Vec<u8>, DecodeError>)
    ensures
        match r {
            Ok(v) => {
                &&& input.spec_bytes().len() % 2 == 0
                &&& all_hex_digits(input.spec_bytes())
                &&& v@ == decode_bytes(input.spec_bytes())
            },
            Err(DecodeError::OddLength) => input.spec_bytes().len() % 2 != 0,
            Err(DecodeError::InvalidCharAt(p)) => {
                &&& input.spec_bytes().len() % 2 == 0
                &&& first_invalid_at(input.spec_bytes(), p as int)
            },
            Err(DecodeError::BadOffset) => false,
        },
{
    let p = input.as_bytes();
    let l = p.len();
    if l % 2 != 0 {
        return Err(DecodeError::OddLength);
    }
    let mut v = byte_buffer(l / 2);
    match decode_noalloc(p, v.as_mut_slice()) {
        Ok(()) => Ok(v),
        Err(e) => Err(e),
    }
}

/// Decodes hex text into a caller-supplied buffer, allocating nothing.
///
/// The caller guarantees that the input length is even and that the buffer
/// holds exactly one byte per character pair.
pub fn decode_noalloc(input: &[u8], output: &mut [u8]) -> (r: Result<(), DecodeError>)
    requires
        input@.len() % 2 == 0,
        old(output)@.len() == input@.len() / 2,
    ensures
        final(output)@.len() == old(output)@.len(),
        match r {
            Ok(()) => all_hex_digits(input@) && final(output)@ == decode_bytes(input@),
            Err(DecodeError::InvalidCharAt(p)) => first_invalid_at(input@, p as int),
            Err(_) => false,
        },
{
    let len = input.len();
    let mut i: usize = 0;
    let mut j: usize = 0;
    // Whole 16-byte blocks.
    while len - i >= 16
        invariant
            len == input@.len(),
            len % 2 == 0,
            i % 2 == 0,
            i <= len,
            j == i / 2,
            output@.len() == old(output)@.len(),
            output@.len() == input@.len() / 2,
            forall|k: int| 0 <= k < i ==> is_hex_digit(#[trigger] input@[k]),
            forall|k: int|
                0 <= k < i / 2 ==> output@[k] == pair_byte(input@[2 * k], input@[2 * k + 1]),
        decreases len - i,
    {
        match decode_block16(input, i) {
            Ok(block) => {
                let mut k: usize = 0;
                while k < 8
                    invariant
                        i + 16 <= input@.len(),
                        i % 2 == 0,
                        j == i / 2,
                        k <= 8,
                        output@.len() == old(output)@.len(),
                        output@.len() == input@.len() / 2,
                        forall|m: int|
                            0 <= m < 8 ==> #[trigger] block@[m] == pair_byte(
                                input@[i + 2 * m],
                                input@[i + 2 * m + 1],
                            ),
                        forall|m: int|
                            0 <= m < i / 2 + k ==> output@[m] == pair_byte(
                                input@[2 * m],
                                input@[2 * m + 1],
                            ),
                    decreases 8 - k,
                {
                    output[j + k] = block[k];
                    k += 1;
                }
            },
            Err(p) => {
                return Err(DecodeError::InvalidCharAt(p));
            },
        }
        i += 16;
        j += 8;
    }
    // Scalar tail: fewer than 16 bytes remain.
    while i < len
        invariant
            len == input@.len(),
            len % 2 == 0,
            i % 2 == 0,
            i <= len,
            j == i / 2,
            output@.len() == old(output)@.len(),
            output@.len() == input@.len() / 2,
            forall|k: int| 0 <= k < i ==> is_hex_digit(#[trigger] input@[k]),
            forall|k: int|
                0 <= k < i / 2 ==> output@[k] == pair_byte(input@[2 * k], input@[2 * k + 1]),
        decreases len - i,
    {
        let msn = nibble_decode(input[i]);
        if msn > 0xf {
            return Err(DecodeError::InvalidCharAt(i));
        }
        let lsn = nibble_decode(input[i + 1]);
        if lsn > 0xf {
            return Err(DecodeError::InvalidCharAt(i + 1));
        }
        output[j] = (msn << 4) | lsn;
        i += 2;
        j += 1;
    }
    assert(output@ =~= decode_bytes(input@));
    Ok(())
}

/// Encodes one 16-byte block starting at `i` into 32 hex characters: the
/// nibbles are split with mask and shift, each is looked up through the
/// encode-table shuffle, and the two results are interleaved back into
/// character-pair order.
fn encode_block16(input: &[u8], i: usize) -> (out: [u8; 32])
    requires
        i + 16 <= input@.len(),
        2 * input@.len() <= usize::MAX,
    ensures
        forall|m: int| 0 <= m < 32 ==> #[trigger] out@[m] == encode_bytes(input@)[2 * i + m],
        forall|m: int| 0 <= m < 32 ==> #[trigger] out@[m] < 0x80,
{
    let mut out: [u8; 32] = [0u8; 32];
    let mut lane: usize = 0;
    while lane < 16
        invariant
            i + 16 <= input@.len(),
            2 * input@.len() <= usize::MAX,
            lane <= 16,
            forall|m: int| 0 <= m < 2 * lane ==> #[trigger] out@[m] == encode_bytes(input@)[2 * i + m],
            forall|m: int| 0 <= m < 2 * lane ==> #[trigger] out@[m] < 0x80,
        decreases 16 - lane,
    {
        let x = input[i + lane];
        // Nibble split by mask and shift.
        let mn = (x & 0xf0) >> 4;
        let ln = x & 0x0f;
        proof {
            assert((x & 0xf0) >> 4 == x >> 4 && ((x & 0xf0) >> 4) < 0x80 && ((x & 0xf0) >> 4)
                & 0x0f == x >> 4 && (x & 0x0f) < 0x80 && (x & 0x0f) & 0x0f == x & 0x0f && x >> 4
                < 16 && x & 0x0f < 16) by (bit_vector);
        }
        // Encode-table lookups for both nibble streams.
        let ch = hex_char_lane(mn);
        let cl = hex_char_lane(ln);
        // Interleave most and least significant characters.
        out[2 * lane] = ch;
        out[2 * lane + 1] = cl;
        lane += 1;
    }
    out
}

/// Encodes bytes as lowercase hex text, 16 bytes per block; bytes left after
/// the last full block go through the scalar table.
pub fn encode(input: &[u8]) -> (r: String)
    requires
        input@.len() * 2 <= usize::MAX,
    ensures
        r@ == bytes_as_chars(encode_bytes(input@)),
        r@.len() == input@.len() * 2,
{
    let len = input.len();
    let mut v: Vec<u8> = Vec::with_capacity(len * 2);
    let mut i: usize = 0;
    while len - i >= 16
        invariant
            len == input@.len(),
            len * 2 <= usize::MAX,
            i <= len,
            v@.len() == 2 * i,
            forall|k: int| 0 <= k < 2 * i ==> v@[k] == #[trigger] encode_bytes(input@)[k],
            forall|k: int| 0 <= k < v@.len() ==> #[trigger] v@[k] < 0x80,
        decreases len - i,
    {
        let block = encode_block16(input, i);
        let mut k: usize = 0;
        while k < 32
            invariant
                len == input@.len(),
                len * 2 <= usize::MAX,
                i + 16 <= len,
                k <= 32,
                v@.len() == 2 * i + k,
                forall|m: int| 0 <= m < 32 ==> #[trigger] block@[m] == encode_bytes(input@)[2 * i + m],
                forall|m: int| 0 <= m < 32 ==> #[trigger] block@[m] < 0x80,
                forall|m: int| 0 <= m < v@.len() ==> v@[m] == #[trigger] encode_bytes(input@)[m],
                forall|m: int| 0 <= m < v@.len() ==> #[trigger] v@[m] < 0x80,
            decreases 32 - k,
        {
            v.push(block[k]);
            k += 1;
        }
        i += 16;
    }
    // Scalar tail.
    while i < len
        invariant
            len == input@.len(),
            len * 2 <= usize::MAX,
            i <= len,
            v@.len() == 2 * i,
            forall|k: int| 0 <= k < 2 * i ==> v@[k] == #[trigger] encode_bytes(input@)[k],
            forall|k: int| 0 <= k < v@.len() ==> #[trigger] v@[k] < 0x80,
        decreases len - i,
    {
        let (c0, c1) = hex_encode_pair(input[i]);
        v.push(c0);
        v.push(c1);
        i += 1;
    }
    let r = ascii_string(v);
    proof {
        assert(v@ =~= encode_bytes(input@));
    }
    r
}

/// Whether the host can run this implementation. The block algorithm here is
/// expressed with portable lane operations, so every host qualifies.
pub fn meet_requirements() -> (r: bool)
    ensures
        r == true,
{
    return true;
}

} // verus!
