//! Scalar codec: byte-at-a-time encode and decode through the canonical
//! tables. This is the correctness baseline the block-wise implementations
//! must match, and the path used when none of them is selected.

use vstd::prelude::*;
use vstd::string::StringSliceAdditionalSpecFns;

use super::{
    all_hex_digits, bytes_as_chars, decode_bytes, encode_bytes, first_invalid_at, is_hex_digit,
    pair_byte,
};
use super::{ascii_string, hex_encode_pair, nibble_decode, DecodeError};

verus! {

/// Decodes hex text into a fresh byte buffer.
///
/// Returns `OddLength` when the text length is not a multiple of 2, and
/// `InvalidCharAt` naming the first offending offset when a byte outside the
/// hex alphabet occurs; otherwise the decoded bytes, one per character pair.
pub fn decode(input: &str) -> (r: Result<Vec<u8>, DecodeError>)
    ensures
        match r {
            Ok(v) => {
                &&& input.spec_bytes().len() % 2 == 0
                &&& all_hex_digits(input.spec_bytes())
                &&& v@ == decode_bytes(input.spec_bytes())
            },
            Err(DecodeError::OddLength) => input.spec_bytes().len() % 2 != 0,
            Err(DecodeError::InvalidCharAt(p)) => {
                &&& input.spec_bytes().len() % 2 == 0
                &&& first_invalid_at(input.spec_bytes(), p as int)
            },
            Err(DecodeError::BadOffset) => false,
        },
{
    let p = input.as_bytes();
    let l = p.len();
    if l % 2 != 0 {
        return Err(DecodeError::OddLength);
    }
    let mut v: Vec<u8> = Vec::with_capacity(l / 2);
    let mut i: usize = 0;
    while i < l
        invariant
            p@ == input.spec_bytes(),
            l == p@.len(),
            l % 2 == 0,
            i % 2 == 0,
            i <= l,
            v@.len() == i / 2,
            forall|k: int| 0 <= k < i ==> is_hex_digit(#[trigger] p@[k]),
            forall|k: int| 0 <= k < i / 2 ==> v@[k] == pair_byte(p@[2 * k], p@[2 * k + 1]),
        decreases l - i,
    {
        let msn = nibble_decode(p[i]);
        if msn > 0xf {
            return Err(DecodeError::InvalidCharAt(i));
        }
        let lsn = nibble_decode(p[i + 1]);
        if lsn > 0xf {
            return Err(DecodeError::InvalidCharAt(i + 1));
        }
        v.push((msn << 4) | lsn);
        i += 2;
    }
    assert(v@ =~= decode_bytes(p@));
    Ok(v)
}

/// Decodes hex text into a caller-supplied buffer, allocating nothing.
///
/// The caller guarantees that the input length is even and that the buffer
/// holds exactly one byte per character pair.
pub fn decode_noalloc(input: &[u8], output: &mut [u8]) -> (r: Result<(), DecodeError>)
    requires
        input@.len() % 2 == 0,
        old(output)@.len() == input@.len() / 2,
    ensures
        final(output)@.len() == old(output)@.len(),
        match r {
            Ok(()) => all_hex_digits(input@) && final(output)@ == decode_bytes(input@),
            Err(DecodeError::InvalidCharAt(p)) => first_invalid_at(input@, p as int),
            Err(_) => false,
        },
{
    let len = input.len();
    let mut i: usize = 0;
    let mut j: usize = 0;
    while i < len
        invariant
            len == input@.len(),
            len % 2 == 0,
            i % 2 == 0,
            i <= len,
            j == i / 2,
            output@.len() == old(output)@.len(),
            output@.len() == input@.len() / 2,
            forall|k: int| 0 <= k < i ==> is_hex_digit(#[trigger] input@[k]),
            forall|k: int| 0 <= k < i / 2 ==> output@[k] == pair_byte(
                input@[2 * k],
                input@[2 * k + 1],
            ),
        decreases len - i,
    {
        let msn = nibble_decode(input[i]);
        if msn > 0xf {
            return Err(DecodeError::InvalidCharAt(i));
        }
        let lsn = nibble_decode(input[i + 1]);
        if lsn > 0xf {
            return Err(DecodeError::InvalidCharAt(i + 1));
        }
        output[j] = (msn << 4) | lsn;
        i += 2;
        j += 1;
    }
    assert(output@ =~= decode_bytes(input@));
    Ok(())
}

/// Encodes bytes as lowercase hex text, two characters per byte.
pub fn encode(input: &[u8]) -> (r: String)
    requires
        input@.len() * 2 <= usize::MAX,
    ensures
        r@ == bytes_as_chars(encode_bytes(input@)),
        r@.len() == input@.len() * 2,
{
    let len = input.len();
    let mut v: Vec<u8> = Vec::with_capacity(len * 2);
    let mut i: usize = 0;
    while i < len
        invariant
            len == input@.len(),
            len * 2 <= usize::MAX,
            i <= len,
            v@.len() == 2 * i,
            forall|k: int| 0 <= k < 2 * i ==> v@[k] == #[trigger] encode_bytes(input@)[k],
            forall|k: int| 0 <= k < v@.len() ==> #[trigger] v@[k] < 0x80,
        decreases len - i,
    {
        let (c0, c1) = hex_encode_pair(input[i]);
        v.push(c0);
        v.push(c1);
        i += 1;
    }
    let r = ascii_string(v);
    proof {
        assert(v@ =~= encode_bytes(input@));
    }
    r
}

/// Whether the host can run this implementation; the scalar path always can.
pub fn meet_requirements() -> (r: bool)
    ensures
        r == true,
{
    return true;
}

} // verus!
