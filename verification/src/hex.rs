//! Hex encoding and decoding.
//!
//! This module holds the canonical specification of the codec (the nibble
//! decode table and the two-character encode table, as spec functions), the
//! error type, and the public entry points that dispatch to one of the three
//! implementations.

use vstd::prelude::*;
use vstd::string::StringExecFns;
use vstd::string::StringSliceAdditionalSpecFns;

pub mod avx2;
pub mod fallback;
pub mod sse2;

verus! {

/// Value the nibble decode table holds for a byte outside the hex alphabet.
pub const INVALID_NIBBLE: u8 = 255;

/// The canonical 256-entry nibble decode table: maps each of the 22 ASCII hex
/// digit characters (`0-9`, `A-F`, `a-f`) to its value 0..=15, and every other
/// byte to `INVALID_NIBBLE`.
pub open spec fn nibble_of(b: u8) -> u8 {
    if 0x30 <= b && b <= 0x39 {
        (b - 0x30) as u8
    } else if 0x41 <= b && b <= 0x46 {
        (b - 0x37) as u8
    } else if 0x61 <= b && b <= 0x66 {
        (b - 0x57) as u8
    } else {
        INVALID_NIBBLE
    }
}

/// A byte is a hex digit exactly when the canonical table maps it to a nibble.
pub open spec fn is_hex_digit(b: u8) -> bool {
    nibble_of(b) <= 0xf
}

/// Lowercase hex character for a nibble value (meaningful for `n < 16`).
pub open spec fn hex_char_of(n: u8) -> u8 {
    if n < 10 {
        (0x30 + n) as u8
    } else {
        (0x57 + n) as u8
    }
}

/// Most significant nibble of a byte.
pub open spec fn hi_nibble(b: u8) -> u8 {
    b >> 4
}

/// Least significant nibble of a byte.
pub open spec fn lo_nibble(b: u8) -> u8 {
    b & 0x0f
}

/// The encoded text of a byte sequence: two lowercase hex characters per
/// byte, most significant nibble first.
pub open spec fn encode_bytes(s: Seq<u8>) -> Seq<u8> {
    Seq::new(
        (s.len() * 2) as nat,
        |i: int| if i % 2 == 0 {
            hex_char_of(hi_nibble(s[i / 2]))
        } else {
            hex_char_of(lo_nibble(s[i / 2]))
        },
    )
}

/// The byte a pair of hex characters decodes to (meaningful when both are
/// hex digits).
pub open spec fn pair_byte(hi: u8, lo: u8) -> u8 {
    (nibble_of(hi) << 4) | nibble_of(lo)
}

/// The bytes a hex text decodes to: one byte per character pair.
pub open spec fn decode_bytes(t: Seq<u8>) -> Seq<u8> {
    Seq::new((t.len() / 2) as nat, |i: int| pair_byte(t[2 * i], t[2 * i + 1]))
}

/// Every byte of the text is a hex digit.
pub open spec fn all_hex_digits(t: Seq<u8>) -> bool {
    forall|i: int| 0 <= i < t.len() ==> is_hex_digit(#[trigger] t[i])
}

/// The characters of a byte sequence that holds only ASCII (such as encoded
/// hex text), read back as text.
pub open spec fn bytes_as_chars(s: Seq<u8>) -> Seq<char> {
    s.map_values(|b: u8| b as char)
}

/// `p` is the position of the first byte of `t` outside the hex alphabet.
pub open spec fn first_invalid_at(t: Seq<u8>, p: int) -> bool {
    &&& 0 <= p < t.len()
    &&& !is_hex_digit(t[p])
    &&& forall|j: int| 0 <= j < p ==> is_hex_digit(#[trigger] t[j])
}

#[derive(Debug, PartialEq, Eq, Structural)]
pub enum DecodeError {
    /// The input text length is not a multiple of 2.
    OddLength,
    /// A byte outside the hex alphabet was found at this text offset.
    InvalidCharAt(usize),
    /// Offset was less than alignment (it needs to be at least equal or greater).
    BadOffset,
}

// ---- In-register table emulation ----
//
// The block codecs emulate a 16-lane byte shuffle: every lane's index byte
// selects an entry of a 16-byte table held in a register, and an index with
// its high bit set selects the instruction's miss value 0. So that a miss can
// be told from a hit, the decode tables hold the bitwise complement of each
// nibble value (never 0): a successfully decoded lane always has its high bit
// set, and one mask of the lanes' high bits validates a whole block.

/// Entry `k` of the in-register table for the digit window: the complements
/// of 0..=9 at indices 0..=9 (`'0'..='9'` sit at the start of their window).
pub open spec fn digit_lut(k: u8) -> u8 {
    if k < 10 {
        !k
    } else {
        0u8
    }
}

/// Entry `k` of the in-register table for the two letter windows: the
/// complements of 10..=15 at indices 1..=6 (`'A'`/`'a'` sit one past the
/// window bases 0x40 and 0x60).
pub open spec fn letter_lut(k: u8) -> u8 {
    if 1 <= k && k <= 6 {
        !((k + 9) as u8)
    } else {
        0u8
    }
}

/// One lane of a byte shuffle against the digit-window table.
pub open spec fn shuffle_digit(idx: u8) -> u8 {
    if idx >= 0x80 {
        0u8
    } else {
        digit_lut(idx & 0x0f)
    }
}

/// One lane of a byte shuffle against the letter-window table.
pub open spec fn shuffle_letter(idx: u8) -> u8 {
    if idx >= 0x80 {
        0u8
    } else {
        letter_lut(idx & 0x0f)
    }
}

/// One lane of a byte shuffle against the encode table `"0123456789abcdef"`.
pub open spec fn shuffle_hex_char(idx: u8) -> u8 {
    if idx >= 0x80 {
        0u8
    } else {
        hex_char_of(idx & 0x0f)
    }
}

/// Lane-local index into the 16-byte window starting at `base` (wrapping, as
/// lane subtraction does).
pub open spec fn window_index(x: u8, base: u8) -> u8 {
    (x - base) as u8
}

/// One lane of a range-comparison mask: all bits set when `lo <= x <= hi`.
pub open spec fn range_mask(x: u8, lo: u8, hi: u8) -> u8 {
    if lo <= x && x <= hi {
        0xffu8
    } else {
        0u8
    }
}

/// One lane of the digit-window shuffle: the table entry selected by the
/// index's low four bits, or the miss value when its high bit is set.
pub(crate) fn shuffle_digit_lane(idx: u8) -> (r: u8)
    ensures
        r == shuffle_digit(idx),
{
    if idx >= 0x80 {
        0
    } else {
        let k = idx & 0x0f;
        if k < 10 {
            !k
        } else {
            0
        }
    }
}

/// One lane of the letter-window shuffle.
pub(crate) fn shuffle_letter_lane(idx: u8) -> (r: u8)
    ensures
        r == shuffle_letter(idx),
{
    if idx >= 0x80 {
        0
    } else {
        let k = idx & 0x0f;
        if 1 <= k && k <= 6 {
            proof {
                assert((idx & 0x0f) < 16) by (bit_vector);
            }
            !(k + 9)
        } else {
            0
        }
    }
}

/// One lane of the encode-table shuffle.
pub(crate) fn hex_char_lane(idx: u8) -> (r: u8)
    ensures
        r == shuffle_hex_char(idx),
{
    if idx >= 0x80 {
        0
    } else {
        let k = idx & 0x0f;
        if k < 10 {
            0x30 + k
        } else {
            proof {
                assert((idx & 0x0f) < 16) by (bit_vector);
            }
            0x57 + k
        }
    }
}

/// Lane subtraction: the index of `x` within the window starting at `base`.
pub(crate) fn window_index_of(x: u8, base: u8) -> (r: u8)
    ensures
        r == window_index(x, base),
{
    proof {
        assert((x - base + 256) as u8 == (x - base) as u8) by (bit_vector);
    }
    x.wrapping_sub(base)
}

/// A byte buffer of the given length, ready to be decoded into.
pub(crate) fn byte_buffer(n: usize) -> (v: Vec<u8>)
    ensures
        v@.len() == n,
{
    let mut v: Vec<u8> = Vec::with_capacity(n);
    let mut t: usize = 0;
    while t < n
        invariant
            t <= n,
            v@.len() == t,
        decreases n - t,
    {
        v.push(0);
        t += 1;
    }
    v
}

/// Relies on String::from_utf8: a vector of ASCII bytes becomes the string
/// of exactly those characters (for ASCII input the conversion never fails).
#[verifier::external_body]
pub(crate) fn ascii_string(v: Vec<u8>) -> (r: String)
    requires
        forall|i: int| 0 <= i < v@.len() ==> v@[i] < 0x80,
    ensures
        r@ == bytes_as_chars(v@),
{
    String::from_utf8(v).unwrap()
}

/// Decimal digit characters of `n`, most significant first.
pub open spec fn decimal_chars(n: nat) -> Seq<u8>
    decreases n,
{
    if n < 10 {
        seq![(0x30 + n) as u8]
    } else {
        decimal_chars(n / 10).push((0x30 + n % 10) as u8)
    }
}

/// The description of an error, as [`DecodeError::message`] words it.
pub open spec fn message_chars(e: DecodeError) -> Seq<char> {
    match e {
        DecodeError::OddLength => "odd length, hexadecimal strings should be always even"@,
        DecodeError::InvalidCharAt(pos) => "invalid hexadecimal char at "@ + bytes_as_chars(
            decimal_chars(pos as nat),
        ),
        DecodeError::BadOffset => "not enough offset was given, it needs to be equal or greater than alignment"@,
    }
}

/// The decimal digits of `n`, most significant first, as ASCII bytes.
fn decimal_string(n: usize) -> (v: Vec<u8>)
    ensures
        v@ == decimal_chars(n as nat),
        forall|i: int| 0 <= i < v@.len() ==> #[trigger] v@[i] < 0x80,
{
    let mut v: Vec<u8> = Vec::new();
    let mut m: usize = n;
    // Peel the least significant digits off, prepending each.
    while m >= 10
        invariant
            m <= n,
            decimal_chars(n as nat) == decimal_chars(m as nat) + v@,
            forall|i: int| 0 <= i < v@.len() ==> #[trigger] v@[i] < 0x80,
        decreases m,
    {
        let d: u8 = 0x30 + (m % 10) as u8;
        v.insert(0, d);
        proof {
            assert(decimal_chars(n as nat) =~= decimal_chars((m / 10) as nat) + v@);
        }
        m = m / 10;
    }
    let d: u8 = 0x30 + (m as u8);
    v.insert(0, d);
    proof {
        assert(decimal_chars(n as nat) =~= v@);
    }
    v
}

impl DecodeError {
    /// The error's description in words; `InvalidCharAt` names the offset in
    /// decimal.
    pub fn message(&self) -> (r: String)
        ensures
            r@ == message_chars(*self),
    {
        match self {
            DecodeError::OddLength => "odd length, hexadecimal strings should be always even".to_owned(),
            DecodeError::InvalidCharAt(pos) => {
                let mut s = "invalid hexadecimal char at ".to_owned();
                let digits = ascii_string(decimal_string(*pos));
                s.append(digits.as_str());
                s
            },
            DecodeError::BadOffset => "not enough offset was given, it needs to be equal or greater than alignment".to_owned(),
        }
    }
}

/// Scalar lookup in the canonical nibble decode table.
pub(crate) fn nibble_decode(b: u8) -> (n: u8)
    ensures
        n == nibble_of(b),
{
    if 0x30 <= b && b <= 0x39 {
        b - 0x30
    } else if 0x41 <= b && b <= 0x46 {
        b - 0x37
    } else if 0x61 <= b && b <= 0x66 {
        b - 0x57
    } else {
        INVALID_NIBBLE
    }
}

/// Scalar lookup in the value-to-text encode table: the two lowercase hex
/// characters of a byte, most significant nibble first.
pub(crate) fn hex_encode_pair(b: u8) -> (r: (u8, u8))
    ensures
        r.0 == hex_char_of(hi_nibble(b)),
        r.1 == hex_char_of(lo_nibble(b)),
        r.0 < 0x80,
        r.1 < 0x80,
{
    proof {
        assert((b >> 4) < 16 && (b & 0x0f) < 16) by (bit_vector);
    }
    let hi = b >> 4;
    let lo = b & 0x0f;
    let c0 = if hi < 10 {
        0x30 + hi
    } else {
        0x57 + hi
    };
    let c1 = if lo < 10 {
        0x30 + lo
    } else {
        0x57 + lo
    };
    (c0, c1)
}

/// Table agreement: the canonical scalar table and the lane lookups of both
/// block paths classify every one of the 256 byte values identically, and
/// give the same nibble value for each of the 22 hex digit characters. A
/// mismatch here would be silent data corruption, not a crash.
pub proof fn lemma_table_agreement()
    ensures
        forall|x: u8| ((#[trigger] sse2::lane_decode(x)) != 0) == is_hex_digit(x),
        forall|x: u8| ((#[trigger] avx2::lane_decode_wide(x)) != 0) == is_hex_digit(x),
        forall|x: u8| is_hex_digit(x) ==> !(#[trigger] sse2::lane_decode(x)) == nibble_of(x),
        forall|x: u8| is_hex_digit(x) ==> !(#[trigger] avx2::lane_decode_wide(x)) == nibble_of(x),
        forall|x: u8| #[trigger] sse2::lane_decode(x) == avx2::lane_decode_wide(x),
{
    sse2::lemma_lane_table_agreement();
    avx2::lemma_lane_table_agreement_wide();
    assert(forall|v: u8| #[trigger] (!(!v)) == v) by (bit_vector);
    assert forall|x: u8| #[trigger] sse2::lane_decode(x) == avx2::lane_decode_wide(x) by {
        if is_hex_digit(x) {
            assert(!(sse2::lane_decode(x)) == nibble_of(x));
            assert(!(avx2::lane_decode_wide(x)) == nibble_of(x));
            assert(sse2::lane_decode(x) == !(!(sse2::lane_decode(x))));
            assert(avx2::lane_decode_wide(x) == !(!(avx2::lane_decode_wide(x))));
        } else {
            assert(sse2::lane_decode(x) == 0);
            assert(avx2::lane_decode_wide(x) == 0);
        }
    }
}

/// Round trip: the encoded text of any byte sequence is even-length valid
/// hex, and decoding it gives the original bytes back.
pub proof fn lemma_round_trip(b: Seq<u8>)
    ensures
        encode_bytes(b).len() == 2 * b.len(),
        encode_bytes(b).len() % 2 == 0,
        all_hex_digits(encode_bytes(b)),
        decode_bytes(encode_bytes(b)) == b,
{
    let t = encode_bytes(b);
    assert forall|i: int| 0 <= i < t.len() implies is_hex_digit(#[trigger] t[i]) by {
        let x = b[i / 2];
        assert(x >> 4 < 16 && x & 0x0f < 16) by (bit_vector);
    }
    assert forall|i: int| 0 <= i < b.len() implies decode_bytes(t)[i] == b[i] by {
        let x = b[i];
        assert(t[2 * i] == hex_char_of(hi_nibble(x)));
        assert(t[2 * i + 1] == hex_char_of(lo_nibble(x)));
        assert((nibble_of(hex_char_of(x >> 4)) << 4) | nibble_of(hex_char_of(x & 0x0f)) == x)
            by (bit_vector);
    }
    assert(decode_bytes(t) =~= b);
}

/// ASCII uppercase of a byte: the lowercase letters mapped up, all else kept.
pub open spec fn ascii_upper(b: u8) -> u8 {
    if 0x61 <= b && b <= 0x7a {
        (b - 0x20) as u8
    } else {
        b
    }
}

/// ASCII lowercase of a byte: the uppercase letters mapped down, all else
/// kept.
pub open spec fn ascii_lower(b: u8) -> u8 {
    if 0x41 <= b && b <= 0x5a {
        (b + 0x20) as u8
    } else {
        b
    }
}

/// A byte sequence with every letter mapped to ASCII uppercase.
pub open spec fn ascii_upper_bytes(t: Seq<u8>) -> Seq<u8> {
    t.map_values(|b: u8| ascii_upper(b))
}

/// A byte sequence with every letter mapped to ASCII lowercase.
pub open spec fn ascii_lower_bytes(t: Seq<u8>) -> Seq<u8> {
    t.map_values(|b: u8| ascii_lower(b))
}

/// Case insensitivity: valid hex text stays valid under ASCII case mapping
/// in either direction, and decodes to the same bytes.
pub proof fn lemma_decode_case_insensitive(t: Seq<u8>)
    requires
        all_hex_digits(t),
    ensures
        all_hex_digits(ascii_upper_bytes(t)),
        all_hex_digits(ascii_lower_bytes(t)),
        decode_bytes(ascii_upper_bytes(t)) == decode_bytes(t),
        decode_bytes(ascii_lower_bytes(t)) == decode_bytes(t),
{
    let up = ascii_upper_bytes(t);
    let lo = ascii_lower_bytes(t);
    assert(forall|x: u8|
        is_hex_digit(x) ==> is_hex_digit(#[trigger] ascii_upper(x)) && nibble_of(ascii_upper(x))
            == nibble_of(x)) by (bit_vector);
    assert(forall|x: u8|
        is_hex_digit(x) ==> is_hex_digit(#[trigger] ascii_lower(x)) && nibble_of(ascii_lower(x))
            == nibble_of(x)) by (bit_vector);
    assert forall|i: int| 0 <= i < up.len() implies is_hex_digit(#[trigger] up[i]) by {
        assert(up[i] == ascii_upper(t[i]));
    }
    assert forall|i: int| 0 <= i < lo.len() implies is_hex_digit(#[trigger] lo[i]) by {
        assert(lo[i] == ascii_lower(t[i]));
    }
    assert forall|i: int| 0 <= i < t.len() / 2 implies decode_bytes(up)[i] == decode_bytes(t)[i]
        && decode_bytes(lo)[i] == decode_bytes(t)[i] by {
        assert(up[2 * i] == ascii_upper(t[2 * i]));
        assert(up[2 * i + 1] == ascii_upper(t[2 * i + 1]));
        assert(lo[2 * i] == ascii_lower(t[2 * i]));
        assert(lo[2 * i + 1] == ascii_lower(t[2 * i + 1]));
    }
    assert(decode_bytes(up) =~= decode_bytes(t));
    assert(decode_bytes(lo) =~= decode_bytes(t));
}

/// `n` is a power of two.
pub open spec fn is_power_of_two(n: int) -> bool
    decreases n,
{
    if n <= 0 {
        false
    } else if n == 1 {
        true
    } else {
        n % 2 == 0 && is_power_of_two(n / 2)
    }
}

/// A view into a caller-owned buffer: after a successful aligned decode the
/// decoded bytes occupy `buf[start .. start + len]`, and their start address
/// satisfies the requested alignment.
#[derive(Debug, PartialEq, Eq, Structural, Clone, Copy)]
pub struct AlignedView {
    pub start: usize,
    pub len: usize,
}

/// Relies on slice::as_ptr and the pointer-to-integer cast: the address of
/// the buffer's first byte. The value depends on where the allocator placed
/// the buffer, so nothing further is promised of it.
#[verifier::external_body]
fn buffer_addr(v: &Vec<u8>) -> usize {
    v.as_ptr() as usize
}

/// Fast hex string decode. No error description is provided.
pub fn decode_noerr(input: &str) -> (r: Result<Vec<u8>, ()>)
    ensures
        match r {
            Ok(v) => {
                &&& input.spec_bytes().len() % 2 == 0
                &&& all_hex_digits(input.spec_bytes())
                &&& v@ == decode_bytes(input.spec_bytes())
            },
            Err(()) => input.spec_bytes().len() % 2 != 0 || !all_hex_digits(input.spec_bytes()),
        },
{
    if avx2::meet_requirements() {
        match avx2::decode(input) {
            Ok(v) => Ok(v),
            Err(_) => Err(()),
        }
    } else if sse2::meet_requirements() {
        match sse2::decode(input) {
            Ok(v) => Ok(v),
            Err(_) => Err(()),
        }
    } else {
        match fallback::decode(input) {
            Ok(v) => Ok(v),
            Err(_) => Err(()),
        }
    }
}

/// Decodes a hex string with all error messages, useful when dealing with
/// recoverable code logic or when an error message is required to facilitate
/// user action.
///
/// Returns `OddLength` when the text length is not a multiple of 2, and
/// `InvalidCharAt` naming the first offending byte offset when a byte outside
/// the hex alphabet occurs; otherwise the decoded bytes, one per character
/// pair. Whichever implementation the dispatcher selects, the result is the
/// same.
pub fn decode(input: &str) -> (r: Result<Vec<u8>, DecodeError>)
    ensures
        match r {
            Ok(v) => {
                &&& input.spec_bytes().len() % 2 == 0
                &&& all_hex_digits(input.spec_bytes())
                &&& v@ == decode_bytes(input.spec_bytes())
            },
            Err(DecodeError::OddLength) => input.spec_bytes().len() % 2 != 0,
            Err(DecodeError::InvalidCharAt(p)) => {
                &&& input.spec_bytes().len() % 2 == 0
                &&& first_invalid_at(input.spec_bytes(), p as int)
            },
            Err(DecodeError::BadOffset) => false,
        },
{
    if avx2::meet_requirements() {
        avx2::decode(input)
    } else if sse2::meet_requirements() {
        sse2::decode(input)
    } else {
        fallback::decode(input)
    }
}

/// Decodes a hex string without allocating any memory.
///
/// The caller guarantees that the buffer holds exactly one byte per character
/// pair whenever the text length is even; odd-length text is rejected before
/// the buffer is touched.
pub fn decode_noalloc(input: &str, output: &mut [u8]) -> (r: Result<(), DecodeError>)
    requires
        input.spec_bytes().len() % 2 == 0 ==> old(output)@.len() == input.spec_bytes().len() / 2,
    ensures
        final(output)@.len() == old(output)@.len(),
        match r {
            Ok(()) => {
                &&& input.spec_bytes().len() % 2 == 0
                &&& all_hex_digits(input.spec_bytes())
                &&& final(output)@ == decode_bytes(input.spec_bytes())
            },
            Err(DecodeError::OddLength) => input.spec_bytes().len() % 2 != 0 && final(output)@
                == old(output)@,
            Err(DecodeError::InvalidCharAt(p)) => {
                &&& input.spec_bytes().len() % 2 == 0
                &&& first_invalid_at(input.spec_bytes(), p as int)
            },
            Err(DecodeError::BadOffset) => false,
        },
{
    let p = input.as_bytes();
    let c = p.len();
    if c % 2 != 0 {
        return Err(DecodeError::OddLength);
    }
    if avx2::meet_requirements() {
        avx2::decode_noalloc(p, output)
    } else if sse2::meet_requirements() {
        sse2::decode_noalloc(p, output)
    } else {
        fallback::decode_noalloc(p, output)
    }
}

/// Decodes a hex text buffer in place, starting from `offset`, with a given
/// `align`ment.
///
/// The caller has padded the text with at least `align` leading placeholder
/// bytes; decoding writes the decoded bytes over the start of the buffer,
/// beginning at the smallest start position whose memory address (as
/// `buffer_addr` reports it) is divisible by `align`. The buffer no longer
/// holds valid text afterwards; the returned view names the span of the
/// buffer holding the decoded bytes.
///
/// `offset` must be greater than or equal to `align`, or `BadOffset` is
/// returned; the text after `offset` must have even length, or `OddLength`;
/// a byte outside the hex alphabet gives `InvalidCharAt` with the offset
/// counted from `offset`. Because the decoded output is half the size of its
/// source text and the start position precedes `offset`, the write never
/// overtakes the unread text.
pub fn decode_aligned(input: &mut Vec<u8>, offset: usize, align: usize) -> (r: Result<
    AlignedView,
    DecodeError,
>)
    requires
        offset <= old(input)@.len(),
        is_power_of_two(align as int),
    ensures
        final(input)@.len() == old(input)@.len(),
        match r {
            Ok(view) => {
                &&& !(align > 1 && offset < align)
                &&& (old(input)@.len() - offset) % 2 == 0
                &&& all_hex_digits(old(input)@.skip(offset as int))
                &&& view.start < align
                &&& view.start <= offset
                &&& view.len == (old(input)@.len() - offset) / 2
                &&& view.start + view.len <= final(input)@.len()
                &&& final(input)@.subrange(
                    view.start as int,
                    view.start + view.len,
                ) == decode_bytes(old(input)@.skip(offset as int))
            },
            Err(DecodeError::BadOffset) => align > 1 && offset < align && final(input)@ == old(
                input,
            )@,
            Err(DecodeError::OddLength) => {
                &&& !(align > 1 && offset < align)
                &&& (old(input)@.len() - offset) % 2 != 0
                &&& final(input)@ == old(input)@
            },
            Err(DecodeError::InvalidCharAt(p)) => {
                &&& !(align > 1 && offset < align)
                &&& (old(input)@.len() - offset) % 2 == 0
                &&& first_invalid_at(old(input)@.skip(offset as int), p as int)
            },
        },
{
    // Safe only when the offset is at least the alignment requirement.
    if align > 1 && offset < align {
        return Err(DecodeError::BadOffset);
    }
    let len = input.len();
    if (len - offset) % 2 != 0 {
        return Err(DecodeError::OddLength);
    }
    // Smallest forward adjustment of the buffer's base to reach the
    // requested alignment; it stays below `align`, hence at most `offset`.
    let addr = buffer_addr(input);
    let a = (align - addr % align) % align;
    let n = (len - offset) / 2;
    // Decode in place: every read at `offset + 2j` stays ahead of the write
    // at `a + j`, so the unread text is never clobbered.
    let mut j: usize = 0;
    while j < n
        invariant
            input@.len() == old(input)@.len(),
            offset <= old(input)@.len(),
            n == (old(input)@.len() - offset) / 2,
            (old(input)@.len() - offset) % 2 == 0,
            offset + 2 * n == old(input)@.len(),
            old(input)@.len() <= usize::MAX,
            !(align > 1 && offset < align),
            a <= offset,
            j <= n,
            forall|k: int| offset + 2 * j <= k < input@.len() ==> input@[k] == old(input)@[k],
            forall|k: int|
                0 <= k < j ==> #[trigger] input@[a + k] == pair_byte(
                    old(input)@[offset + 2 * k],
                    old(input)@[offset + 2 * k + 1],
                ),
            forall|k: int| offset <= k < offset + 2 * j ==> is_hex_digit(#[trigger] old(input)@[k]),
        decreases n - j,
    {
        let h = input[offset + 2 * j];
        let l = input[offset + 2 * j + 1];
        proof {
            let text = old(input)@.skip(offset as int);
            assert forall|m: int| 0 <= m < 2 * j implies is_hex_digit(#[trigger] text[m]) by {
                assert(text[m] == old(input)@[offset + m]);
            }
            assert(text[2 * j] == old(input)@[offset + 2 * j]);
            assert(text[2 * j + 1] == old(input)@[offset + 2 * j + 1]);
        }
        let msn = nibble_decode(h);
        if msn > 0xf {
            return Err(DecodeError::InvalidCharAt(2 * j));
        }
        let lsn = nibble_decode(l);
        if lsn > 0xf {
            return Err(DecodeError::InvalidCharAt(2 * j + 1));
        }
        input[a + j] = (msn << 4) | lsn;
        j += 1;
    }
    proof {
        let text = old(input)@.skip(offset as int);
        assert forall|m: int| 0 <= m < text.len() implies is_hex_digit(#[trigger] text[m]) by {
            assert(text[m] == old(input)@[offset + m]);
        }
        assert forall|k: int|
            0 <= k < n implies input@.subrange(a as int, a + n as int)[k] == decode_bytes(
            text,
        )[k] by {
            assert(text[2 * k] == old(input)@[offset + 2 * k]);
            assert(text[2 * k + 1] == old(input)@[offset + 2 * k + 1]);
            assert(input@[a + k] == pair_byte(
                old(input)@[offset + 2 * k],
                old(input)@[offset + 2 * k + 1],
            ));
        }
        assert(input@.subrange(a as int, a + n as int) =~= decode_bytes(text));
    }
    Ok(AlignedView { start: a, len: n })
}

/// Encodes bytes as lowercase hex text, two characters per byte, through
/// whichever implementation the dispatcher selects; the result is the same
/// for each.
pub fn encode(input: &[u8]) -> (r: String)
    requires
        input@.len() * 2 <= usize::MAX,
    ensures
        r@ == bytes_as_chars(encode_bytes(input@)),
        r@.len() == input@.len() * 2,
{
    if avx2::meet_requirements() {
        avx2::encode(input)
    } else if sse2::meet_requirements() {
        sse2::encode(input)
    } else {
        fallback::encode(input)
    }
}

} // verus!
