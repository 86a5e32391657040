//! The Modified-UTF-8 text codec.
//!
//! The virtual machine stores strings as NUL-terminated byte buffers in a
//! UTF-8 variant: U+0000 is written as the overlong pair `C0 80` so that no
//! interior byte is zero, and scalar values above U+FFFF are written as six
//! bytes — two three-byte groups led by `ED` that mirror a UTF-16 surrogate
//! pair. `mutf8_encode` and `mutf8_buffer_decode` give the byte-exact
//! specification; `JavaChars` is the executable form.

use vstd::prelude::*;
use vstd::utf8::is_scalar;
use vstd::utf8::is_continuation_byte;

verus! {

// ---------------------------------------------------------------------------
// Encoding: bytes emitted for one scalar value
// ---------------------------------------------------------------------------
/// Lead byte of a two-byte group: `110xxxxx` carrying bits 6..11.
pub open spec fn lead_byte_two(v: u32) -> u8 {
    (0xC0 | (v >> 6)) as u8
}

/// Final continuation byte of a group: `10xxxxxx` carrying bits 0..6.
pub open spec fn cont_byte(v: u32) -> u8 {
    (0x80 | (v & 0x3F)) as u8
}

/// Lead byte of a three-byte group: `1110xxxx` carrying bits 12..16.
pub open spec fn lead_byte_three(v: u32) -> u8 {
    (0xE0 | (v >> 12)) as u8
}

/// Middle byte of a three-byte group: `10xxxxxx` carrying bits 6..12.
pub open spec fn mid_byte_three(v: u32) -> u8 {
    (0x80 | ((v >> 6) & 0x3F)) as u8
}

/// Offset of a supplementary-plane scalar above U+10000: a 20-bit value.
pub open spec fn sup_offset(v: u32) -> u32
    recommends
        0x10000 <= v <= 0x10FFFF,
{
    (v - 0x10000) as u32
}

/// Second byte of the high-surrogate group: `1010xxxx` carrying offset bits 16..20.
pub open spec fn high_marker_byte(s: u32) -> u8 {
    (0xA0 | (s >> 16)) as u8
}

/// Third byte of the high-surrogate group: `10xxxxxx` carrying offset bits 10..16.
pub open spec fn high_tail_byte(s: u32) -> u8 {
    (0x80 | ((s >> 10) & 0x3F)) as u8
}

/// Second byte of the low-surrogate group: `1011xxxx` carrying offset bits 6..10.
pub open spec fn low_marker_byte(s: u32) -> u8 {
    (0xB0 | ((s >> 6) & 0x0F)) as u8
}

/// Third byte of the low-surrogate group: `10xxxxxx` carrying offset bits 0..6.
pub open spec fn low_tail_byte(s: u32) -> u8 {
    (0x80 | (s & 0x3F)) as u8
}

/// The Modified-UTF-8 bytes of one Unicode scalar value. U+0000 shares the
/// two-byte branch: `0xC0 | (0 >> 6)` and `0x80 | (0 & 0x3F)` are exactly
/// the overlong pair `C0 80`.
pub open spec fn mutf8_encode_scalar(v: u32) -> Seq<u8>
    recommends
        is_scalar(v),
{
    if 1 <= v <= 0x7F {
        seq![v as u8]
    } else if v <= 0x7FF {
        seq![lead_byte_two(v), cont_byte(v)]
    } else if v <= 0xFFFF {
        seq![lead_byte_three(v), mid_byte_three(v), cont_byte(v)]
    } else {
        seq![
            0xEDu8,
            high_marker_byte(sup_offset(v)),
            high_tail_byte(sup_offset(v)),
            0xEDu8,
            low_marker_byte(sup_offset(v)),
            low_tail_byte(sup_offset(v)),
        ]
    }
}

/// The Modified-UTF-8 encoding of a character sequence, without the
/// terminating NUL byte.
pub open spec fn mutf8_encode(chars: Seq<char>) -> Seq<u8>
    decreases chars.len(),
{
    if chars.len() == 0 {
        Seq::empty()
    } else {
        mutf8_encode_scalar(chars[0] as u32) + mutf8_encode(chars.drop_first())
    }
}

// ---------------------------------------------------------------------------
// Decoding: reading back one group at a time
// ---------------------------------------------------------------------------
/// How many bytes the group starting at `bytes[0]` claims, judged from its
/// lead byte alone (with one byte of lookahead after `ED`, whose second byte
/// decides between an ordinary three-byte group and a surrogate pair).
/// Zero means the lead byte can open no group.
pub open spec fn first_group_len(bytes: Seq<u8>) -> int {
    if bytes.len() == 0 {
        0
    } else if 1 <= bytes[0] <= 0x7F {
        1
    } else if 0xC0 <= bytes[0] <= 0xDF {
        2
    } else if bytes[0] == 0xED && bytes.len() >= 2 && 0xA0 <= bytes[1] <= 0xBF {
        6
    } else if 0xE0 <= bytes[0] <= 0xEF {
        3
    } else {
        0
    }
}

/// Whether the group starting at `bytes[0]` is one the encoder produces:
/// the bytes are present, continuation bytes have their marker bits, no
/// overlong form is accepted (`C0` only before `80`, `C1` never, `E0` only
/// before `A0..BF`), and a surrogate-pair group has a valid high marker
/// (`A0..AF`), a second `ED` lead, and a `B0..BF` low marker.
pub open spec fn valid_first_group(bytes: Seq<u8>) -> bool {
    let n = first_group_len(bytes);
    if n == 1 {
        true
    } else if n == 2 {
        bytes.len() >= 2 && if bytes[0] == 0xC0 {
            bytes[1] == 0x80
        } else {
            bytes[0] >= 0xC2 && is_continuation_byte(bytes[1])
        }
    } else if n == 3 {
        bytes.len() >= 3 && is_continuation_byte(bytes[1]) && is_continuation_byte(bytes[2])
            && (bytes[0] == 0xE0 ==> bytes[1] >= 0xA0)
    } else if n == 6 {
        bytes.len() >= 6 && bytes[1] <= 0xAF && is_continuation_byte(bytes[2]) && bytes[3] == 0xED
            && 0xB0 <= bytes[4] <= 0xBF && is_continuation_byte(bytes[5])
    } else {
        false
    }
}

/// Scalar value carried by a two-byte group.
pub open spec fn two_byte_value(b0: u8, b1: u8) -> u32 {
    (((b0 & 0x1F) as u32) << 6) | ((b1 & 0x3F) as u32)
}

/// Scalar value carried by a three-byte group.
pub open spec fn three_byte_value(b0: u8, b1: u8, b2: u8) -> u32 {
    (((b0 & 0x0F) as u32) << 12) | (((b1 & 0x3F) as u32) << 6) | ((b2 & 0x3F) as u32)
}

/// Offset above U+10000 carried by a surrogate-pair group, from its second,
/// third, fifth and sixth bytes.
pub open spec fn six_byte_offset(b1: u8, b2: u8, b4: u8, b5: u8) -> u32 {
    (((b1 & 0x0F) as u32) << 16) | (((b2 & 0x3F) as u32) << 10) | (((b4 & 0x0F) as u32) << 6) | ((
    b5 & 0x3F) as u32)
}

/// The scalar value of the group starting at `bytes[0]`, assuming the group
/// is valid.
pub open spec fn first_group_scalar(bytes: Seq<u8>) -> u32
    recommends
        valid_first_group(bytes),
{
    let n = first_group_len(bytes);
    if n == 1 {
        bytes[0] as u32
    } else if n == 2 {
        if bytes[0] == 0xC0 {
            0
        } else {
            two_byte_value(bytes[0], bytes[1])
        }
    } else if n == 3 {
        three_byte_value(bytes[0], bytes[1], bytes[2])
    } else {
        (0x10000 + six_byte_offset(bytes[1], bytes[2], bytes[4], bytes[5])) as u32
    }
}

/// Decoding a whole NUL-terminated buffer. `None` on any byte pattern the
/// encoder cannot produce, and on a buffer with no terminator; bytes after
/// the first NUL are ignored, as the machine's own readers ignore them.
pub open spec fn mutf8_buffer_decode(bytes: Seq<u8>) -> Option<Seq<char>>
    decreases bytes.len(),
{
    if bytes.len() == 0 {
        None
    } else if bytes[0] == 0 {
        Some(Seq::empty())
    } else if valid_first_group(bytes) {
        match mutf8_buffer_decode(bytes.skip(first_group_len(bytes))) {
            Some(tail) => Some(seq![first_group_scalar(bytes) as char] + tail),
            None => None,
        }
    } else {
        None
    }
}

// ---------------------------------------------------------------------------
// One group encodes and decodes to the same scalar
// ---------------------------------------------------------------------------
// An ASCII scalar survives the cast to its single byte and back.
proof fn bv_group_one(v: u32)
    by (bit_vector)
    requires
        1 <= v <= 0x7F,
    ensures
        1 <= (v as u8) <= 0x7F,
        ((v as u8) as u32) == v,
{
}

// A two-byte group carries its scalar faithfully; U+0000 lands on `C0 80`.
proof fn bv_group_two(v: u32)
    by (bit_vector)
    requires
        v == 0 || (0x80 <= v <= 0x7FF),
    ensures
        0xC0 <= lead_byte_two(v) <= 0xDF,
        is_continuation_byte(cont_byte(v)),
        v == 0 ==> lead_byte_two(v) == 0xC0 && cont_byte(v) == 0x80,
        v != 0 ==> lead_byte_two(v) >= 0xC2,
        v != 0 ==> two_byte_value(lead_byte_two(v), cont_byte(v)) == v,
{
}

// A three-byte group carries its scalar faithfully, is never overlong, and —
// because `char` excludes the surrogate range — an `ED` lead is never
// followed by a surrogate marker.
proof fn bv_group_three(v: u32)
    by (bit_vector)
    requires
        0x800 <= v <= 0xFFFF,
        !(0xD800 <= v <= 0xDFFF),
    ensures
        0xE0 <= lead_byte_three(v) <= 0xEF,
        is_continuation_byte(mid_byte_three(v)),
        is_continuation_byte(cont_byte(v)),
        lead_byte_three(v) == 0xE0 ==> mid_byte_three(v) >= 0xA0,
        lead_byte_three(v) == 0xED ==> mid_byte_three(v) <= 0x9F,
        three_byte_value(lead_byte_three(v), mid_byte_three(v), cont_byte(v)) == v,
{
}

// A surrogate-pair group carries its 20-bit offset faithfully and its four
// data bytes fall in the ranges the decoder checks for.
proof fn bv_group_six(s: u32)
    by (bit_vector)
    requires
        s <= 0xFFFFF,
    ensures
        0xA0 <= high_marker_byte(s) <= 0xAF,
        is_continuation_byte(high_tail_byte(s)),
        0xB0 <= low_marker_byte(s) <= 0xBF,
        is_continuation_byte(low_tail_byte(s)),
        six_byte_offset(high_marker_byte(s), high_tail_byte(s), low_marker_byte(s), low_tail_byte(s))
            == s,
{
}

// A two-byte group can only carry eleven bits.
proof fn bv_decode_two_range(b0: u8, b1: u8)
    by (bit_vector)
    ensures
        two_byte_value(b0, b1) <= 0x7FF,
{
}

// A three-byte group carries sixteen bits, and outside the surrogate range
// as long as an `ED` lead is not followed by a surrogate marker.
proof fn bv_decode_three_range(b0: u8, b1: u8, b2: u8)
    by (bit_vector)
    requires
        0xE0 <= b0 <= 0xEF,
        0x80 <= b1 <= 0xBF,
        b0 == 0xED ==> b1 <= 0x9F,
    ensures
        three_byte_value(b0, b1, b2) <= 0xFFFF,
        !(0xD800 <= three_byte_value(b0, b1, b2) <= 0xDFFF),
{
}

// A surrogate-pair group carries a twenty-bit offset.
proof fn bv_decode_six_range(b1: u8, b2: u8, b4: u8, b5: u8)
    by (bit_vector)
    ensures
        six_byte_offset(b1, b2, b4, b5) <= 0xFFFFF,
{
}

/// Placed in front of any continuation `rest`, the encoding of one character
/// is read back as exactly one group: the group is valid, spans exactly the
/// emitted bytes, carries the character's scalar value, and contains no zero
/// byte.
pub proof fn lemma_encode_scalar_group(c: char, rest: Seq<u8>)
    ensures
        ({
            let enc = mutf8_encode_scalar(c as u32);
            let bytes = enc + rest;
            &&& 1 <= enc.len() <= 6
            &&& first_group_len(bytes) == enc.len()
            &&& valid_first_group(bytes)
            &&& first_group_scalar(bytes) == c as u32
            &&& bytes.skip(enc.len() as int) =~= rest
            &&& forall|i: int| 0 <= i < enc.len() ==> enc[i] != 0
        }),
{
    let v = c as u32;
    vstd::utf8::char_is_scalar(c);
    let enc = mutf8_encode_scalar(v);
    let bytes = enc + rest;
    if 1 <= v <= 0x7F {
        bv_group_one(v);
    } else if v <= 0x7FF {
        bv_group_two(v);
    } else if v <= 0xFFFF {
        bv_group_three(v);
    } else {
        let s = sup_offset(v);
        assert(s <= 0xFFFFF);
        bv_group_six(s);
        assert(first_group_scalar(bytes) == v);
    }
}

// ---------------------------------------------------------------------------
// Whole-sequence laws
// ---------------------------------------------------------------------------
/// Encoding distributes over concatenation: the byte stream of `s1 + s2` is
/// the byte stream of `s1` followed by that of `s2`.
pub proof fn lemma_mutf8_encode_concat(s1: Seq<char>, s2: Seq<char>)
    ensures
        mutf8_encode(s1 + s2) == mutf8_encode(s1) + mutf8_encode(s2),
    decreases s1.len(),
{
    if s1.len() == 0 {
        assert(s1 + s2 =~= s2);
        assert(mutf8_encode(s1) + mutf8_encode(s2) =~= mutf8_encode(s2));
    } else {
        assert((s1 + s2).drop_first() =~= s1.drop_first() + s2);
        lemma_mutf8_encode_concat(s1.drop_first(), s2);
        assert(mutf8_encode(s1 + s2) =~= mutf8_encode(s1) + mutf8_encode(s2));
    }
}

/// Appending one character appends exactly its group to the byte stream.
pub proof fn lemma_mutf8_encode_push(chars: Seq<char>, c: char)
    ensures
        mutf8_encode(chars.push(c)) == mutf8_encode(chars) + mutf8_encode_scalar(c as u32),
{
    assert(chars.push(c) =~= chars + seq![c]);
    lemma_mutf8_encode_concat(chars, seq![c]);
    let single = seq![c];
    assert(single.drop_first() =~= Seq::<char>::empty());
    assert(mutf8_encode(single.drop_first()) == Seq::<u8>::empty());
    assert(single[0] == c);
    assert(mutf8_encode(single) == mutf8_encode_scalar(c as u32) + Seq::<u8>::empty());
    assert(mutf8_encode_scalar(c as u32) + Seq::<u8>::empty() =~= mutf8_encode_scalar(
        c as u32,
    ));
}

/// Round trip: decoding a buffer that holds the encoding of `chars` followed
/// by the NUL terminator recovers `chars` exactly. In particular the empty
/// string's buffer is the single byte `00`, and U+0000 inside the text comes
/// back as a scalar, not as end-of-string.
pub proof fn lemma_mutf8_round_trip(chars: Seq<char>)
    ensures
        mutf8_buffer_decode(mutf8_encode(chars) + seq![0u8]) == Some(chars),
    decreases chars.len(),
{
    let bytes = mutf8_encode(chars) + seq![0u8];
    if chars.len() == 0 {
        assert(bytes =~= seq![0u8]);
        assert(mutf8_buffer_decode(bytes) == Some(Seq::<char>::empty()));
        assert(Seq::<char>::empty() =~= chars);
    } else {
        let c = chars[0];
        let v = c as u32;
        let enc0 = mutf8_encode_scalar(v);
        let rest = mutf8_encode(chars.drop_first()) + seq![0u8];
        assert(bytes =~= enc0 + rest);
        lemma_encode_scalar_group(c, rest);
        lemma_mutf8_round_trip(chars.drop_first());
        vstd::utf8::char_u32_cast(c, v);
        assert(bytes[0] == enc0[0]);
        assert(bytes[0] != 0);
        assert(bytes.skip(first_group_len(bytes)) =~= rest);
        assert(mutf8_buffer_decode(bytes) == Some(seq![c] + chars.drop_first()));
        assert(seq![c] + chars.drop_first() =~= chars);
    }
}

// Reversing a one-byte group gives back its byte.
proof fn bv_group_one_rev(b0: u8)
    by (bit_vector)
    requires
        1 <= b0 <= 0x7F,
    ensures
        1 <= (b0 as u32) <= 0x7F,
        ((b0 as u32) as u8) == b0,
{
}

// Reversing a valid two-byte group gives back its bytes.
proof fn bv_group_two_rev(b0: u8, b1: u8)
    by (bit_vector)
    requires
        0xC2 <= b0 <= 0xDF,
        is_continuation_byte(b1),
    ensures
        0x80 <= two_byte_value(b0, b1) <= 0x7FF,
        lead_byte_two(two_byte_value(b0, b1)) == b0,
        cont_byte(two_byte_value(b0, b1)) == b1,
{
}

// Reversing a valid three-byte group gives back its bytes.
proof fn bv_group_three_rev(b0: u8, b1: u8, b2: u8)
    by (bit_vector)
    requires
        0xE0 <= b0 <= 0xEF,
        is_continuation_byte(b1),
        is_continuation_byte(b2),
        b0 == 0xE0 ==> b1 >= 0xA0,
    ensures
        0x800 <= three_byte_value(b0, b1, b2) <= 0xFFFF,
        lead_byte_three(three_byte_value(b0, b1, b2)) == b0,
        mid_byte_three(three_byte_value(b0, b1, b2)) == b1,
        cont_byte(three_byte_value(b0, b1, b2)) == b2,
{
}

// Reversing a valid surrogate-pair group gives back its four data bytes.
proof fn bv_group_six_rev(b1: u8, b2: u8, b4: u8, b5: u8)
    by (bit_vector)
    requires
        0xA0 <= b1 <= 0xAF,
        is_continuation_byte(b2),
        0xB0 <= b4 <= 0xBF,
        is_continuation_byte(b5),
    ensures
        ({
            let s = six_byte_offset(b1, b2, b4, b5);
            &&& s <= 0xFFFFF
            &&& high_marker_byte(s) == b1
            &&& high_tail_byte(s) == b2
            &&& low_marker_byte(s) == b4
            &&& low_tail_byte(s) == b5
        }),
{
}

// A valid group is the encoder's output for the scalar it carries.
proof fn lemma_valid_group_is_encoding(bytes: Seq<u8>)
    requires
        valid_first_group(bytes),
    ensures
        is_scalar(first_group_scalar(bytes)),
        mutf8_encode_scalar(first_group_scalar(bytes)) =~= bytes.take(first_group_len(bytes)),
{
    let n = first_group_len(bytes);
    let v = first_group_scalar(bytes);
    if n == 1 {
        bv_group_one_rev(bytes[0]);
    } else if n == 2 {
        if bytes[0] == 0xC0 {
            bv_group_two(0);
        } else {
            bv_group_two_rev(bytes[0], bytes[1]);
        }
    } else if n == 3 {
        bv_group_three_rev(bytes[0], bytes[1], bytes[2]);
        // a three-byte group is never read where a surrogate pair starts,
        // so its scalar avoids the surrogate range
        if bytes[0] == 0xED {
            assert(!(0xA0 <= bytes[1] <= 0xBF));
        }
        bv_decode_three_range(bytes[0], bytes[1], bytes[2]);
    } else {
        bv_group_six_rev(bytes[1], bytes[2], bytes[4], bytes[5]);
    }
}

/// Strictness: whatever decodes was produced by the encoder. A buffer that
/// decodes to `chars` is exactly the encoding of `chars`, the terminator,
/// and bytes after the terminator that the readers ignore.
pub proof fn lemma_mutf8_decode_strict(bytes: Seq<u8>, chars: Seq<char>)
    requires
        mutf8_buffer_decode(bytes) == Some(chars),
    ensures
        bytes =~= mutf8_encode(chars) + seq![0u8] + bytes.skip(
            mutf8_encode(chars).len() + 1 as int,
        ),
    decreases bytes.len(),
{
    if bytes[0] == 0 {
        assert(chars =~= Seq::<char>::empty());
    } else {
        let n = first_group_len(bytes);
        let v = first_group_scalar(bytes);
        lemma_valid_group_is_encoding(bytes);
        assert(v < 0xD800 || (0xE000 <= v <= 0x10FFFF));
        assert(((v as char) as u32) == v);
        let rest = bytes.skip(n);
        let tail = mutf8_buffer_decode(rest).unwrap();
        assert(chars == seq![v as char] + tail);
        lemma_mutf8_decode_strict(rest, tail);
        assert(chars.drop_first() =~= tail);
        assert(chars[0] == v as char);
        assert((chars[0] as u32) == v);
        assert(mutf8_encode(chars) =~= mutf8_encode_scalar(v) + mutf8_encode(tail));
        assert(mutf8_encode_scalar(v).len() == n);
        assert(bytes =~= bytes.take(n) + rest);
        assert(bytes.skip(mutf8_encode(chars).len() + 1 as int) =~= rest.skip(
            mutf8_encode(tail).len() + 1 as int,
        ));
        assert(mutf8_encode(chars) + seq![0u8] + bytes.skip(mutf8_encode(chars).len() + 1 as int)
            =~= bytes.take(n) + (mutf8_encode(tail) + seq![0u8] + rest.skip(
            mutf8_encode(tail).len() + 1 as int,
        )));
    }
}

/// The encoder never writes a zero byte: only the terminator appended after
/// it is NUL, so the machine's NUL-terminated readers see the whole text.
pub proof fn lemma_mutf8_no_interior_nul(chars: Seq<char>)
    ensures
        forall|i: int| 0 <= i < mutf8_encode(chars).len() ==> mutf8_encode(chars)[i] != 0,
    decreases chars.len(),
{
    if chars.len() == 0 {
    } else {
        let enc0 = mutf8_encode_scalar(chars[0] as u32);
        let tail = mutf8_encode(chars.drop_first());
        lemma_encode_scalar_group(chars[0], tail);
        lemma_mutf8_no_interior_nul(chars.drop_first());
        assert forall|i: int| 0 <= i < mutf8_encode(chars).len() implies mutf8_encode(chars)[i]
            != 0 by {
            if i < enc0.len() {
                assert(mutf8_encode(chars)[i] == enc0[i]);
            } else {
                assert(mutf8_encode(chars)[i] == tail[i - enc0.len()]);
            }
        }
    }
}

/// Round trip for one scalar value: its encoding, terminated, decodes back
/// to exactly that scalar. In particular U+0000 decodes back as a character
/// of the text — its overlong pair contains no NUL byte, so only the
/// terminator ends the string.
pub proof fn lemma_scalar_round_trip(c: char)
    ensures
        mutf8_buffer_decode(mutf8_encode_scalar(c as u32) + seq![0u8]) == Some(seq![c]),
{
    lemma_mutf8_round_trip(seq![c]);
    assert(seq![c].drop_first() =~= Seq::<char>::empty());
    assert(mutf8_encode(Seq::<char>::empty()) == Seq::<u8>::empty());
    assert(mutf8_encode(seq![c]) =~= mutf8_encode_scalar(c as u32));
}

/// Encoding is a pure function of the text: the same characters always give
/// byte-identical buffers, so any two buffers produced for one string are
/// equal.
pub proof fn lemma_encode_deterministic(a: Seq<u8>, b: Seq<u8>, chars: Seq<char>)
    requires
        a == mutf8_encode(chars) + seq![0u8],
        b == mutf8_encode(chars) + seq![0u8],
    ensures
        a == b,
{
}

/// The empty string's buffer is exactly one byte, the NUL terminator, and
/// that one-byte buffer decodes to the empty string.
pub proof fn lemma_empty_buffer()
    ensures
        mutf8_encode(Seq::<char>::empty()) + seq![0u8] =~= seq![0u8],
        mutf8_buffer_decode(seq![0u8]) == Some(Seq::<char>::empty()),
{
    lemma_mutf8_round_trip(Seq::<char>::empty());
    assert(mutf8_encode(Seq::<char>::empty()) + seq![0u8] =~= seq![0u8]);
}

// The surrogate markers are ranges: top three bits `101` place a byte in
// `A0..BF`, and the `10` bit splits that range at `B0`.
proof fn bv_marker_ranges(b: u8)
    by (bit_vector)
    ensures
        (b & 0xE0 == 0xA0) == (0xA0 <= b <= 0xBF),
        (b & 0xE0 == 0xA0 && b & 0x10 != 0) == (0xB0 <= b <= 0xBF),
{
}

/// Malformed input: a buffer whose first group opens with the `ED` lead and
/// a byte whose top three bits are the surrogate marker `101` but whose
/// low-bit pattern is not a valid high-surrogate marker (the `10` bit is
/// set) decodes to nothing — never to a silently wrong scalar.
pub proof fn lemma_bad_surrogate_marker(bytes: Seq<u8>)
    requires
        bytes.len() >= 2,
        bytes[0] == 0xED,
        bytes[1] & 0xE0 == 0xA0,
        bytes[1] & 0x10 != 0,
    ensures
        mutf8_buffer_decode(bytes) is None,
{
    bv_marker_ranges(bytes[1]);
    assert(first_group_len(bytes) == 6);
    assert(!valid_first_group(bytes));
}

// ---------------------------------------------------------------------------
// UTF-16 code-unit counting, as the machine's string-length accessor reports
// ---------------------------------------------------------------------------
/// UTF-16 code units one character occupies: two beyond the basic plane.
pub open spec fn utf16_units(c: char) -> nat {
    if (c as u32) >= 0x10000 {
        2
    } else {
        1
    }
}

/// UTF-16 code units of a character sequence.
pub open spec fn utf16_len(chars: Seq<char>) -> nat
    decreases chars.len(),
{
    if chars.len() == 0 {
        0
    } else {
        utf16_units(chars[0]) + utf16_len(chars.drop_first())
    }
}

/// The UTF-16 count distributes over concatenation.
pub proof fn lemma_utf16_len_concat(s1: Seq<char>, s2: Seq<char>)
    ensures
        utf16_len(s1 + s2) == utf16_len(s1) + utf16_len(s2),
    decreases s1.len(),
{
    if s1.len() == 0 {
        assert(s1 + s2 =~= s2);
    } else {
        assert((s1 + s2).drop_first() =~= s1.drop_first() + s2);
        lemma_utf16_len_concat(s1.drop_first(), s2);
    }
}

/// No character needs more than two UTF-16 units, so a text of at most
/// half the interface's 32-bit index range always meets the length bound
/// that string creation asks for.
pub proof fn lemma_utf16_len_bound(chars: Seq<char>)
    ensures
        utf16_len(chars) <= 2 * chars.len(),
    decreases chars.len(),
{
    if chars.len() == 0 {
    } else {
        lemma_utf16_len_bound(chars.drop_first());
    }
}

/// Counts the UTF-16 code units of a character vector.
pub fn utf16_length(chars: &Vec<char>) -> (n: usize)
    requires
        utf16_len(chars@) <= usize::MAX,
    ensures
        n == utf16_len(chars@),
{
    let m = chars.len();
    let mut acc: usize = 0;
    let mut i: usize = 0;
    proof {
        assert(chars@.take(0) =~= Seq::<char>::empty());
    }
    while i < m
        invariant
            i <= m,
            m == chars@.len(),
            acc == utf16_len(chars@.take(i as int)),
            utf16_len(chars@) <= usize::MAX,
        decreases m - i,
    {
        let c = chars[i];
        proof {
            assert(chars@.take(i as int).push(c) =~= chars@.take(i + 1 as int));
            lemma_utf16_len_concat(chars@.take(i as int), seq![c]);
            assert(chars@.take(i as int) + seq![c] =~= chars@.take(i + 1 as int));
            assert(seq![c].drop_first() =~= Seq::<char>::empty());
            assert(utf16_len(Seq::<char>::empty()) == 0);
            assert(seq![c][0] == c);
            assert(utf16_len(seq![c]) == utf16_units(c));
            // the running total never passes the whole sequence's count
            assert(chars@.take(i + 1 as int) + chars@.skip(i + 1 as int) =~= chars@);
            lemma_utf16_len_concat(chars@.take(i + 1 as int), chars@.skip(i + 1 as int));
        }
        if (c as u32) >= 0x10000 {
            acc = acc + 2;
        } else {
            acc = acc + 1;
        }
        i = i + 1;
    }
    proof {
        assert(chars@.take(m as int) =~= chars@);
    }
    acc
}

// ---------------------------------------------------------------------------
// Executable codec
// ---------------------------------------------------------------------------
// Glues an already-decoded prefix onto the decoding of the remaining bytes.
spec fn opt_prepend(prefix: Seq<char>, tail: Option<Seq<char>>) -> Option<Seq<char>> {
    match tail {
        Some(t) => Some(prefix + t),
        None => None,
    }
}

// Consuming one valid group moves its character from the undecoded remainder
// onto the decoded prefix without changing what the whole buffer decodes to.
proof fn lemma_decode_step(bytes: Seq<u8>, i: int, prefix: Seq<char>)
    requires
        0 <= i < bytes.len(),
        bytes[i] != 0,
        valid_first_group(bytes.skip(i)),
    ensures
        opt_prepend(prefix, mutf8_buffer_decode(bytes.skip(i))) == opt_prepend(
            prefix.push(first_group_scalar(bytes.skip(i)) as char),
            mutf8_buffer_decode(bytes.skip(i + first_group_len(bytes.skip(i)))),
        ),
{
    let tail = bytes.skip(i);
    let k = first_group_len(tail);
    assert(tail[0] == bytes[i]);
    assert(1 <= k <= tail.len());
    assert(tail.skip(k) =~= bytes.skip(i + k));
    let c = first_group_scalar(tail) as char;
    match mutf8_buffer_decode(bytes.skip(i + k)) {
        Some(t) => {
            assert(prefix + (seq![c] + t) =~= prefix.push(c) + t);
        },
        None => {},
    }
}

/// Relies on char::from_u32: every Unicode scalar value converts to the
/// char with exactly that value, and only non-scalars give None.
#[verifier::external_body]
fn char_from_scalar(v: u32) -> (c: char)
    requires
        is_scalar(v),
    ensures
        c == (v as char),
{
    char::from_u32(v).unwrap()
}

/// Relies on String's FromIterator impl over char: the collected string
/// holds exactly the given characters in order.
#[verifier::external_body]
fn chars_to_string(v: Vec<char>) -> (s: String)
    ensures
        s@ == v@,
{
    String::from_iter(v)
}

/// Decodes a NUL-terminated Modified-UTF-8 buffer into its characters,
/// group by group, refusing every byte pattern the encoder cannot produce.
pub fn decode_buffer(bytes: &Vec<u8>) -> (r: Option<Vec<char>>)
    ensures
        r is Some <==> mutf8_buffer_decode(bytes@) is Some,
        r is Some ==> r.unwrap()@ == mutf8_buffer_decode(bytes@).unwrap(),
{
    let n = bytes.len();
    let mut out: Vec<char> = Vec::new();
    let mut i: usize = 0;
    proof {
        assert(bytes@.skip(0) =~= bytes@);
        match mutf8_buffer_decode(bytes@) {
            Some(t) => {
                assert(Seq::<char>::empty() + t =~= t);
            },
            None => {},
        }
    }
    loop
        invariant
            i <= n,
            n == bytes@.len(),
            mutf8_buffer_decode(bytes@) == opt_prepend(
                out@,
                mutf8_buffer_decode(bytes@.skip(i as int)),
            ),
        decreases n - i,
    {
        if i == n {
            // the buffer ended without a terminator
            proof {
                assert(bytes@.skip(i as int) =~= Seq::<u8>::empty());
            }
            return None;
        }
        let b = bytes[i];
        let ghost tail = bytes@.skip(i as int);
        proof {
            assert(tail[0] == bytes@[i as int]);
        }
        if b == 0 {
            proof {
                assert(mutf8_buffer_decode(tail) == Some(Seq::<char>::empty()));
                assert(out@ + Seq::<char>::empty() =~= out@);
            }
            return Some(out);
        } else if b <= 0x7F {
            proof {
                assert(first_group_len(tail) == 1);
                assert(first_group_scalar(tail) == b as u32);
                lemma_decode_step(bytes@, i as int, out@);
            }
            let c = char_from_scalar(b as u32);
            out.push(c);
            i = i + 1;
        } else if 0xC0 <= b && b <= 0xDF {
            if n - i < 2 {
                proof {
                    assert(!valid_first_group(tail));
                }
                return None;
            }
            let b1 = bytes[i + 1];
            proof {
                assert(tail[1] == bytes@[i as int + 1]);
                assert(first_group_len(tail) == 2);
            }
            if b == 0xC0 && b1 == 0x80 {
                proof {
                    assert(first_group_scalar(tail) == 0);
                    lemma_decode_step(bytes@, i as int, out@);
                }
                let c = char_from_scalar(0);
                out.push(c);
                i = i + 2;
            } else if b >= 0xC2 && 0x80 <= b1 && b1 <= 0xBF {
                let v = (((b & 0x1F) as u32) << 6) | ((b1 & 0x3F) as u32);
                proof {
                    bv_decode_two_range(b, b1);
                    assert(v == two_byte_value(b, b1));
                    assert(first_group_scalar(tail) == v);
                    lemma_decode_step(bytes@, i as int, out@);
                }
                let c = char_from_scalar(v);
                out.push(c);
                i = i + 2;
            } else {
                // `C0` before anything but `80`, a `C1` lead, or a missing
                // continuation marker: not a pattern the encoder makes
                proof {
                    assert(!valid_first_group(tail));
                }
                return None;
            }
        } else if b == 0xED && n - i >= 2 && 0xA0 <= bytes[i + 1] && bytes[i + 1] <= 0xBF {
            // surrogate-pair group
            let b1 = bytes[i + 1];
            proof {
                assert(tail[1] == bytes@[i as int + 1]);
                assert(first_group_len(tail) == 6);
            }
            if n - i < 6 {
                proof {
                    assert(!valid_first_group(tail));
                }
                return None;
            }
            let b2 = bytes[i + 2];
            let b3 = bytes[i + 3];
            let b4 = bytes[i + 4];
            let b5 = bytes[i + 5];
            proof {
                assert(tail[2] == bytes@[i as int + 2]);
                assert(tail[3] == bytes@[i as int + 3]);
                assert(tail[4] == bytes@[i as int + 4]);
                assert(tail[5] == bytes@[i as int + 5]);
            }
            if b1 <= 0xAF && 0x80 <= b2 && b2 <= 0xBF && b3 == 0xED && 0xB0 <= b4 && b4 <= 0xBF
                && 0x80 <= b5 && b5 <= 0xBF {
                let off = (((b1 & 0x0F) as u32) << 16) | (((b2 & 0x3F) as u32) << 10) | (((b4
                    & 0x0F) as u32) << 6) | ((b5 & 0x3F) as u32);
                proof {
                    bv_decode_six_range(b1, b2, b4, b5);
                    assert(off == six_byte_offset(b1, b2, b4, b5));
                }
                let v = 0x10000 + off;
                proof {
                    assert(first_group_scalar(tail) == v);
                    lemma_decode_step(bytes@, i as int, out@);
                }
                let c = char_from_scalar(v);
                out.push(c);
                i = i + 6;
            } else {
                // a high-surrogate marker in `B0..BF`, a missing second `ED`
                // lead, a bad low marker, or a bad continuation byte
                proof {
                    assert(!valid_first_group(tail));
                }
                return None;
            }
        } else if 0xE0 <= b && b <= 0xEF {
            // an ordinary three-byte group, including `ED` before a byte
            // that is no surrogate marker
            proof {
                assert(first_group_len(tail) == 3);
            }
            if n - i < 3 {
                proof {
                    assert(!valid_first_group(tail));
                }
                return None;
            }
            let b1 = bytes[i + 1];
            let b2 = bytes[i + 2];
            proof {
                assert(tail[1] == bytes@[i as int + 1]);
                assert(tail[2] == bytes@[i as int + 2]);
            }
            if 0x80 <= b1 && b1 <= 0xBF && 0x80 <= b2 && b2 <= 0xBF && (b != 0xE0 || b1 >= 0xA0) {
                let v = (((b & 0x0F) as u32) << 12) | (((b1 & 0x3F) as u32) << 6) | ((b2
                    & 0x3F) as u32);
                proof {
                    bv_decode_three_range(b, b1, b2);
                    assert(v == three_byte_value(b, b1, b2));
                    assert(first_group_scalar(tail) == v);
                    lemma_decode_step(bytes@, i as int, out@);
                }
                let c = char_from_scalar(v);
                out.push(c);
                i = i + 3;
            } else {
                // overlong `E0` form or a missing continuation marker
                proof {
                    assert(!valid_first_group(tail));
                }
                return None;
            }
        } else {
            // `80..BF` continuation byte or `F0..FF` in lead position:
            // malformed input, fatal for the source of these bytes
            proof {
                assert(first_group_len(tail) == 0);
                assert(!valid_first_group(tail));
            }
            return None;
        }
    }
}

/// A NUL-terminated Modified-UTF-8 buffer, as the virtual machine's string
/// entry points consume and produce it.
#[derive(Debug)]
pub struct JavaChars {
    contents: Vec<u8>,
}

impl View for JavaChars {
    type V = Seq<u8>;

    closed spec fn view(&self) -> Seq<u8> {
        self.contents@
    }
}

/// Appends the Modified-UTF-8 group of one character.
fn push_scalar(out: &mut Vec<u8>, c: char)
    ensures
        final(out)@ == old(out)@ + mutf8_encode_scalar(c as u32),
{
    let ghost prev = out@;
    let v = c as u32;
    proof {
        vstd::utf8::char_is_scalar(c);
    }
    if 1 <= v && v <= 0x7F {
        out.push(v as u8);
    } else if v <= 0x7FF {
        out.push((0xC0 | (v >> 6)) as u8);
        out.push((0x80 | (v & 0x3F)) as u8);
    } else if v <= 0xFFFF {
        out.push((0xE0 | (v >> 12)) as u8);
        out.push((0x80 | ((v >> 6) & 0x3F)) as u8);
        out.push((0x80 | (v & 0x3F)) as u8);
    } else {
        let s = v - 0x10000;
        out.push(0xED);
        out.push((0xA0 | (s >> 16)) as u8);
        out.push((0x80 | ((s >> 10) & 0x3F)) as u8);
        out.push(0xED);
        out.push((0xB0 | ((s >> 6) & 0x0F)) as u8);
        out.push((0x80 | (s & 0x3F)) as u8);
        proof {
            assert(s == sup_offset(v));
        }
    }
    proof {
        assert(out@ =~= prev + mutf8_encode_scalar(c as u32));
    }
}

impl JavaChars {
    /// Encodes a host string into a fresh Modified-UTF-8 buffer. Never fails:
    /// every `char` is a Unicode scalar value and every scalar value has a
    /// group. The buffer is the encoding of the text followed by one NUL.
    pub fn new(value: &str) -> (r: JavaChars)
        ensures
            r@ == mutf8_encode(value@) + seq![0u8],
    {
        let n = value.unicode_len();
        let mut contents: Vec<u8> = Vec::new();
        let mut i: usize = 0;
        while i < n
            invariant
                i <= n,
                n == value@.len(),
                contents@ == mutf8_encode(value@.take(i as int)),
            decreases n - i,
        {
            let c = value.get_char(i);
            push_scalar(&mut contents, c);
            proof {
                lemma_mutf8_encode_push(value@.take(i as int), c);
                assert(value@.take(i as int).push(value@[i as int]) =~= value@.take(i + 1 as int));
            }
            i = i + 1;
        }
        proof {
            assert(value@.take(n as int) =~= value@);
        }
        contents.push(0);
        JavaChars { contents }
    }

    /// Decodes the buffer back to host text. `Some` exactly when the bytes
    /// up to the first NUL are a sequence of valid groups (and a NUL is
    /// present); `None` on every malformed pattern, never a wrong string.
    pub fn to_string(&self) -> (r: Option<String>)
        ensures
            r is Some <==> mutf8_buffer_decode(self@) is Some,
            r is Some ==> r.unwrap()@ == mutf8_buffer_decode(self@).unwrap(),
    {
        match decode_buffer(&self.contents) {
            Some(chars) => Some(chars_to_string(chars)),
            None => None,
        }
    }

    /// Encodes a range of a character vector into a fresh buffer.
    pub fn encode_range(chars: &Vec<char>, start: usize, end: usize) -> (r: JavaChars)
        requires
            start <= end <= chars@.len(),
        ensures
            r@ == mutf8_encode(chars@.subrange(start as int, end as int)) + seq![0u8],
    {
        let mut contents: Vec<u8> = Vec::new();
        let mut i: usize = start;
        proof {
            assert(chars@.subrange(start as int, start as int) =~= Seq::<char>::empty());
        }
        while i < end
            invariant
                start <= i <= end,
                end <= chars@.len(),
                contents@ == mutf8_encode(chars@.subrange(start as int, i as int)),
            decreases end - i,
        {
            let c = chars[i];
            push_scalar(&mut contents, c);
            proof {
                lemma_mutf8_encode_push(chars@.subrange(start as int, i as int), c);
                assert(chars@.subrange(start as int, i as int).push(c) =~= chars@.subrange(
                    start as int,
                    i + 1 as int,
                ));
            }
            i = i + 1;
        }
        contents.push(0);
        JavaChars { contents }
    }

    /// The raw buffer, terminator included.
    pub fn as_vec(&self) -> (r: &Vec<u8>)
        ensures
            r@ == self@,
    {
        &self.contents
    }
}

} // verus!
