//! The laws the codec obeys, stated over the spec-level code constructors and
//! payload readers that the factories' and `decode`'s contracts use: each
//! factory's code decodes back to exactly the content it was built from, and
//! the three kinds' codes can never be mistaken for one another.

use vstd::prelude::*;

verus! {

use crate::{is_unsigned_code, is_real_code, is_named_code, unsigned_code, real_code,
    unsigned_width_of, real_exponent_of, real_mantissa_of, is_layout_width};
use crate::name_code::{name_digits, name_body, folded, padded8, name_buffer, valid_name_body,
    pow37, is_name_char, is_sep_char, char_digit, digit_byte, decoded_name_bytes,
    lemma_name_digits_bounded, lemma_name_body_round_trip, lemma_name_body_bound,
    lemma_pow37_mono, lemma_pow37_values, lemma_name_buffer_decoded};

/// Round trip of the unsigned kind: the code built for a width is an
/// unsigned-kind code and yields that width back, whatever the group, since
/// the group is carried beside the code and never touches it.
pub proof fn lemma_unsigned_round_trip(width: u16)
    requires
        is_layout_width(width as int),
    ensures
        is_unsigned_code(unsigned_code(width)),
        unsigned_width_of(unsigned_code(width)) == width as u32,
{
    let w: u32 = width as u32;
    assert((0xE000_0000u32 | w) & 0xE000_0000u32 == 0xE000_0000u32 && (0xE000_0000u32 | w)
        & !0xE000_0000u32 == w) by (bit_vector)
        requires
            w <= 0xFFFF,
    ;
}

/// Round trip of the real kind: the code built for an exponent and a mantissa
/// is a real-kind code and yields both widths back, whatever the group. The
/// exponent must fit its 8-bit subfield: a wider one, such as an exponent of
/// 256 with a mantissa of 255, comes back truncated.
pub proof fn lemma_real_round_trip(exponent: u16, mantissa: u16)
    requires
        is_layout_width(1 + exponent as int + mantissa as int),
        exponent <= 0xFF,
    ensures
        is_real_code(real_code(exponent, mantissa)),
        real_exponent_of(real_code(exponent, mantissa)) == exponent as u32,
        real_mantissa_of(real_code(exponent, mantissa)) == mantissa as u32,
{
    let e: u32 = exponent as u32;
    let m: u32 = mantissa as u32;
    assert((0xC000_0000u32 | ((e << 16u32) | m)) & 0xE000_0000u32 == 0xC000_0000u32 && (((
    0xC000_0000u32 | ((e << 16u32) | m)) & !0xE000_0000u32) >> 16u32) & 0xFFu32 == e && (
    0xC000_0000u32 | ((e << 16u32) | m)) & 0xFFFFu32 == m) by (bit_vector)
        requires
            e <= 0xFF,
            m <= 0xFFFF,
    ;
}

/// Round trip of the named kind: the body packed from a name of at most six
/// digits is a named-kind code, and the buffer it decodes to spells the name
/// with separators stripped and letters folded to lower case, then zero bytes.
pub proof fn lemma_named_round_trip(s: Seq<char>)
    requires
        forall|i: int| 0 <= i < s.len() ==> is_name_char(s[i]),
        name_digits(s).len() <= 6,
    ensures
        name_body(name_digits(s)) < pow37(6),
        valid_name_body(name_body(name_digits(s))),
        is_named_code(name_body(name_digits(s)) as u32),
        name_buffer(name_body(name_digits(s)) as u32) == padded8(folded(s)),
{
    let d = name_digits(s);
    let body = name_body(d);
    lemma_name_digits_bounded(s);
    lemma_name_body_round_trip(d);
    lemma_name_body_bound(d);
    lemma_pow37_mono(d.len(), 6);
    lemma_pow37_values();
    let b: u32 = body as u32;
    assert(b & 0xC000_0000u32 != 0xC000_0000u32) by (bit_vector)
        requires
            b < 2565726409u32,
    ;
    lemma_name_buffer_decoded(b);
    assert(decoded_name_bytes(b as nat) =~= folded(s));
}

/// What folding does to one character: an upper-case letter comes back as its
/// lower-case form, 32 code points up; every other name character comes back
/// as itself. So `folded` spells the name lower-cased, separators stripped.
pub proof fn lemma_folded_char(c: char)
    requires
        is_name_char(c),
        !is_sep_char(c),
    ensures
        digit_byte(char_digit(c)) == if 65 <= c as u32 && c as u32 <= 90 {
            (c as u32 + 32) as u8
        } else {
            c as u8
        },
{
}

/// Disjointness of the kinds: no code is of two kinds at once, so a code
/// built by one factory can never decode as another kind's content.
pub proof fn lemma_kinds_disjoint(code: u32)
    ensures
        is_unsigned_code(code) ==> !is_real_code(code) && !is_named_code(code),
        is_real_code(code) ==> !is_unsigned_code(code) && !is_named_code(code),
        is_named_code(code) ==> !is_unsigned_code(code) && !is_real_code(code),
{
    assert((code & 0xE000_0000u32 == 0xE000_0000u32 ==> code & 0xC000_0000u32 == 0xC000_0000u32)
        && (code & 0xE000_0000u32 == 0xC000_0000u32 ==> code & 0xC000_0000u32 == 0xC000_0000u32))
        by (bit_vector);
}

} // verus!
