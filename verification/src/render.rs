//! Rendering a layout as its canonical display string: `u<width>` for the
//! unsigned kind and `f<width>_e<exponent>m<mantissa>` for the real kind,
//! both bracketed with the repeat count when the group is larger than one,
//! and the decoded name, already folded and stripped, for the named kind.

use vstd::prelude::*;

verus! {

use crate::{DigitLayout, is_unsigned_code, is_real_code, unsigned_width_of, real_exponent_of,
    real_mantissa_of};
use crate::name_code::{decoded_name_bytes, valid_name_body};

/// The decimal digits of `n`, most significant first, as ASCII bytes.
pub open spec fn dec_bytes(n: nat) -> Seq<u8>
    decreases n,
{
    if n < 10 {
        seq![(n + 48) as u8]
    } else {
        dec_bytes(n / 10).push((n % 10 + 48) as u8)
    }
}

/// The core of a numeric rendering, bracketed with the repeat count when the
/// group is larger than one.
pub open spec fn group_wrap(core: Seq<u8>, group: u16) -> Seq<u8> {
    if group == 1 {
        core
    } else {
        // "[", the core, "; ", the group, "]"
        seq![91u8] + core + seq![59u8, 32u8] + dec_bytes(group as nat) + seq![93u8]
    }
}

/// The canonical rendering of a layout, as ASCII bytes.
pub open spec fn format_bytes(l: DigitLayout) -> Seq<u8> {
    let code = l.code_spec();
    if is_unsigned_code(code) {
        // "u", then the width
        group_wrap(seq![117u8] + dec_bytes(unsigned_width_of(code) as nat), l.group_spec())
    } else if is_real_code(code) {
        let e = real_exponent_of(code) as nat;
        let m = real_mantissa_of(code) as nat;
        // "f", the total width, "_e", the exponent, "m", the mantissa
        group_wrap(
            seq![102u8] + dec_bytes(1 + e + m) + seq![95u8, 101u8] + dec_bytes(e) + seq![109u8]
                + dec_bytes(m),
            l.group_spec(),
        )
    } else {
        decoded_name_bytes(code as nat)
    }
}

/// The characters an ASCII byte sequence spells.
pub open spec fn chars_of(s: Seq<u8>) -> Seq<char> {
    s.map_values(|b: u8| b as char)
}

/// Every byte of a decimal rendering is an ASCII digit.
pub proof fn lemma_dec_bytes_ascii(n: nat)
    ensures
        forall|i: int| 0 <= i < dec_bytes(n).len() ==> 48 <= #[trigger] dec_bytes(n)[i] <= 57,
    decreases n,
{
    if n >= 10 {
        lemma_dec_bytes_ascii(n / 10);
        assert forall|i: int| 0 <= i < dec_bytes(n).len() implies 48 <= #[trigger] dec_bytes(
            n,
        )[i] <= 57 by {
            if i < dec_bytes(n / 10).len() {
                assert(dec_bytes(n)[i] == dec_bytes(n / 10)[i]);
            }
        }
    }
}

/// Every byte of a decoded name is ASCII: a digit or a lower-case letter.
pub proof fn lemma_decoded_name_ascii(b: nat)
    requires
        valid_name_body(b),
    ensures
        forall|i: int|
            0 <= i < decoded_name_bytes(b).len() ==> #[trigger] decoded_name_bytes(b)[i] < 128,
    decreases b,
{
    if b > 0 {
        lemma_decoded_name_ascii(b / 37);
        assert forall|i: int|
            0 <= i < decoded_name_bytes(b).len() implies #[trigger] decoded_name_bytes(b)[i]
            < 128 by {
            if i > 0 {
                assert(decoded_name_bytes(b)[i] == decoded_name_bytes(b / 37)[i - 1]);
            }
        }
    }
}

/// Every byte of a rendering is ASCII, so the rendering spells a string.
pub proof fn lemma_format_bytes_ascii(l: DigitLayout)
    requires
        l.wf(),
    ensures
        forall|i: int| 0 <= i < format_bytes(l).len() ==> #[trigger] format_bytes(l)[i] < 128,
{
    let code = l.code_spec();
    if is_unsigned_code(code) {
        lemma_dec_bytes_ascii(unsigned_width_of(code) as nat);
    } else if is_real_code(code) {
        let e = real_exponent_of(code) as nat;
        let m = real_mantissa_of(code) as nat;
        lemma_dec_bytes_ascii(1 + e + m);
        lemma_dec_bytes_ascii(e);
        lemma_dec_bytes_ascii(m);
    } else {
        assert(code & 0xC000_0000u32 != 0xC000_0000u32) by (bit_vector)
            requires
                code & 0xE000_0000u32 != 0xE000_0000u32 && code & 0xE000_0000u32
                    != 0xC000_0000u32,
        ;
        lemma_decoded_name_ascii(code as nat);
    }
    lemma_dec_bytes_ascii(l.group_spec() as nat);
}

/// Appends the decimal rendering of `n`.
pub(crate) fn push_dec(v: &mut Vec<u8>, n: u32)
    ensures
        final(v)@ == old(v)@ + dec_bytes(n as nat),
    decreases n,
{
    if n >= 10 {
        push_dec(v, n / 10);
    }
    v.push(48 + (n % 10) as u8);
    proof {
        assert(v@ =~= old(v)@ + dec_bytes(n as nat));
    }
}

/// Relies on String::from_utf8: a buffer of bytes below 128 is valid UTF-8
/// and decodes to exactly those characters.
#[verifier::external_body]
pub(crate) fn ascii_to_string(bytes: Vec<u8>) -> (r: String)
    requires
        forall|i: int| 0 <= i < bytes@.len() ==> bytes@[i] < 128,
    ensures
        r@ == chars_of(bytes@),
{
    match String::from_utf8(bytes) {
        Ok(s) => s,
        Err(_) => String::new(),
    }
}

} // verus!
