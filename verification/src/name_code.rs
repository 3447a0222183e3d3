//! The base-37 name codec: a short alphanumeric name, case-insensitive and
//! with `_` and `.` stripped, is packed into one integer by treating each
//! remaining character as one base-37 digit shifted up by one, so a zero
//! digit position is distinguishable from the end of the name.

use vstd::prelude::*;

verus! {

/// 37 to the `n`th power: the positional weight of the `n`th name digit.
pub open spec fn pow37(n: nat) -> nat
    decreases n,
{
    if n == 0 {
        1
    } else {
        37 * pow37((n - 1) as nat)
    }
}

/// A separator character, `_` or `.`: stripped from names, carrying no digit.
pub open spec fn is_sep_char(c: char) -> bool {
    c as u32 == 95 || c as u32 == 46
}

/// A character a name may hold: a decimal digit, an ASCII letter of either
/// case, or a separator.
pub open spec fn is_name_char(c: char) -> bool {
    ||| (48 <= c as u32 && c as u32 <= 57)
    ||| (97 <= c as u32 && c as u32 <= 122)
    ||| (65 <= c as u32 && c as u32 <= 90)
    ||| is_sep_char(c)
}

/// The digit value of a non-separator name character: 0 to 9 for decimal
/// digits, 10 to 35 for letters of either case.
pub open spec fn char_digit(c: char) -> u8 {
    if 48 <= c as u32 && c as u32 <= 57 {
        (c as u32 - 48) as u8
    } else if 97 <= c as u32 {
        (c as u32 - 87) as u8
    } else {
        (c as u32 - 55) as u8
    }
}

/// The byte a digit value decodes to: `0`-`9` for 0 to 9, `a`-`z` for 10
/// to 35. Letters thus come back lower-case.
pub open spec fn digit_byte(d: u8) -> u8 {
    if d < 10 {
        (d + 48) as u8
    } else {
        (d + 87) as u8
    }
}

/// The digit values of a name, in order, with separators stripped.
pub open spec fn name_digits(s: Seq<char>) -> Seq<u8>
    decreases s.len(),
{
    if s.len() == 0 {
        Seq::empty()
    } else if is_sep_char(s.last()) {
        name_digits(s.drop_last())
    } else {
        name_digits(s.drop_last()).push(char_digit(s.last()))
    }
}

/// The name as it decodes: separators stripped, letters folded to lower case.
pub open spec fn folded(s: Seq<char>) -> Seq<u8> {
    name_digits(s).map_values(|d: u8| digit_byte(d))
}

/// The packed body of a digit sequence: each digit, shifted up by one, at its
/// base-37 position.
pub open spec fn name_body(d: Seq<u8>) -> nat
    decreases d.len(),
{
    if d.len() == 0 {
        0
    } else {
        (d[0] + 1) as nat + 37 * name_body(d.drop_first())
    }
}

/// A body the decoder accepts: every base-37 digit of it is nonzero, so the
/// digit count is recovered from the value alone.
pub open spec fn valid_name_body(body: nat) -> bool
    decreases body,
{
    body == 0 || (body % 37 != 0 && valid_name_body(body / 37))
}

/// The byte decoded at one position: zero once the remaining body is spent.
pub open spec fn name_byte_of(body: nat) -> u8 {
    if body == 0 {
        0
    } else {
        digit_byte((body % 37 - 1) as u8)
    }
}

/// The remaining body after `i` digits have been decoded.
pub open spec fn body_at(body: nat, i: nat) -> nat
    decreases i,
{
    if i == 0 {
        body
    } else {
        body_at(body / 37, (i - 1) as nat)
    }
}

/// The bytes a body decodes to, in order, until it is spent.
pub open spec fn decoded_name_bytes(body: nat) -> Seq<u8>
    decreases body,
{
    if body == 0 {
        Seq::empty()
    } else {
        seq![name_byte_of(body)] + decoded_name_bytes(body / 37)
    }
}

/// A byte sequence padded with zero bytes to the fixed 8-byte name buffer.
pub open spec fn padded8(s: Seq<u8>) -> Seq<u8> {
    s + Seq::new((8 - s.len()) as nat, |i: int| 0u8)
}

/// The 8-byte name buffer a named code decodes to: one byte for each of the
/// at most six digit positions, zero from the first spent position on.
pub open spec fn name_buffer(code: u32) -> Seq<u8> {
    Seq::new(8, |i: int| if i < 6 { name_byte_of(body_at(code as nat, i as nat)) } else { 0u8 })
}

/// Reading one more character either keeps the digits (a separator) or
/// appends that character's digit value.
pub proof fn lemma_name_digits_take_step(s: Seq<char>, j: int)
    requires
        0 <= j < s.len(),
    ensures
        name_digits(s.take(j + 1)) == if is_sep_char(s[j]) {
            name_digits(s.take(j))
        } else {
            name_digits(s.take(j)).push(char_digit(s[j]))
        },
{
    assert(s.take(j + 1).drop_last() =~= s.take(j));
    assert(s.take(j + 1).last() == s[j]);
}

/// A prefix of a name never holds more digits than the whole name.
pub proof fn lemma_name_digits_len_mono(s: Seq<char>, j: int)
    requires
        0 <= j <= s.len(),
    ensures
        name_digits(s.take(j)).len() <= name_digits(s).len(),
    decreases s.len() - j,
{
    if j == s.len() {
        assert(s.take(j) =~= s);
    } else {
        lemma_name_digits_take_step(s, j);
        lemma_name_digits_len_mono(s, j + 1);
    }
}

/// Every digit drawn from valid name characters is at most 35.
pub proof fn lemma_name_digits_bounded(s: Seq<char>)
    requires
        forall|i: int| 0 <= i < s.len() ==> is_name_char(s[i]),
    ensures
        forall|i: int| 0 <= i < name_digits(s).len() ==> name_digits(s)[i] <= 35,
    decreases s.len(),
{
    if s.len() > 0 {
        let t = s.drop_last();
        assert(forall|i: int| 0 <= i < t.len() ==> is_name_char(#[trigger] t[i]));
        lemma_name_digits_bounded(t);
        assert forall|i: int| 0 <= i < name_digits(s).len() implies name_digits(s)[i] <= 35 by {
            if !is_sep_char(s.last()) && i == name_digits(t).len() {
                assert(name_digits(s)[i] == char_digit(s.last()));
                assert(is_name_char(s.last()));
            } else {
                assert(name_digits(s)[i] == name_digits(t)[i]);
            }
        }
    }
}

/// A later digit position never weighs less than an earlier one.
pub proof fn lemma_pow37_mono(a: nat, b: nat)
    requires
        a <= b,
    ensures
        pow37(a) <= pow37(b),
    decreases b,
{
    if a < b {
        lemma_pow37_mono(a, (b - 1) as nat);
        assert(pow37(b) == 37 * pow37((b - 1) as nat));
    }
}

/// The weights of the first six digit positions, written out.
pub proof fn lemma_pow37_values()
    ensures
        pow37(0) == 1,
        pow37(1) == 37,
        pow37(2) == 1369,
        pow37(3) == 50653,
        pow37(4) == 1874161,
        pow37(5) == 69343957,
        pow37(6) == 2565726409,
{
}

/// Appending one digit adds its shifted value at the next base-37 position.
pub proof fn lemma_name_body_push(d: Seq<u8>, x: u8)
    ensures
        name_body(d.push(x)) == name_body(d) + (x + 1) * pow37(d.len()),
    decreases d.len(),
{
    assert(d.push(x)[0] == if d.len() == 0 { x } else { d[0] });
    if d.len() == 0 {
        assert(d.push(x).drop_first() =~= Seq::empty());
        assert(name_body(Seq::<u8>::empty()) == 0);
        assert(name_body(d) == 0);
        assert(pow37(d.len()) == 1);
        assert(name_body(d.push(x)) == x + 1);
    } else {
        let t = d.drop_first();
        assert(d.push(x).drop_first() =~= t.push(x));
        lemma_name_body_push(t, x);
        let a = name_body(t) as int;
        let b = (x + 1) as int;
        let p = pow37(t.len()) as int;
        assert(37 * (a + b * p) == 37 * a + b * (37 * p)) by (nonlinear_arith);
        assert(name_body(d.push(x)) == (d[0] + 1) + 37 * name_body(t.push(x)));
        assert(name_body(d) == (d[0] + 1) + 37 * a);
        assert(pow37(d.len()) == 37 * p);
        assert(name_body(d.push(x)) == name_body(d) + (x + 1) * pow37(d.len()));
    }
}

/// The packed body of `n` digits stays under the `n`th power of 37.
pub proof fn lemma_name_body_bound(d: Seq<u8>)
    requires
        forall|i: int| 0 <= i < d.len() ==> d[i] <= 35,
    ensures
        name_body(d) < pow37(d.len()),
    decreases d.len(),
{
    if d.len() > 0 {
        lemma_name_body_bound(d.drop_first());
    }
}

/// The packed body of a digit sequence is one the decoder accepts, and its
/// decoding gives the digits back: the codec round-trips.
pub proof fn lemma_name_body_round_trip(d: Seq<u8>)
    requires
        forall|i: int| 0 <= i < d.len() ==> d[i] <= 35,
    ensures
        valid_name_body(name_body(d)),
        decoded_name_bytes(name_body(d)) =~= d.map_values(|x: u8| digit_byte(x)),
    decreases d.len(),
{
    if d.len() == 0 {
    } else {
        let rest = name_body(d.drop_first());
        let body = name_body(d);
        vstd::arithmetic::div_mod::lemma_fundamental_div_mod_converse(
            body as int,
            37,
            rest as int,
            d[0] + 1,
        );
        lemma_name_body_round_trip(d.drop_first());
        assert(decoded_name_bytes(body) =~= seq![name_byte_of(body)] + decoded_name_bytes(rest));
        assert(d.drop_first().map_values(|x: u8| digit_byte(x)) =~= d.map_values(
            |x: u8| digit_byte(x),
        ).drop_first());
    }
}

/// A body under the `k`th power of 37 decodes to at most `k` bytes.
pub proof fn lemma_decoded_len(body: nat, k: nat)
    requires
        valid_name_body(body),
        body < pow37(k),
    ensures
        decoded_name_bytes(body).len() <= k,
    decreases k,
{
    if body > 0 {
        assert(k > 0);
        assert(body / 37 < pow37((k - 1) as nat)) by (nonlinear_arith)
            requires
                body < 37 * pow37((k - 1) as nat),
        ;
        lemma_decoded_len(body / 37, (k - 1) as nat);
    }
}

/// The byte at position `i` of the decoding is the one decoded from the
/// remaining body there; past the decoded length the remaining body is spent.
pub proof fn lemma_decoded_at(body: nat, i: nat)
    requires
        valid_name_body(body),
    ensures
        i < decoded_name_bytes(body).len() ==> decoded_name_bytes(body)[i as int] == name_byte_of(
            body_at(body, i),
        ),
        i >= decoded_name_bytes(body).len() ==> body_at(body, i) == 0,
    decreases i, body,
{
    if body == 0 {
        if i > 0 {
            lemma_decoded_at(0, (i - 1) as nat);
        }
    } else if i > 0 {
        lemma_decoded_at(body / 37, (i - 1) as nat);
        assert(body_at(body, i) == body_at(body / 37, (i - 1) as nat));
    }
}

/// The byte decoded from one remaining body: zero once the body is spent.
pub(crate) fn name_byte(b: u32) -> (r: u8)
    requires
        b % 37 != 0 || b == 0,
    ensures
        r == name_byte_of(b as nat),
        r < 128,
{
    if b == 0 {
        0
    } else {
        let d: u8 = ((b % 37) - 1) as u8;
        if d < 10 {
            48 + d
        } else {
            87 + d
        }
    }
}

/// The fixed name buffer is the decoding padded with zero bytes: what the
/// decoder writes and what the buffer holds agree position by position.
pub proof fn lemma_name_buffer_decoded(code: u32)
    requires
        valid_name_body(code as nat),
        (code as nat) < pow37(6),
    ensures
        decoded_name_bytes(code as nat).len() <= 6,
        name_buffer(code) =~= padded8(decoded_name_bytes(code as nat)),
{
    let d = decoded_name_bytes(code as nat);
    lemma_decoded_len(code as nat, 6);
    assert forall|i: int| 0 <= i < 8 implies name_buffer(code)[i] == padded8(d)[i] by {
        lemma_decoded_at(code as nat, i as nat);
    }
}

} // verus!
