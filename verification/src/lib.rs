//! A compact descriptor ("layout") for the memory shape of a numeric digit
//! type: an unsigned integer width, an exponent/mantissa split of a real
//! number format, or a short named custom format. The three kinds are packed
//! into one 32-bit code whose high bits form a prefix that keeps the kinds'
//! value ranges pairwise disjoint, so the code needs no separate tag field.

use vstd::prelude::*;

pub mod laws;
pub mod name_code;
pub mod render;

verus! {

use crate::name_code::{
    name_body, name_digits, valid_name_body, pow37, name_buffer, is_name_char, char_digit,
    is_sep_char, lemma_name_digits_take_step, lemma_name_digits_len_mono,
    lemma_name_digits_bounded, lemma_name_body_push, lemma_name_body_bound,
    lemma_name_body_round_trip, lemma_pow37_mono, lemma_pow37_values, body_at, name_byte,
    decoded_name_bytes,
};
use crate::render::{format_bytes, chars_of, push_dec, ascii_to_string, lemma_format_bytes_ascii};
use vstd::string::StrSliceExecFns;

/// Selector of the unsigned kind: the top three bits of the code are `111`.
pub const UNSIGNED: u32 = 0xE000_0000;
/// Selector of the real kind: the top three bits of the code are `110`.
pub const REAL: u32 = 0xC000_0000;
/// Mask of the selector bits shared by the unsigned and real kinds.
pub const HEAD: u32 = 0xE000_0000;

/// A layout of a digit data type in memory: a tagged `code`, a repeat count
/// `group`, and the total byte footprint `size` of one group.
#[derive(Clone, Copy, PartialEq, Eq, Structural, PartialOrd, Ord, Hash, Debug)]
pub struct DigitLayout {
    code: u32,
    group: u16,
    size: u16,
}

/// The decoded content of a digit layout.
#[derive(Clone, Copy, PartialEq, Eq, Debug)]
pub enum LayoutContent {
    /// An unsigned integer type.
    Unsigned {
        /// The width of the integer in bits.
        width: u32,
    },
    /// A real number type.
    Real {
        /// The width of the exponent in bits.
        exponent: u32,
        /// The width of the mantissa in bits.
        mantissa: u32,
    },
    /// A named type.
    Named {
        /// The case-folded, zero-terminated name of the type.
        name: [u8; 8],
    },
}

/// Holds when the code carries an unsigned width: top three bits `111`.
pub open spec fn is_unsigned_code(code: u32) -> bool {
    code & HEAD == UNSIGNED
}

/// Holds when the code carries an exponent/mantissa pair: top three bits `110`.
pub open spec fn is_real_code(code: u32) -> bool {
    code & HEAD == REAL
}

/// Holds when the code carries a compressed name: the top two bits are not
/// both set, so the value stays outside the unsigned and real selector space.
pub open spec fn is_named_code(code: u32) -> bool {
    code & REAL != REAL
}

/// The code built for an unsigned width: the selector bits over the width.
pub open spec fn unsigned_code(width: u16) -> u32 {
    UNSIGNED | width as u32
}

/// The code built for a real format: the selector bits over the exponent
/// width in bits 16 and up and the mantissa width in the low 16 bits.
pub open spec fn real_code(exponent: u16, mantissa: u16) -> u32 {
    REAL | (((exponent as u32) << 16) | mantissa as u32)
}

/// The width payload of an unsigned-kind code.
pub open spec fn unsigned_width_of(code: u32) -> u32 {
    code & !HEAD
}

/// The exponent payload of a real-kind code, truncated to its 8-bit subfield.
pub open spec fn real_exponent_of(code: u32) -> u32 {
    ((code & !HEAD) >> 16) & 0xFF
}

/// The mantissa payload of a real-kind code: its low 16 bits.
pub open spec fn real_mantissa_of(code: u32) -> u32 {
    code & 0xFFFF
}

/// The widths a numeric layout accepts: a power of two of at least 8 bits
/// that fits the 16-bit width budget.
pub open spec fn is_layout_width(w: int) -> bool {
    ||| w == 8
    ||| w == 16
    ||| w == 32
    ||| w == 64
    ||| w == 128
    ||| w == 256
    ||| w == 512
    ||| w == 1024
    ||| w == 2048
    ||| w == 4096
    ||| w == 8192
    ||| w == 16384
    ||| w == 32768
}

impl DigitLayout {
    /// The packed code of this layout.
    pub closed spec fn code_spec(self) -> u32 {
        self.code
    }

    /// The repeat count of this layout.
    pub closed spec fn group_spec(self) -> u16 {
        self.group
    }

    /// The byte footprint of this layout.
    pub closed spec fn size_spec(self) -> u16 {
        self.size
    }

    /// Every layout the three factories build satisfies this: a named code is
    /// a well-formed base-37 name encoding of at most six digits. The numeric
    /// kinds need no further condition to decode.
    pub open spec fn wf(self) -> bool {
        is_named_code(self.code_spec()) ==> {
            &&& valid_name_body(self.code_spec() as nat)
            &&& (self.code_spec() as nat) < pow37(6)
        }
    }

    /// Create a new digit layout for an unsigned integer type.
    pub fn unsigned(width: u16, group: u16) -> (r: DigitLayout)
        requires
            is_layout_width(width as int),
            (width / 8) as int * (group as int) <= u16::MAX as int,
        ensures
            r.code_spec() == unsigned_code(width),
            r.group_spec() == group,
            r.size_spec() == (width / 8) as int * (group as int),
            is_unsigned_code(r.code_spec()),
            unsigned_width_of(r.code_spec()) == width as u32,
            r.wf(),
    {
        let body: u32 = width as u32;
        proof {
            assert(0xE000_0000u32 & body == 0 && (0xE000_0000u32 | body) & 0xE000_0000u32
                == 0xE000_0000u32 && (0xE000_0000u32 | body) & 0xC000_0000u32 == 0xC000_0000u32
                && (0xE000_0000u32 | body) & !0xE000_0000u32 == body) by (bit_vector)
                requires
                    body <= 0xFFFF,
            ;
        }
        Self::new(UNSIGNED, body, group, width / 8 * group)
    }

    /// Create a new digit layout for a real number type of `1 + exponent +
    /// mantissa` bits: one sign bit, then the two given field widths.
    pub fn real_number(exponent: u16, mantissa: u16, group: u16) -> (r: DigitLayout)
        requires
            is_layout_width(1 + exponent as int + mantissa as int),
            exponent < 0x2000,
            ((1 + exponent as int + mantissa as int) / 8) * (group as int) <= u16::MAX as int,
        ensures
            r.code_spec() == real_code(exponent, mantissa),
            r.group_spec() == group,
            r.size_spec() == ((1 + exponent as int + mantissa as int) / 8) * (group as int),
            is_real_code(r.code_spec()),
            real_exponent_of(r.code_spec()) == (exponent as u32) & 0xFF,
            real_mantissa_of(r.code_spec()) == mantissa as u32,
            r.wf(),
    {
        let width: u16 = 1 + exponent + mantissa;
        let e: u32 = exponent as u32;
        let m: u32 = mantissa as u32;
        let body: u32 = (e << 16) | m;
        proof {
            assert(0xC000_0000u32 & ((e << 16u32) | m) == 0 && (0xC000_0000u32 | ((e << 16u32)
                | m)) & 0xE000_0000u32 == 0xC000_0000u32 && (0xC000_0000u32 | ((e << 16u32) | m))
                & 0xC000_0000u32 == 0xC000_0000u32 && (((0xC000_0000u32 | ((e << 16u32) | m))
                & !0xE000_0000u32) >> 16u32) & 0xFFu32 == e & 0xFFu32 && (0xC000_0000u32 | ((e
                << 16u32) | m)) & 0xFFFFu32 == m) by (bit_vector)
                requires
                    e < 0x2000,
                    m <= 0xFFFF,
            ;
        }
        Self::new(REAL, body, group, width / 8 * group)
    }

    /// Create a new digit layout for a named type. The name is packed into
    /// the code in base 37, case-insensitively, with `_` and `.` stripped; at
    /// most six characters may remain after stripping, since the code has no
    /// room for a seventh. `group` and `size` are caller-supplied: a named
    /// format's byte size is not derivable from its code.
    pub fn named(name: &str, group: u16, size: u16) -> (r: DigitLayout)
        requires
            forall|i: int| 0 <= i < name@.len() ==> is_name_char(name@[i]),
            name_digits(name@).len() <= 6,
        ensures
            r.code_spec() as nat == name_body(name_digits(name@)),
            r.group_spec() == group,
            r.size_spec() == size,
            is_named_code(r.code_spec()),
            r.wf(),
    {
        let n: usize = name.unicode_len();
        let mut body: u32 = 0;
        let mut exp: u32 = 1;
        let mut j: usize = 0;
        proof {
            assert(name@.take(0) =~= Seq::<char>::empty());
        }
        while j < n
            invariant
                j <= n,
                n == name@.len(),
                forall|i: int| 0 <= i < name@.len() ==> is_name_char(name@[i]),
                name_digits(name@).len() <= 6,
                name_digits(name@.take(j as int)).len() <= 6,
                body as nat == name_body(name_digits(name@.take(j as int))),
                exp as nat == pow37(name_digits(name@.take(j as int)).len()),
            decreases n - j,
        {
            let c = name.get_char(j);
            let u: u32 = c as u32;
            proof {
                lemma_name_digits_take_step(name@, j as int);
                lemma_name_digits_len_mono(name@, j as int + 1);
            }
            if u == 95 || u == 46 {
                proof {
                    assert(is_sep_char(name@[j as int]));
                }
            } else {
                let d: u32 = if u <= 57 {
                    u - 48
                } else if u >= 97 {
                    u - 87
                } else {
                    u - 55
                };
                proof {
                    let prev = name_digits(name@.take(j as int));
                    let dg = char_digit(name@[j as int]);
                    assert(d == dg as u32);
                    assert(forall|i: int|
                        0 <= i < name@.take(j as int + 1).len() ==> is_name_char(
                            #[trigger] name@.take(j as int + 1)[i],
                        ));
                    lemma_name_digits_bounded(name@.take(j as int + 1));
                    lemma_name_body_push(prev, dg);
                    lemma_name_body_bound(prev.push(dg));
                    lemma_pow37_mono(prev.len() + 1, 6);
                    lemma_pow37_values();
                }
                body = body + (d + 1) * exp;
                exp = exp * 37;
            }
            j = j + 1;
        }
        proof {
            assert(name@.take(n as int) =~= name@);
            let digits = name_digits(name@);
            lemma_name_digits_bounded(name@);
            lemma_name_body_round_trip(digits);
            lemma_name_body_bound(digits);
            lemma_pow37_mono(digits.len(), 6);
            lemma_pow37_values();
            assert(body & 0xC000_0000u32 != 0xC000_0000u32) by (bit_vector)
                requires
                    body < 2565726409u32,
            ;
        }
        DigitLayout { code: body, group, size }
    }

    fn new(head: u32, body: u32, group: u16, size: u16) -> (r: DigitLayout)
        requires
            head & body == 0,
        ensures
            r.code_spec() == head | body,
            r.group_spec() == group,
            r.size_spec() == size,
    {
        DigitLayout { code: head | body, group, size }
    }

    /// The whole layout as one raw integer, for use as a map or hash key: the
    /// code in the low 32 bits, the group above it, the size on top.
    pub fn to_u64(self) -> (r: u64)
        ensures
            r == raw_u64(self),
    {
        (self.code as u64) | ((self.group as u64) << 32) | ((self.size as u64) << 48)
    }

    /// Get the number of elements a group of this layout holds.
    pub fn group_size(self) -> (n: usize)
        ensures
            n == self.group_spec() as usize,
    {
        self.group as usize
    }

    /// Get the number of bytes occupied by one group of this layout.
    pub fn nbytes(self) -> (n: usize)
        ensures
            n == self.size_spec() as usize,
    {
        self.size as usize
    }

    /// Decode the content of the digit layout: the kind from the selector
    /// bits of the code, the payload read as that kind asks. Total over every
    /// code the three factories build.
    pub fn decode(self) -> (r: LayoutContent)
        requires
            self.wf(),
        ensures
            is_unsigned_code(self.code_spec()) ==> r == (LayoutContent::Unsigned {
                width: unsigned_width_of(self.code_spec()),
            }),
            is_real_code(self.code_spec()) ==> r == (LayoutContent::Real {
                exponent: real_exponent_of(self.code_spec()),
                mantissa: real_mantissa_of(self.code_spec()),
            }),
            is_named_code(self.code_spec()) ==> (r matches LayoutContent::Named { name } && name@
                == name_buffer(self.code_spec())),
    {
        let head = self.code & HEAD;
        let ghost c = self.code;
        if head == UNSIGNED {
            proof {
                assert(c & 0xC000_0000u32 == 0xC000_0000u32) by (bit_vector)
                    requires
                        c & 0xE000_0000u32 == 0xE000_0000u32,
                ;
            }
            LayoutContent::Unsigned { width: self.decode_unsigned() }
        } else if head == REAL {
            proof {
                assert(c & 0xC000_0000u32 == 0xC000_0000u32) by (bit_vector)
                    requires
                        c & 0xE000_0000u32 == 0xC000_0000u32,
                ;
            }
            LayoutContent::Real {
                exponent: self.decode_exponent(),
                mantissa: self.decode_mantissa(),
            }
        } else {
            proof {
                assert(c & 0xC000_0000u32 != 0xC000_0000u32) by (bit_vector)
                    requires
                        c & 0xE000_0000u32 != 0xE000_0000u32 && c & 0xE000_0000u32
                            != 0xC000_0000u32,
                ;
            }
            let b0: u32 = self.code;
            let b1: u32 = b0 / 37;
            let b2: u32 = b1 / 37;
            let b3: u32 = b2 / 37;
            let b4: u32 = b3 / 37;
            let b5: u32 = b4 / 37;
            proof {
                reveal_with_fuel(crate::name_code::body_at, 7);
                reveal_with_fuel(crate::name_code::valid_name_body, 7);
                assert(valid_name_body(b1 as nat));
                assert(valid_name_body(b2 as nat));
                assert(valid_name_body(b3 as nat));
                assert(valid_name_body(b4 as nat));
                assert(valid_name_body(b5 as nat));
                assert(body_at(c as nat, 1) == b1 as nat);
                assert(body_at(c as nat, 2) == b2 as nat);
                assert(body_at(c as nat, 3) == b3 as nat);
                assert(body_at(c as nat, 4) == b4 as nat);
                assert(body_at(c as nat, 5) == b5 as nat);
            }
            let name: [u8; 8] = [
                name_byte(b0),
                name_byte(b1),
                name_byte(b2),
                name_byte(b3),
                name_byte(b4),
                name_byte(b5),
                0u8,
                0u8,
            ];
            proof {
                assert(name@ =~= name_buffer(c));
            }
            LayoutContent::Named { name }
        }
    }

    /// Render this layout as its canonical display string: `u<width>` or
    /// `f<width>_e<exponent>m<mantissa>`, bracketed with the repeat count
    /// when the group is larger than one, or the decoded name.
    pub fn format(&self) -> (r: String)
        requires
            self.wf(),
        ensures
            r@ == chars_of(format_bytes(*self)),
    {
        let mut v: Vec<u8> = Vec::new();
        let head = self.code & HEAD;
        let ghost c = self.code;
        if head == UNSIGNED {
            let w = self.decode_unsigned();
            if self.group == 1 {
                // "u", then the width
                v.push(117u8);
                push_dec(&mut v, w);
            } else {
                // "[u", the width, "; ", the group, "]"
                v.push(91u8);
                v.push(117u8);
                push_dec(&mut v, w);
                v.push(59u8);
                v.push(32u8);
                push_dec(&mut v, self.group as u32);
                v.push(93u8);
            }
            proof {
                assert(v@ =~= format_bytes(*self));
            }
        } else if head == REAL {
            let e = self.decode_exponent();
            let m = self.decode_mantissa();
            proof {
                assert(real_exponent_of(c) <= 0xFF && real_mantissa_of(c) <= 0xFFFF)
                    by (bit_vector);
            }
            let w = 1 + e + m;
            if self.group == 1 {
                // "f", the total width, "_e", the exponent, "m", the mantissa
                v.push(102u8);
                push_dec(&mut v, w);
                v.push(95u8);
                v.push(101u8);
                push_dec(&mut v, e);
                v.push(109u8);
                push_dec(&mut v, m);
            } else {
                // the same, bracketed with "; " and the group
                v.push(91u8);
                v.push(102u8);
                push_dec(&mut v, w);
                v.push(95u8);
                v.push(101u8);
                push_dec(&mut v, e);
                v.push(109u8);
                push_dec(&mut v, m);
                v.push(59u8);
                v.push(32u8);
                push_dec(&mut v, self.group as u32);
                v.push(93u8);
            }
            proof {
                assert(v@ =~= format_bytes(*self));
            }
        } else {
            proof {
                assert(c & 0xC000_0000u32 != 0xC000_0000u32) by (bit_vector)
                    requires
                        c & 0xE000_0000u32 != 0xE000_0000u32 && c & 0xE000_0000u32
                            != 0xC000_0000u32,
                ;
            }
            let mut body: u32 = self.code;
            while body > 0
                invariant
                    valid_name_body(body as nat),
                    v@ + decoded_name_bytes(body as nat) =~= decoded_name_bytes(c as nat),
                decreases body,
            {
                v.push(name_byte(body));
                body = body / 37;
                proof {
                    assert(v@ + decoded_name_bytes(body as nat) =~= decoded_name_bytes(c as nat));
                }
            }
            proof {
                assert(v@ =~= format_bytes(*self));
            }
        }
        proof {
            lemma_format_bytes_ascii(*self);
        }
        ascii_to_string(v)
    }

    /// The width payload of this layout's code.
    pub fn decode_unsigned(self) -> (w: u32)
        ensures
            w == unsigned_width_of(self.code_spec()),
    {
        self.code & !HEAD
    }

    /// The exponent payload of this layout's code.
    pub fn decode_exponent(self) -> (e: u32)
        ensures
            e == real_exponent_of(self.code_spec()),
    {
        ((self.code & !HEAD) >> 16) & 0xFF
    }

    /// The mantissa payload of this layout's code.
    pub fn decode_mantissa(self) -> (m: u32)
        ensures
            m == real_mantissa_of(self.code_spec()),
    {
        self.code & 0xFFFF
    }
}

/// The raw 64-bit view of a layout: code, group and size packed in order,
/// with no bit of one field overlapping another.
pub open spec fn raw_u64(l: DigitLayout) -> u64 {
    (l.code_spec() as u64) | ((l.group_spec() as u64) << 32) | ((l.size_spec() as u64) << 48)
}

/// Two layouts give the same raw integer exactly when they are the same
/// layout: the raw view loses nothing, so it serves as a key.
pub proof fn lemma_raw_u64_injective(a: DigitLayout, b: DigitLayout)
    ensures
        raw_u64(a) == raw_u64(b) <==> a == b,
{
    if raw_u64(a) == raw_u64(b) {
        let (c1, g1, s1) = (a.code_spec(), a.group_spec(), a.size_spec());
        let (c2, g2, s2) = (b.code_spec(), b.group_spec(), b.size_spec());
        assert(c1 == c2 && g1 == g2 && s1 == s2) by (bit_vector)
            requires
                (c1 as u64) | ((g1 as u64) << 32u64) | ((s1 as u64) << 48u64) == (c2 as u64) | ((
                g2 as u64) << 32u64) | ((s2 as u64) << 48u64),
        ;
    }
}

} // verus!
