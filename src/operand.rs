//! The operand resolver: a token is an 8-bit immediate literal, a register
//! reference (`R` followed by an index below 16), or resolves to 0.

use crate::text::chars_of;
use vstd::prelude::*;

verus! {

/// Number of registers that register syntax may name.
pub const REGISTER_COUNT: u32 = 16;

/// Bit 7 of an operand byte: set when the low bits name a register.
pub const REGISTER_FLAG: u8 = 0x80;

pub open spec fn is_digit(c: char) -> bool {
    0x30 <= (c as u32) <= 0x39
}

pub open spec fn digit_value(c: char) -> nat {
    ((c as u32) - 0x30) as nat
}

/// The number written by a string of decimal digits.
pub open spec fn digits_value(t: Seq<char>) -> nat
    decreases t.len(),
{
    if t.len() == 0 {
        0
    } else {
        digits_value(t.drop_last()) * 10 + digit_value(t.last())
    }
}

pub open spec fn all_digits(t: Seq<char>) -> bool {
    t.len() > 0 && forall|i: int| 0 <= i < t.len() ==> is_digit(#[trigger] t[i])
}

/// The token without its leading `+`, if it has one.
pub open spec fn unsigned_part(t: Seq<char>) -> Seq<char> {
    if t.len() > 0 && t[0] == '+' {
        t.drop_first()
    } else {
        t
    }
}

/// The value of an unsigned decimal integer: an optional `+` and at least one
/// ASCII digit, of any size. `None` when `t` is not of that form.
pub open spec fn decimal_value(t: Seq<char>) -> Option<nat> {
    if all_digits(unsigned_part(t)) {
        Some(digits_value(unsigned_part(t)))
    } else {
        None
    }
}

/// The register that `t` names: `R` followed by a decimal integer below 16.
pub open spec fn register_index(t: Seq<char>) -> Option<nat> {
    if t.len() > 0 && t[0] == 'R' {
        match decimal_value(t.drop_first()) {
            Some(k) => if k < 16 {
                Some(k)
            } else {
                None
            },
            None => None,
        }
    } else {
        None
    }
}

/// What a token stands for: `(value, is_register)`. A literal below 256 is an
/// immediate; a literal of 256 or more, register syntax with an index of 16 or
/// more, and any other token resolve to `(0, false)`.
pub open spec fn resolve(t: Seq<char>) -> (nat, bool) {
    match decimal_value(t) {
        Some(n) => if n < 256 {
            (n, false)
        } else {
            (0, false)
        },
        None => match register_index(t) {
            Some(k) => (k, true),
            None => (0, false),
        },
    }
}

/// The 8-bit operand field for a resolved token: bit 7 carries the register flag.
pub open spec fn operand_byte(r: (nat, bool)) -> nat {
    if r.1 {
        r.0 + 128
    } else {
        r.0
    }
}

pub open spec fn saturate(n: nat) -> nat {
    if n < 256 {
        n
    } else {
        256
    }
}

/// The character of the decimal digit `d`.
pub open spec fn digit_char(d: nat) -> char {
    (d + 0x30) as char
}

/// The decimal numeral of `n`, without sign or leading zeros.
pub open spec fn decimal_text(n: nat) -> Seq<char>
    decreases n,
{
    if n < 10 {
        seq![digit_char(n)]
    } else {
        decimal_text(n / 10).push(digit_char(n % 10))
    }
}

/// Every numeral reads back as the number it was written from.
pub proof fn lemma_decimal_text_value(n: nat)
    ensures
        decimal_text(n).len() > 0,
        all_digits(decimal_text(n)),
        decimal_value(decimal_text(n)) == Some(n),
    decreases n,
{
    let t = decimal_text(n);
    let c = digit_char(n % 10);
    assert(digit_value(c) == n % 10);
    if n < 10 {
        assert(t.drop_last() =~= Seq::<char>::empty());
        assert(digits_value(Seq::<char>::empty()) == 0);
        assert(t.last() == c);
        assert(digits_value(t) == n);
    } else {
        let u = decimal_text(n / 10);
        lemma_decimal_text_value(n / 10);
        assert(is_digit(u[0]));
        assert(unsigned_part(u) == u);
        assert(t.drop_last() =~= u);
        assert(t.last() == c);
        assert(digits_value(t) == (n / 10) * 10 + n % 10);
        assert forall|i: int| 0 <= i < t.len() implies is_digit(#[trigger] t[i]) by {
            if i < t.len() - 1 {
                assert(t[i] == decimal_text(n / 10)[i]);
            }
        }
    }
    assert(is_digit(t[0]));
    assert(unsigned_part(t) == t);
}

/// A decimal literal of 256 or more resolves to `(0, false)`: its operand field
/// is 0, not the literal reduced to the field's width.
pub proof fn lemma_oversized_literal(t: Seq<char>)
    requires
        decimal_value(t) matches Some(n) && n >= 256,
    ensures
        resolve(t) == (0nat, false),
        operand_byte(resolve(t)) == 0,
{
}

/// Register syntax with an index of 16 or more resolves to `(0, false)`, not to
/// a register whose index was wrapped or clamped.
pub proof fn lemma_register_overflow(t: Seq<char>)
    requires
        t.len() > 0,
        t[0] == 'R',
        decimal_value(t.drop_first()) matches Some(k) && k >= 16,
    ensures
        resolve(t) == (0nat, false),
        operand_byte(resolve(t)) == 0,
{
    assert(!is_digit(t[0]));
    assert(unsigned_part(t) == t);
}

/// A resolved register index is below 16, and an operand field fits in a byte.
pub proof fn lemma_resolve_bounds(t: Seq<char>)
    ensures
        resolve(t).1 ==> resolve(t).0 < 16,
        resolve(t).0 < 256,
        operand_byte(resolve(t)) < 256,
{
}

proof fn lemma_digits_value_grows(t: Seq<char>, c: char)
    requires
        t.len() > 0,
        is_digit(c),
    ensures
        digits_value(t.push(c)) == digits_value(t) * 10 + digit_value(c),
        digits_value(t) >= 256 ==> digits_value(t.push(c)) >= 256,
{
    assert(t.push(c).drop_last() =~= t);
}

/// The decimal integer that `chars[start..end]` writes, saturated at 256.
pub(crate) fn decimal_in(chars: &Vec<char>, start: usize, end: usize) -> (r: Option<u32>)
    requires
        start <= end <= chars@.len(),
    ensures
        match decimal_value(chars@.subrange(start as int, end as int)) {
            Some(n) => r == Some(saturate(n) as u32),
            None => r is None,
        },
{
    let ghost t = chars@.subrange(start as int, end as int);
    let mut first = start;
    if start < end && chars[start] == '+' {
        first = start + 1;
    }
    assert(unsigned_part(t) =~= chars@.subrange(first as int, end as int));
    if first == end {
        return None;
    }
    let mut acc: u32 = 0;
    let mut i: usize = first;
    while i < end
        invariant
            start <= first < end <= chars@.len(),
            first <= i <= end,
            t == chars@.subrange(start as int, end as int),
            unsigned_part(t) == chars@.subrange(first as int, end as int),
            forall|k: int| first <= k < i ==> is_digit(#[trigger] chars@[k]),
            acc as nat == saturate(digits_value(chars@.subrange(first as int, i as int))),
        decreases end - i,
    {
        let c = chars[i];
        let code = c as u32;
        if code < 0x30 || code > 0x39 {
            assert(!is_digit(chars@.subrange(first as int, end as int)[i - first]));
            return None;
        }
        proof {
            let p = chars@.subrange(first as int, i as int);
            assert(chars@.subrange(first as int, i + 1) =~= p.push(c));
            if p.len() > 0 {
                lemma_digits_value_grows(p, c);
            } else {
                assert(p.push(c).drop_last() =~= p);
            }
        }
        if acc >= 256 {
            acc = 256;
        } else {
            acc = acc * 10 + (code - 0x30);
            if acc > 256 {
                acc = 256;
            }
        }
        i = i + 1;
    }
    assert(all_digits(chars@.subrange(first as int, end as int)));
    Some(acc)
}

/// The register that `chars[start..end]` names, if it is register syntax with
/// an index below 16.
pub(crate) fn register_in(chars: &Vec<char>, start: usize, end: usize) -> (r: Option<u32>)
    requires
        start <= end <= chars@.len(),
    ensures
        match register_index(chars@.subrange(start as int, end as int)) {
            Some(k) => r == Some(k as u32),
            None => r is None,
        },
{
    let ghost t = chars@.subrange(start as int, end as int);
    if start < end && chars[start] == 'R' {
        assert(t.drop_first() =~= chars@.subrange(start + 1, end as int));
        match decimal_in(chars, start + 1, end) {
            Some(k) => if k < REGISTER_COUNT {
                Some(k)
            } else {
                None
            },
            None => None,
        }
    } else {
        None
    }
}

/// Resolves `chars[start..end]` to `(value, is_register)`.
pub(crate) fn resolve_in(chars: &Vec<char>, start: usize, end: usize) -> (r: (u8, bool))
    requires
        start <= end <= chars@.len(),
    ensures
        r.0 as nat == resolve(chars@.subrange(start as int, end as int)).0,
        r.1 == resolve(chars@.subrange(start as int, end as int)).1,
{
    match decimal_in(chars, start, end) {
        Some(n) => if n < 256 {
            (n as u8, false)
        } else {
            (0, false)
        },
        None => match register_in(chars, start, end) {
            Some(k) => (k as u8, true),
            None => (0, false),
        },
    }
}

/// Resolves an operand token to `(value, is_register)`: a decimal literal below
/// 256 is an immediate, `R` with an index below 16 is a register reference, and
/// anything else (an oversized literal, an index of 16 or more, a malformed
/// token) is `(0, false)`.
pub fn resolve_immediate(token: &str) -> (r: (u8, bool))
    ensures
        r.0 as nat == resolve(token@).0,
        r.1 == resolve(token@).1,
{
    let chars = chars_of(token);
    assert(chars@.subrange(0, chars@.len() as int) =~= token@);
    resolve_in(&chars, 0, chars.len())
}

/// The index that register syntax `R<n>` names, or 0 when `token` is not
/// register syntax or the index is 16 or more.
pub fn parse_register(token: &str) -> (r: u32)
    ensures
        r as nat == match register_index(token@) {
            Some(k) => k,
            None => 0,
        },
{
    let chars = chars_of(token);
    assert(chars@.subrange(0, chars@.len() as int) =~= token@);
    match register_in(&chars, 0, chars.len()) {
        Some(k) => k,
        None => 0,
    }
}

/// The 8-bit operand field for a resolved token.
pub fn operand_field(value: u8, is_register: bool) -> (r: u8)
    requires
        is_register ==> value < 16,
    ensures
        r as nat == operand_byte((value as nat, is_register)),
{
    if is_register {
        assert(value | 0x80u8 == value + 128) by (bit_vector)
            requires
                value < 16,
        ;
        value | REGISTER_FLAG
    } else {
        value
    }
}

} // verus!
