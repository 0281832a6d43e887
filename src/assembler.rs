//! The assembler: one line of mnemonic text to one encoded instruction word.

use crate::codec::{field_of, lemma_decode_encode, pack, word_of, COND_SHIFT, DEST_SHIFT, OPCODE_SHIFT, OPERAND2_SHIFT, OPERAND3_SHIFT};
use crate::operand::{
    decimal_text, decimal_value, is_digit, lemma_decimal_text_value, lemma_oversized_literal,
    lemma_register_overflow, lemma_resolve_bounds, operand_byte, operand_field, resolve,
    resolve_in,
};
use crate::text::{chars_of, is_blank, is_white_space};
use vstd::arithmetic::power2::lemma2_to64;
use vstd::prelude::*;

verus! {

/// Op-code of the no-op / halt instruction.
pub const OP_NOP: u32 = 0;
/// Op-code of `ADD`.
pub const OP_ADD: u32 = 1;
/// Op-code of `SUB`.
pub const OP_SUB: u32 = 2;

/// Length of the run of non-separator characters at the start of `s`.
pub open spec fn word_len(s: Seq<char>) -> nat
    decreases s.len(),
{
    if s.len() == 0 || is_white_space(s[0]) {
        0
    } else {
        1 + word_len(s.drop_first())
    }
}

proof fn lemma_word_len_bound(s: Seq<char>)
    ensures
        word_len(s) <= s.len(),
        s.len() > 0 && !is_white_space(s[0]) ==> word_len(s) >= 1,
    decreases s.len(),
{
    if s.len() > 0 && !is_white_space(s[0]) {
        lemma_word_len_bound(s.drop_first());
    }
}

/// The maximal runs of non-separator characters of `s`, in order.
pub open spec fn tokens(s: Seq<char>) -> Seq<Seq<char>>
    decreases s.len(),
    via tokens_decreases
{
    if s.len() == 0 {
        seq![]
    } else if is_white_space(s[0]) {
        tokens(s.drop_first())
    } else {
        seq![s.take(word_len(s) as int)] + tokens(s.skip(word_len(s) as int))
    }
}

#[via_fn]
proof fn tokens_decreases(s: Seq<char>) {
    lemma_word_len_bound(s);
}

/// The op-code a mnemonic selects: `ADD` is 1, `SUB` is 2, anything else 0.
pub open spec fn opcode_of(t: Seq<char>) -> nat {
    if t == seq!['A', 'D', 'D'] {
        1
    } else if t == seq!['S', 'U', 'B'] {
        2
    } else {
        0
    }
}

/// The op-code a line selects through its first token.
pub open spec fn line_opcode(line: Seq<char>) -> nat {
    if tokens(line).len() > 0 {
        opcode_of(tokens(line)[0])
    } else {
        0
    }
}

/// The destination register of a line: the low 4 bits of its second token.
pub open spec fn line_dest(line: Seq<char>) -> nat {
    if tokens(line).len() > 1 {
        resolve(tokens(line)[1]).0 % 16
    } else {
        0
    }
}

/// The second operand byte of a line, from its third token.
pub open spec fn line_arg2(line: Seq<char>) -> nat {
    if tokens(line).len() > 2 {
        operand_byte(resolve(tokens(line)[2]))
    } else {
        0
    }
}

/// The third operand byte of a line, from its fourth token.
pub open spec fn line_arg3(line: Seq<char>) -> nat {
    if tokens(line).len() > 3 {
        operand_byte(resolve(tokens(line)[3]))
    } else {
        0
    }
}

/// The word that a line of assembly text encodes. The first token selects the
/// op-code; the next three are the destination register and the second and
/// third operand bytes. Absent fields, the condition code and the reserved bits
/// are 0; tokens past the fourth are ignored.
pub open spec fn assembled(line: Seq<char>) -> nat {
    word_of(line_opcode(line), 0, line_dest(line), line_arg2(line), line_arg3(line))
}

/// Finds the first token of `chars[from..]`: it spans `start..end`, or
/// `start == chars.len()` when there is none.
fn next_token(chars: &Vec<char>, from: usize) -> (r: (usize, usize))
    requires
        from <= chars@.len(),
    ensures
        from <= r.0 <= r.1 <= chars@.len(),
        r.0 == chars@.len() ==> r.1 == r.0 && tokens(chars@.skip(from as int)) == Seq::<
            Seq<char>,
        >::empty(),
        r.0 < chars@.len() ==> r.0 < r.1 && tokens(chars@.skip(from as int)) == seq![
            chars@.subrange(r.0 as int, r.1 as int),
        ] + tokens(chars@.skip(r.1 as int)),
{
    let n = chars.len();
    let mut start = from;
    while start < n && is_blank(chars[start])
        invariant
            n == chars@.len(),
            from <= start <= n,
            tokens(chars@.skip(from as int)) == tokens(chars@.skip(start as int)),
        decreases n - start,
    {
        assert(chars@.skip(start as int).drop_first() =~= chars@.skip(start + 1));
        start = start + 1;
    }
    if start == n {
        assert(chars@.skip(start as int).len() == 0);
        return (n, n);
    }
    let mut end = start + 1;
    assert(chars@.skip(start as int).drop_first() =~= chars@.skip(end as int));
    while end < n && !is_blank(chars[end])
        invariant
            n == chars@.len(),
            start < end <= n,
            word_len(chars@.skip(start as int)) == (end - start) + word_len(
                chars@.skip(end as int),
            ),
        decreases n - end,
    {
        assert(chars@.skip(end as int).drop_first() =~= chars@.skip(end + 1));
        end = end + 1;
    }
    proof {
        let s = chars@.skip(start as int);
        assert(word_len(chars@.skip(end as int)) == 0);
        assert(s.take(word_len(s) as int) =~= chars@.subrange(start as int, end as int));
        assert(s.skip(word_len(s) as int) =~= chars@.skip(end as int));
    }
    (start, end)
}

/// The op-code that the mnemonic `chars[start..end]` selects.
fn mnemonic_code(chars: &Vec<char>, start: usize, end: usize) -> (r: u32)
    requires
        start <= end <= chars@.len(),
    ensures
        r as nat == opcode_of(chars@.subrange(start as int, end as int)),
{
    let ghost t = chars@.subrange(start as int, end as int);
    if end - start != 3 {
        assert(t.len() != seq!['A', 'D', 'D'].len());
        assert(t.len() != seq!['S', 'U', 'B'].len());
        return OP_NOP;
    }
    let (a, b, c) = (chars[start], chars[start + 1], chars[start + 2]);
    assert(t[0] == a && t[1] == b && t[2] == c);
    if a == 'A' && b == 'D' && c == 'D' {
        assert(t =~= seq!['A', 'D', 'D']);
        OP_ADD
    } else if a == 'S' && b == 'U' && c == 'B' {
        assert(t =~= seq!['S', 'U', 'B']);
        OP_SUB
    } else {
        assert(seq!['A', 'D', 'D'][0] == 'A' && seq!['A', 'D', 'D'][1] == 'D'
            && seq!['A', 'D', 'D'][2] == 'D');
        assert(seq!['S', 'U', 'B'][0] == 'S' && seq!['S', 'U', 'B'][1] == 'U'
            && seq!['S', 'U', 'B'][2] == 'B');
        OP_NOP
    }
}

/// The 8-bit operand field for the token `chars[start..end]`.
fn operand_in(chars: &Vec<char>, start: usize, end: usize) -> (r: u32)
    requires
        start <= end <= chars@.len(),
    ensures
        r as nat == operand_byte(resolve(chars@.subrange(start as int, end as int))),
        r < 256,
{
    let (value, is_register) = resolve_in(chars, start, end);
    operand_field(value, is_register) as u32
}

/// Checks an assembled word before it is handed out. No rule is enforced yet:
/// every word passes unchanged.
pub fn validate(instruction: u32) -> (r: u32)
    ensures
        r == instruction,
{
    instruction
}

/// Assembles one instruction line, `MNEMONIC [dest] [operand2] [operand3]`,
/// into its 32-bit word. Every line has a word: an unknown mnemonic gives
/// op-code 0 and a malformed operand gives 0 in its field.
pub fn encode(instruction: String) -> (r: u32)
    ensures
        r as nat == assembled(instruction@),
{
    let chars = chars_of(instruction.as_str());
    let n = chars.len();
    let ghost s = chars@;
    assert(s.skip(0) =~= s);
    let (s0, e0) = next_token(&chars, 0);
    let op: u32 = if s0 < n {
        mnemonic_code(&chars, s0, e0)
    } else {
        OP_NOP
    };
    let (s1, e1) = next_token(&chars, e0);
    let dest: u32 = if s1 < n {
        let v = resolve_in(&chars, s1, e1).0 as u32;
        assert(v & 15 == v % 16) by (bit_vector);
        v & 15
    } else {
        0
    };
    let (s2, e2) = next_token(&chars, e1);
    let arg2: u32 = if s2 < n {
        operand_in(&chars, s2, e2)
    } else {
        0
    };
    let (s3, e3) = next_token(&chars, e2);
    let arg3: u32 = if s3 < n {
        operand_in(&chars, s3, e3)
    } else {
        0
    };
    proof {
        lemma2_to64();
        let ts = tokens(s);
        let t0 = s.subrange(s0 as int, e0 as int);
        let t1 = s.subrange(s1 as int, e1 as int);
        let t2 = s.subrange(s2 as int, e2 as int);
        let t3 = s.subrange(s3 as int, e3 as int);
        if s0 < n {
            assert(ts[0] == t0);
            if s1 < n {
                assert(ts[1] == t1);
                if s2 < n {
                    assert(ts[2] == t2);
                    if s3 < n {
                        assert(ts[3] == t3);
                    } else {
                        assert(ts.len() == 3);
                    }
                } else {
                    assert(ts.len() == 2);
                }
            } else {
                assert(ts.len() == 1);
            }
        } else {
            assert(ts.len() == 0);
        }
    }
    let w_op = pack(op, OPCODE_SHIFT);
    let w_cond = pack(0, COND_SHIFT);
    let w_dest = pack(dest, DEST_SHIFT);
    let w_arg2 = pack(arg2, OPERAND2_SHIFT);
    let w_arg3 = pack(arg3, OPERAND3_SHIFT);
    assert(w_op | w_cond | w_dest | w_arg2 | w_arg3 == w_op + w_cond + w_dest + w_arg2 + w_arg3)
        by (bit_vector)
        requires
            w_op == op * 0x800_0000,
            w_cond == 0,
            w_dest == dest * 0x1_0000,
            w_arg2 == arg2 * 0x100,
            w_arg3 == arg3,
            op < 32,
            dest < 16,
            arg2 < 256,
            arg3 < 256,
    ;
    validate(w_op | w_cond | w_dest | w_arg2 | w_arg3)
}

/// Decoding the word of any line gives back each field the line selected: its
/// op-code, a zero condition code and reserved bits, its destination register
/// and its two operand bytes.
pub proof fn lemma_decode_assembled(line: Seq<char>)
    ensures
        field_of(assembled(line), 27, 5) == line_opcode(line),
        field_of(assembled(line), 22, 5) == 0,
        field_of(assembled(line), 20, 2) == 0,
        field_of(assembled(line), 16, 4) == line_dest(line),
        field_of(assembled(line), 8, 8) == line_arg2(line),
        field_of(assembled(line), 0, 8) == line_arg3(line),
{
    let ts = tokens(line);
    if ts.len() > 2 {
        lemma_resolve_bounds(ts[2]);
    }
    if ts.len() > 3 {
        lemma_resolve_bounds(ts[3]);
    }
    lemma_decode_encode(
        line_opcode(line) as u32,
        0,
        line_dest(line) as u32,
        line_arg2(line) as u32,
        line_arg3(line) as u32,
    );
}

/// A literal of 256 or more leaves 0 in the field of the operand it stands for.
pub proof fn lemma_oversized_literal_field(line: Seq<char>, position: int)
    requires
        1 <= position <= 3,
        position < tokens(line).len(),
        decimal_value(tokens(line)[position]) matches Some(n) && n >= 256,
    ensures
        position == 1 ==> field_of(assembled(line), 16, 4) == 0,
        position == 2 ==> field_of(assembled(line), 8, 8) == 0,
        position == 3 ==> field_of(assembled(line), 0, 8) == 0,
{
    lemma_oversized_literal(tokens(line)[position]);
    lemma_decode_assembled(line);
}

/// Register syntax with an index of 16 or more leaves 0 in the field of the
/// operand it stands for.
pub proof fn lemma_register_overflow_field(line: Seq<char>, position: int)
    requires
        1 <= position <= 3,
        position < tokens(line).len(),
        tokens(line)[position].len() > 0,
        tokens(line)[position][0] == 'R',
        decimal_value(tokens(line)[position].drop_first()) matches Some(k) && k >= 16,
    ensures
        position == 1 ==> field_of(assembled(line), 16, 4) == 0,
        position == 2 ==> field_of(assembled(line), 8, 8) == 0,
        position == 3 ==> field_of(assembled(line), 0, 8) == 0,
{
    lemma_register_overflow(tokens(line)[position]);
    lemma_decode_assembled(line);
}

proof fn lemma_word_len_of_word(w: Seq<char>, rest: Seq<char>)
    requires
        forall|i: int| 0 <= i < w.len() ==> !is_white_space(#[trigger] w[i]),
        rest.len() == 0 || is_white_space(rest[0]),
    ensures
        word_len(w + rest) == w.len(),
    decreases w.len(),
{
    if w.len() > 0 {
        assert((w + rest).drop_first() =~= w.drop_first() + rest);
        assert((w + rest)[0] == w[0]);
        lemma_word_len_of_word(w.drop_first(), rest);
    } else {
        assert(w + rest =~= rest);
    }
}

proof fn lemma_tokens_of_word(w: Seq<char>, rest: Seq<char>)
    requires
        w.len() > 0,
        forall|i: int| 0 <= i < w.len() ==> !is_white_space(#[trigger] w[i]),
        rest.len() == 0 || is_white_space(rest[0]),
    ensures
        tokens(w + rest) == seq![w] + tokens(rest),
{
    lemma_word_len_of_word(w, rest);
    assert((w + rest)[0] == w[0]);
    assert((w + rest).take(w.len() as int) =~= w);
    assert((w + rest).skip(w.len() as int) =~= rest);
}

proof fn lemma_tokens_of_space(rest: Seq<char>)
    ensures
        tokens(seq![' '] + rest) == tokens(rest),
{
    assert((seq![' '] + rest)[0] == ' ');
    assert((seq![' '] + rest).drop_first() =~= rest);
}

/// For every literal `n` below 256, the line `ADD 0 0 n` encodes `n` in the low
/// eight bits of its word.
pub proof fn lemma_literal_round_trip(n: nat)
    requires
        n < 256,
    ensures
        assembled(seq!['A', 'D', 'D', ' ', '0', ' ', '0', ' '] + decimal_text(n)) % 256 == n,
{
    let text = decimal_text(n);
    let zero = seq!['0'];
    let add = seq!['A', 'D', 'D'];
    let space = seq![' '];
    let line = seq!['A', 'D', 'D', ' ', '0', ' ', '0', ' '] + text;
    lemma_decimal_text_value(n);
    assert forall|i: int| 0 <= i < text.len() implies !is_white_space(#[trigger] text[i]) by {
        assert(is_digit(text[i]));
    }
    assert(line =~= add + (space + (zero + (space + (zero + (space + (text + Seq::<
        char,
    >::empty())))))));
    lemma_tokens_of_word(text, Seq::<char>::empty());
    lemma_tokens_of_space(text + Seq::<char>::empty());
    lemma_tokens_of_word(zero, space + (text + Seq::<char>::empty()));
    lemma_tokens_of_space(zero + (space + (text + Seq::<char>::empty())));
    lemma_tokens_of_word(zero, space + (zero + (space + (text + Seq::<char>::empty()))));
    lemma_tokens_of_space(zero + (space + (zero + (space + (text + Seq::<char>::empty())))));
    lemma_tokens_of_word(
        add,
        space + (zero + (space + (zero + (space + (text + Seq::<char>::empty()))))),
    );
    assert(tokens(Seq::<char>::empty()) == Seq::<Seq<char>>::empty());
    assert(tokens(line)[3] == text);
    lemma_decode_assembled(line);
    vstd::arithmetic::power2::lemma2_to64();
}

} // verus!
