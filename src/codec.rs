//! Packing and unpacking of fixed-width bit fields in a 32-bit word.

use vstd::arithmetic::power2::{lemma2_to64, pow2};
use vstd::bits::{
    lemma_u32_low_bits_mask_is_mod, lemma_u32_pow2_no_overflow, lemma_u32_shl_is_mul,
    lemma_u32_shr_is_div, low_bits_mask,
};
use vstd::prelude::*;

verus! {

/// The `len`-bit field of `word` that starts at bit `start`, right-justified.
pub open spec fn field_of(word: nat, start: nat, len: nat) -> nat {
    (word / pow2(start)) % pow2(len)
}

/// Returns the `l`-bit field of `ins` beginning at bit `s`, zero-extended.
/// A field of width 0 is 0; the full 32-bit field is `ins` itself.
pub fn extract_bits(ins: u32, s: u32, l: u32) -> (r: u32)
    requires
        s + l <= 32,
    ensures
        r as nat == field_of(ins as nat, s as nat, l as nat),
{
    if l == 0 {
        proof {
            lemma2_to64();
        }
        return 0;
    }
    if l == 32 {
        proof {
            lemma2_to64();
            assert(pow2(32) == 0x1_0000_0000);
            assert(ins as nat / pow2(0) == ins as nat);
            assert((ins as nat) % 0x1_0000_0000 == ins as nat);
        }
        return ins;
    }
    proof {
        lemma_u32_pow2_no_overflow(l as nat);
        lemma_u32_shl_is_mul(1, l);
        lemma_u32_shr_is_div(ins, s);
    }
    let mask: u32 = (1u32 << l) - 1;
    let shifted: u32 = ins >> s;
    proof {
        assert(low_bits_mask(l as nat) == pow2(l as nat) - 1);
        lemma_u32_low_bits_mask_is_mod(shifted, l as nat);
    }
    shifted & mask
}

/// Bit position of the op-code field (5 bits).
pub const OPCODE_SHIFT: u32 = 27;
/// Bit position of the condition-code field (5 bits, reserved).
pub const COND_SHIFT: u32 = 22;
/// Bit position of the destination-register field (4 bits).
pub const DEST_SHIFT: u32 = 16;
/// Bit position of the second operand byte.
pub const OPERAND2_SHIFT: u32 = 8;
/// Bit position of the third operand byte.
pub const OPERAND3_SHIFT: u32 = 0;

/// The word holding the given field values in their positions; bits 21-20 stay 0.
pub open spec fn word_of(op: nat, cond: nat, dest: nat, arg2: nat, arg3: nat) -> nat {
    op * 0x800_0000 + cond * 0x40_0000 + dest * 0x1_0000 + arg2 * 0x100 + arg3
}

/// Shifts `value` into position `start`. The caller masks `value` to the width
/// of its field first: nothing is checked or truncated here.
pub fn pack(value: u32, start: u32) -> (r: u32)
    requires
        start < 32,
        value * pow2(start as nat) <= u32::MAX,
    ensures
        r as nat == value * pow2(start as nat),
{
    proof {
        lemma_u32_shl_is_mul(value, start);
    }
    value << start
}

proof fn lemma_field_positions()
    ensures
        pow2(0) == 1,
        pow2(2) == 4,
        pow2(4) == 16,
        pow2(5) == 32,
        pow2(8) == 0x100,
        pow2(16) == 0x1_0000,
        pow2(20) == 0x10_0000,
        pow2(22) == 0x40_0000,
        pow2(27) == 0x800_0000,
{
    lemma2_to64();
}

/// Decoding an encoded word gives back every field that was packed into it, and
/// the reserved bits 21-20 read as 0.
pub proof fn lemma_decode_encode(op: u32, cond: u32, dest: u32, arg2: u32, arg3: u32)
    requires
        op < 32,
        cond < 32,
        dest < 16,
        arg2 < 256,
        arg3 < 256,
    ensures
        field_of(word_of(op as nat, cond as nat, dest as nat, arg2 as nat, arg3 as nat), 27, 5)
            == op,
        field_of(word_of(op as nat, cond as nat, dest as nat, arg2 as nat, arg3 as nat), 22, 5)
            == cond,
        field_of(word_of(op as nat, cond as nat, dest as nat, arg2 as nat, arg3 as nat), 20, 2)
            == 0,
        field_of(word_of(op as nat, cond as nat, dest as nat, arg2 as nat, arg3 as nat), 16, 4)
            == dest,
        field_of(word_of(op as nat, cond as nat, dest as nat, arg2 as nat, arg3 as nat), 8, 8)
            == arg2,
        field_of(word_of(op as nat, cond as nat, dest as nat, arg2 as nat, arg3 as nat), 0, 8)
            == arg3,
{
    lemma_field_positions();
    assert(((op * 0x800_0000 + cond * 0x40_0000 + dest * 0x1_0000 + arg2 * 0x100 + arg3)
        / 0x800_0000) % 32 == op
        && ((op * 0x800_0000 + cond * 0x40_0000 + dest * 0x1_0000 + arg2 * 0x100 + arg3)
        / 0x40_0000) % 32 == cond
        && ((op * 0x800_0000 + cond * 0x40_0000 + dest * 0x1_0000 + arg2 * 0x100 + arg3)
        / 0x10_0000) % 4 == 0
        && ((op * 0x800_0000 + cond * 0x40_0000 + dest * 0x1_0000 + arg2 * 0x100 + arg3)
        / 0x1_0000) % 16 == dest
        && ((op * 0x800_0000 + cond * 0x40_0000 + dest * 0x1_0000 + arg2 * 0x100 + arg3)
        / 0x100) % 256 == arg2
        && ((op * 0x800_0000 + cond * 0x40_0000 + dest * 0x1_0000 + arg2 * 0x100 + arg3)
        / 1) % 256 == arg3) by (bit_vector)
        requires
            op < 32,
            cond < 32,
            dest < 16,
            arg2 < 256,
            arg3 < 256,
    ;
}

} // verus!
