//! Bit fields of a 32-bit instruction word.

use vstd::prelude::*;
use vstd::arithmetic::power2::{pow2, lemma2_to64, lemma_pow2_pos, lemma_pow2_strictly_increases};
use vstd::arithmetic::div_mod::{
    lemma_basic_div, lemma_fundamental_div_mod_converse, lemma_mod_bound, lemma_small_mod,
};
use vstd::bits::{
    low_bits_mask, lemma_u32_low_bits_mask_is_mod, lemma_u32_pow2_no_overflow,
    lemma_u32_shl_is_mul, lemma_u32_shr_is_div,
};
use crate::load::{opcode_of, Opcode};

verus! {

/// A bit field of a 32-bit word: `width` bits, the lowest of them at bit `lsb`.
#[derive(Clone, Copy, Debug)]
pub struct Field {
    width: u32,
    lsb: u32,
}

/// The value that the bits `lsb .. lsb + width` of `word` spell, with bit
/// `lsb` as its lowest digit. Bits beyond the thirty-second count as zero.
pub open spec fn field_value(word: u32, width: nat, lsb: nat) -> nat {
    (word as nat / pow2(lsb)) % pow2(width)
}

impl Field {
    /// The number of bits in the field.
    pub closed spec fn spec_width(&self) -> nat {
        self.width as nat
    }

    /// The position of the field's lowest bit.
    pub closed spec fn spec_lsb(&self) -> nat {
        self.lsb as nat
    }

    /// A field of `width` bits whose lowest bit is bit `lsb` of the word.
    pub fn new(width: u32, lsb: u32) -> (field: Field)
        ensures
            field.spec_width() == width,
            field.spec_lsb() == lsb,
    {
        Field { width, lsb }
    }
}

/// Register A of a three-register instruction: bits 6 to 8.
pub fn ra() -> (field: Field)
    ensures
        field.spec_width() == 3,
        field.spec_lsb() == 6,
{
    Field { width: 3, lsb: 6 }
}

/// Register B of a three-register instruction: bits 3 to 5.
pub fn rb() -> (field: Field)
    ensures
        field.spec_width() == 3,
        field.spec_lsb() == 3,
{
    Field { width: 3, lsb: 3 }
}

/// Register C of a three-register instruction: bits 0 to 2.
pub fn rc() -> (field: Field)
    ensures
        field.spec_width() == 3,
        field.spec_lsb() == 0,
{
    Field { width: 3, lsb: 0 }
}

/// The destination register of a load-value instruction: bits 25 to 27.
pub fn rl() -> (field: Field)
    ensures
        field.spec_width() == 3,
        field.spec_lsb() == 25,
{
    Field { width: 3, lsb: 25 }
}

/// The value of a load-value instruction: bits 0 to 24.
pub fn vl() -> (field: Field)
    ensures
        field.spec_width() == 25,
        field.spec_lsb() == 0,
{
    Field { width: 25, lsb: 0 }
}

/// The word whose lowest `bits` bits are set and no others; all thirty-two
/// where `bits` is 32 or more.
pub fn mask(bits: u32) -> (m: u32)
    ensures
        bits < 32 ==> m == pow2(bits as nat) - 1,
        bits >= 32 ==> m == 0xffff_ffffu32,
{
    if bits >= 32 {
        u32::MAX
    } else {
        proof {
            lemma_u32_pow2_no_overflow(bits as nat);
            lemma_pow2_pos(bits as nat);
            lemma_u32_shl_is_mul(1u32, bits);
        }
        (1u32 << bits) - 1
    }
}

/// Extracts `field` from `instruction`.
pub fn get(field: &Field, instruction: u32) -> (value: u32)
    ensures
        value == field_value(instruction, field.spec_width(), field.spec_lsb()),
{
    if field.lsb >= 32 {
        proof {
            lemma2_to64();
            if field.lsb > 32 {
                lemma_pow2_strictly_increases(32, field.lsb as nat);
            }
            lemma_pow2_pos(field.width as nat);
            lemma_basic_div(instruction as int, pow2(field.lsb as nat) as int);
            lemma_small_mod(0, pow2(field.width as nat));
        }
        return 0;
    }
    let shifted: u32 = instruction >> field.lsb;
    let m: u32 = mask(field.width);
    proof {
        lemma_u32_shr_is_div(instruction, field.lsb);
        if field.width < 32 {
            lemma_u32_pow2_no_overflow(field.width as nat);
            lemma_u32_low_bits_mask_is_mod(shifted, field.width as nat);
            assert(low_bits_mask(field.width as nat) == pow2(field.width as nat) - 1);
        } else {
            assert(shifted & 0xffff_ffffu32 == shifted) by (bit_vector);
            lemma2_to64();
            if field.width > 32 {
                lemma_pow2_strictly_increases(32, field.width as nat);
            }
            lemma_small_mod(shifted as nat, pow2(field.width as nat));
        }
    }
    shifted & m
}

/// The operation that `instruction` names in its four highest bits, bits 28
/// to 31; `None` where they hold 14 or 15, which name no operation.
pub fn op(instruction: u32) -> (o: Option<Opcode>)
    ensures
        o == opcode_of(field_value(instruction, 4, 28)),
{
    let tag: u32 = get(&Field { width: 4, lsb: 28 }, instruction);
    if tag == 0 {
        Some(Opcode::CMov)
    } else if tag == 1 {
        Some(Opcode::Load)
    } else if tag == 2 {
        Some(Opcode::Store)
    } else if tag == 3 {
        Some(Opcode::Add)
    } else if tag == 4 {
        Some(Opcode::Mul)
    } else if tag == 5 {
        Some(Opcode::Div)
    } else if tag == 6 {
        Some(Opcode::Nand)
    } else if tag == 7 {
        Some(Opcode::Halt)
    } else if tag == 8 {
        Some(Opcode::Alloc)
    } else if tag == 9 {
        Some(Opcode::Free)
    } else if tag == 10 {
        Some(Opcode::Output)
    } else if tag == 11 {
        Some(Opcode::Input)
    } else if tag == 12 {
        Some(Opcode::LoadP)
    } else if tag == 13 {
        Some(Opcode::LoadV)
    } else {
        None
    }
}

/// A field's value is below two to the power of its width.
pub proof fn lemma_field_value_bound(word: u32, width: nat, lsb: nat)
    ensures
        field_value(word, width, lsb) < pow2(width),
{
    lemma_pow2_pos(width);
    lemma_mod_bound((word as nat / pow2(lsb)) as int, pow2(width) as int);
}

/// The three-register instruction word that holds operation number `opcode`
/// in bits 28 to 31 and the register numbers `a`, `b` and `c` in bits 6 to 8,
/// 3 to 5 and 0 to 2; every other bit is zero.
pub open spec fn three_register_word(opcode: nat, a: nat, b: nat, c: nat) -> nat {
    opcode * pow2(28) + a * pow2(6) + b * pow2(3) + c
}

/// Encoding an operation number below 16 and three register numbers below 8
/// as a three-register word gives a 32-bit word, and reading the four fields
/// back from that word recovers each of the four numbers.
pub proof fn lemma_three_register_round_trip(opcode: nat, a: nat, b: nat, c: nat)
    requires
        opcode < 16,
        a < 8,
        b < 8,
        c < 8,
    ensures
        three_register_word(opcode, a, b, c) <= u32::MAX,
        field_value(three_register_word(opcode, a, b, c) as u32, 4, 28) == opcode,
        field_value(three_register_word(opcode, a, b, c) as u32, 3, 6) == a,
        field_value(three_register_word(opcode, a, b, c) as u32, 3, 3) == b,
        field_value(three_register_word(opcode, a, b, c) as u32, 3, 0) == c,
{
    lemma2_to64();
    let (o, x, y, z) = (opcode as int, a as int, b as int, c as int);
    let w: int = o * 0x1000_0000 + x * 64 + y * 8 + z;
    assert(w == three_register_word(opcode, a, b, c));
    assert(0 <= w <= 0xffff_ffff);
    lemma_fundamental_div_mod_converse(w, 0x1000_0000, o, x * 64 + y * 8 + z);
    lemma_fundamental_div_mod_converse(o, 16, 0, o);
    lemma_fundamental_div_mod_converse(w, 64, o * 0x40_0000 + x, y * 8 + z);
    lemma_fundamental_div_mod_converse(o * 0x40_0000 + x, 8, o * 0x8_0000, x);
    lemma_fundamental_div_mod_converse(w, 8, o * 0x200_0000 + x * 8 + y, z);
    lemma_fundamental_div_mod_converse(o * 0x200_0000 + x * 8 + y, 8, o * 0x40_0000 + x, y);
    lemma_fundamental_div_mod_converse(w, 1, w, 0);
}

} // verus!
