//! The operations on registers alone, and halt.

use vstd::prelude::*;
use crate::load::{Fault, State, UM};

verus! {

/// Copies register `b` to register `a` unless register `c` holds zero, and
/// advances the program counter.
pub fn conditional_move(a: usize, b: usize, c: usize, um: &mut UM)
    requires
        a < 8,
        b < 8,
        c < 8,
    ensures
        final(um)@ == old(um)@.conditional_move(a as int, b as int, c as int),
{
    if um.registers[c] != 0 {
        um.registers[a] = um.registers[b];
    }
    um.counter = um.counter.wrapping_add(1);
    proof {
        let spec = old(um)@.conditional_move(a as int, b as int, c as int);
        assert(final(um)@.segments =~= spec.segments);
        assert(final(um)@.registers =~= spec.registers);
    }
}

/// Puts the sum of registers `b` and `c`, modulo 2^32, in register `a`, and
/// advances the program counter.
pub fn addition(a: usize, b: usize, c: usize, um: &mut UM)
    requires
        a < 8,
        b < 8,
        c < 8,
    ensures
        final(um)@ == old(um)@.addition(a as int, b as int, c as int),
{
    let sum: u64 = um.registers[b] as u64 + um.registers[c] as u64;
    um.registers[a] = (sum % 0x1_0000_0000u64) as u32;
    um.counter = um.counter.wrapping_add(1);
    proof {
        assert(final(um)@.segments =~= old(um)@.segments);
    }
}

/// Puts the product of registers `b` and `c`, modulo 2^32, in register `a`,
/// and advances the program counter.
pub fn multiplication(a: usize, b: usize, c: usize, um: &mut UM)
    requires
        a < 8,
        b < 8,
        c < 8,
    ensures
        final(um)@ == old(um)@.multiplication(a as int, b as int, c as int),
{
    let x: u64 = um.registers[b] as u64;
    let y: u64 = um.registers[c] as u64;
    assert(x * y <= 0xffff_ffff * 0xffff_ffff) by (nonlinear_arith)
        requires
            x <= 0xffff_ffff,
            y <= 0xffff_ffff,
    ;
    let product: u64 = x * y;
    um.registers[a] = (product % 0x1_0000_0000u64) as u32;
    um.counter = um.counter.wrapping_add(1);
    proof {
        assert(final(um)@.segments =~= old(um)@.segments);
    }
}

/// Puts the quotient of register `b` by register `c`, rounded towards zero,
/// in register `a`, and advances the program counter. Where register `c`
/// holds zero this is the fault `DivisionByZero`, and the machine is left as
/// it was.
pub fn division(a: usize, b: usize, c: usize, um: &mut UM) -> (r: Result<(), Fault>)
    requires
        a < 8,
        b < 8,
        c < 8,
    ensures
        match old(um)@.division(a as int, b as int, c as int) {
            Ok(next) => r.is_ok() && final(um)@ == next,
            Err(fault) => r == Err::<(), Fault>(fault) && *final(um) == *old(um),
        },
{
    if um.registers[c] == 0 {
        return Err(Fault::DivisionByZero);
    }
    um.registers[a] = um.registers[b] / um.registers[c];
    um.counter = um.counter.wrapping_add(1);
    proof {
        assert(final(um)@.segments =~= old(um)@.segments);
    }
    Ok(())
}

/// Puts in register `a` the word that has a 1 wherever registers `b` and `c`
/// do not both have one, and advances the program counter.
pub fn bitwise_nand(a: usize, b: usize, c: usize, um: &mut UM)
    requires
        a < 8,
        b < 8,
        c < 8,
    ensures
        final(um)@ == old(um)@.bitwise_nand(a as int, b as int, c as int),
{
    um.registers[a] = !(um.registers[b] & um.registers[c]);
    um.counter = um.counter.wrapping_add(1);
    proof {
        assert(final(um)@.segments =~= old(um)@.segments);
    }
}

/// Ends the run: the state of a machine that reached a halt instruction.
pub fn halt() -> (state: State)
    ensures
        state == State::Halted,
{
    State::Halted
}

} // verus!
