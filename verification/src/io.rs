//! The two operations that reach the console: what they do to the machine,
//! given what the console did.

use vstd::prelude::*;
use crate::load::{Fault, UM};
use crate::machine::is_scalar_value;

verus! {

/// What an attempt to read one byte from the input gave.
#[derive(Clone, Copy, Debug, PartialEq, Eq, Structural)]
pub enum InputEvent {
    /// A byte was read.
    Byte(u8),
    /// The input is at its end.
    EndOfStream,
    /// The read failed.
    Failed,
}

/// What is taken on trust of `char::from_u32`, as std documents it: it gives
/// the character with the scalar value `i` where `i` is a Unicode scalar
/// value, and `None` for every other number.
pub assume_specification[ char::from_u32 ](i: u32) -> (r: Option<char>)
    ensures
        is_scalar_value(i) ==> r == Some(i as char),
        !is_scalar_value(i) ==> r.is_none(),
;

/// Gives the character to put out, the one whose scalar value register `c`
/// holds, and advances the program counter. Where the register holds no
/// scalar value the machine is left as it was.
pub fn output(c: usize, um: &mut UM) -> (r: Result<char, Fault>)
    requires
        c < 8,
    ensures
        match old(um)@.output(c as int) {
            Ok((next, ch)) => r == Ok::<char, Fault>(ch) && final(um)@ == next,
            Err(fault) => r == Err::<char, Fault>(fault) && *final(um) == *old(um),
        },
{
    match char::from_u32(um.registers[c]) {
        Some(ch) => {
            um.counter = um.counter.wrapping_add(1);
            proof {
                assert(final(um)@.segments =~= old(um)@.segments);
            }
            Ok(ch)
        },
        None => Err(Fault::InvalidOutputValue),
    }
}

/// Takes what a read of one byte gave into register `c`: the byte, or a
/// word of 32 ones at the end of the input. After a failed read the register
/// keeps what it held. Advances the program counter in each case.
pub fn input(c: usize, event: InputEvent, um: &mut UM)
    requires
        c < 8,
    ensures
        final(um)@ == old(um)@.input(c as int, event),
{
    match event {
        InputEvent::Byte(byte) => {
            um.registers[c] = byte as u32;
        },
        InputEvent::EndOfStream => {
            um.registers[c] = u32::MAX;
        },
        InputEvent::Failed => {},
    }
    um.counter = um.counter.wrapping_add(1);
    proof {
        assert(final(um)@.segments =~= old(um)@.segments);
        assert(final(um)@.registers =~= old(um)@.input(c as int, event).registers);
    }
}

} // verus!
