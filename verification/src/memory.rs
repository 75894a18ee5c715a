//! The operations on the segment store, and load value.

use vstd::prelude::*;
use crate::load::{Fault, UM};
use crate::machine::{lemma_free_is_empty, zeros};

verus! {

/// Puts the word at offset register `c` of segment register `b` in register
/// `a`, and advances the program counter. Where there is no such word this
/// is the fault `OutOfBoundsAccess`, and the machine is left as it was.
pub fn segmented_load(a: usize, b: usize, c: usize, um: &mut UM) -> (r: Result<(), Fault>)
    requires
        old(um)@.wf(),
        a < 8,
        b < 8,
        c < 8,
    ensures
        final(um)@.wf(),
        match old(um)@.segmented_load(a as int, b as int, c as int) {
            Ok(next) => r.is_ok() && final(um)@ == next,
            Err(fault) => r == Err::<(), Fault>(fault) && *final(um) == *old(um),
        },
{
    let handle: usize = um.registers[b] as usize;
    let offset: usize = um.registers[c] as usize;
    if handle >= um.memory.len() || offset >= um.memory[handle].len() {
        return Err(Fault::OutOfBoundsAccess);
    }
    proof {
        if !um@.is_mapped(um.registers[b as int]) {
            lemma_free_is_empty(um@, um.registers[b as int]);
        }
    }
    um.registers[a] = um.memory[handle][offset];
    um.counter = um.counter.wrapping_add(1);
    proof {
        assert(final(um)@.segments =~= old(um)@.segments);
    }
    Ok(())
}

/// Puts register `c` at offset register `b` of segment register `a`, and
/// advances the program counter. Where there is no such place this is the fault
/// `OutOfBoundsAccess`, and the machine is left as it was.
pub fn segmented_store(a: usize, b: usize, c: usize, um: &mut UM) -> (r: Result<(), Fault>)
    requires
        old(um)@.wf(),
        a < 8,
        b < 8,
        c < 8,
    ensures
        final(um)@.wf(),
        match old(um)@.segmented_store(a as int, b as int, c as int) {
            Ok(next) => r.is_ok() && final(um)@ == next,
            Err(fault) => r == Err::<(), Fault>(fault) && *final(um) == *old(um),
        },
{
    let handle: usize = um.registers[a] as usize;
    let offset: usize = um.registers[b] as usize;
    if handle >= um.memory.len() || offset >= um.memory[handle].len() {
        return Err(Fault::OutOfBoundsAccess);
    }
    proof {
        if !um@.is_mapped(um.registers[a as int]) {
            lemma_free_is_empty(um@, um.registers[a as int]);
        }
    }
    um.memory[handle][offset] = um.registers[c];
    um.counter = um.counter.wrapping_add(1);
    proof {
        assert(final(um)@.segments =~= old(um)@.store(
            old(um)@.registers[a as int],
            old(um)@.registers[b as int],
            old(um)@.registers[c as int],
        ).segments);
    }
    Ok(())
}

/// Maps a new segment of register `c` zero words, puts its handle in
/// register `b`, and advances the program counter. The handle is the most
/// recently freed one, or the first that was never used where none is free.
pub fn map(b: usize, c: usize, um: &mut UM)
    requires
        old(um)@.wf(),
        old(um)@.has_spare_handle(),
        b < 8,
        c < 8,
    ensures
        final(um)@.wf(),
        final(um)@ == old(um)@.map(b as int, c as int),
{
    let words: usize = um.registers[c] as usize;
    let segment: Vec<u32> = vec![0u32; words];
    assert(segment@ =~= zeros(words as nat));
    um.counter = um.counter.wrapping_add(1);
    match um.unmapped.pop() {
        Some(handle) => {
            um.registers[b] = handle;
            um.memory[handle as usize] = segment;
        },
        None => {
            let handle: usize = um.memory.len();
            um.memory.push(segment);
            um.registers[b] = handle as u32;
        },
    }
    proof {
        let spec = old(um)@.allocate(old(um)@.registers[c as int] as nat);
        assert(final(um)@.segments =~= spec.segments);
        assert(final(um)@.free =~= spec.free);
    }
}

/// Whether `handle` is among the free handles of `um`.
fn is_free(um: &UM, handle: u32) -> (free: bool)
    ensures
        free == um@.free.contains(handle),
{
    let mut i: usize = 0;
    while i < um.unmapped.len()
        invariant
            i <= um.unmapped.len(),
            forall|j: int| 0 <= j < i ==> um.unmapped@[j] != handle,
        decreases um.unmapped.len() - i,
    {
        if um.unmapped[i] == handle {
            return true;
        }
        i += 1;
    }
    false
}

/// Unmaps segment register `c`: its words are dropped and its handle is
/// free for the next mapping. Advances the program counter. Where the
/// handle is 0 or names no mapped segment this is the fault
/// `InvalidSegmentOp`, and the machine is left as it was.
pub fn unmap(c: usize, um: &mut UM) -> (r: Result<(), Fault>)
    requires
        old(um)@.wf(),
        c < 8,
    ensures
        final(um)@.wf(),
        match old(um)@.unmap(c as int) {
            Ok(next) => r.is_ok() && final(um)@ == next,
            Err(fault) => r == Err::<(), Fault>(fault) && *final(um) == *old(um),
        },
{
    let handle: u32 = um.registers[c];
    if handle == 0 || handle as usize >= um.memory.len() || is_free(um, handle) {
        return Err(Fault::InvalidSegmentOp);
    }
    um.unmapped.push(handle);
    um.memory[handle as usize].clear();
    um.counter = um.counter.wrapping_add(1);
    proof {
        let spec = old(um)@.deallocate(handle);
        assert(final(um)@.segments =~= spec.segments);
        assert(final(um)@.free =~= spec.free);
        assert forall|i: int| 0 <= i < spec.free.len() implies {
            &&& 0 < #[trigger] spec.free[i] < spec.segments.len()
            &&& spec.segments[spec.free[i] as int].len() == 0
        } by {
            if i < old(um)@.free.len() {
                assert(spec.free[i] == old(um)@.free[i]);
            }
        }
    }
    Ok(())
}

/// Puts the lowest 25 bits of `val` in register `a`, and advances the
/// program counter.
pub fn loadv(a: usize, val: u32, um: &mut UM)
    requires
        a < 8,
    ensures
        final(um)@ == old(um)@.loadv(a as int, val),
{
    let new_val: u32 = 0x1ff_ffff & val;
    assert(0x1ff_ffffu32 & val == val % 0x200_0000) by (bit_vector);
    um.registers[a] = new_val;
    um.counter = um.counter.wrapping_add(1);
    proof {
        assert(final(um)@.segments =~= old(um)@.segments);
    }
}

/// Makes segment 0 a copy of segment register `b`, unless that register
/// holds 0, and sets the program counter to register `c`. Where register `b`
/// names no mapped segment this is the fault `OutOfBoundsAccess`, and the
/// machine is left as it was.
pub fn loadp(b: usize, c: usize, um: &mut UM) -> (r: Result<(), Fault>)
    requires
        old(um)@.wf(),
        b < 8,
        c < 8,
    ensures
        final(um)@.wf(),
        match old(um)@.loadp(b as int, c as int) {
            Ok(next) => r.is_ok() && final(um)@ == next,
            Err(fault) => r == Err::<(), Fault>(fault) && *final(um) == *old(um),
        },
{
    let handle: u32 = um.registers[b];
    if handle != 0 {
        if handle as usize >= um.memory.len() || is_free(um, handle) {
            return Err(Fault::OutOfBoundsAccess);
        }
        let copy: Vec<u32> = um.memory[handle as usize].clone();
        assert(copy@ =~= um.memory@[handle as int]@);
        um.memory[0] = copy;
    }
    um.counter = um.registers[c];
    proof {
        let spec = old(um)@.duplicate_into_zero(handle);
        assert(final(um)@.segments =~= spec.segments);
    }
    Ok(())
}

} // verus!
