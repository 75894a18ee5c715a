//! The machine as a mathematical value, and what each operation makes of it.

use vstd::prelude::*;
use vstd::arithmetic::power2::lemma2_to64;
use crate::bitshift::{field_value, lemma_field_value_bound};
use crate::io::InputEvent;
use crate::load::{opcode_of, Action, Fault, Opcode, State};

verus! {

/// The state of a machine as a mathematical value.
pub ghost struct Machine {
    /// The segments, by handle. The segment of a free handle is empty.
    pub segments: Seq<Seq<u32>>,
    /// The free handles, the most recently freed last.
    pub free: Seq<u32>,
    /// The eight registers.
    pub registers: Seq<u32>,
    /// The program counter: an index into segment 0.
    pub counter: u32,
}

/// What a run came to.
pub ghost struct Trace {
    /// The machine at the end of the run.
    pub machine: Machine,
    /// The state the machine is in.
    pub state: State,
    /// The characters put out, in order.
    pub output: Seq<char>,
    /// The number of input bytes that were read.
    pub consumed: nat,
}

/// A segment of `n` words, all zero.
pub open spec fn zeros(n: nat) -> Seq<u32> {
    Seq::new(n, |i: int| 0u32)
}

/// Whether `value` is a Unicode scalar value: a code point up to 0x10FFFF
/// that is no surrogate.
pub open spec fn is_scalar_value(value: u32) -> bool {
    value <= 0xD7FF || 0xE000 <= value <= 0x10_FFFF
}

impl Machine {
    /// The machine at its start: `program` as segment 0 and no other
    /// segment, every register zero, the program counter at 0.
    pub open spec fn initial(program: Seq<u32>) -> Machine {
        Machine {
            segments: seq![program],
            free: Seq::empty(),
            registers: Seq::new(8, |i: int| 0u32),
            counter: 0,
        }
    }

    /// Segment 0 exists, every handle fits in 32 bits, there are eight
    /// registers, and the free handles are distinct handles other than 0
    /// whose segments are empty.
    pub open spec fn wf(self) -> bool {
        &&& 1 <= self.segments.len() <= 0x1_0000_0000
        &&& self.registers.len() == 8
        &&& self.free.no_duplicates()
        &&& forall|i: int|
            0 <= i < self.free.len() ==> {
                &&& 0 < #[trigger] self.free[i] < self.segments.len()
                &&& self.segments[self.free[i] as int].len() == 0
            }
    }

    /// Whether `handle` names a segment that is there: one that was
    /// allocated and not freed since.
    pub open spec fn is_mapped(self, handle: u32) -> bool {
        handle < self.segments.len() && !self.free.contains(handle)
    }

    /// Whether `offset` is a place in the mapped segment `handle`.
    pub open spec fn in_bounds(self, handle: u32, offset: u32) -> bool {
        self.is_mapped(handle) && offset < self.segments[handle as int].len()
    }

    /// Whether segment `handle` may be unmapped: it is mapped and is not
    /// segment 0.
    pub open spec fn unmap_allowed(self, handle: u32) -> bool {
        handle != 0 && self.is_mapped(handle)
    }

    /// Whether an allocation can be given a handle of 32 bits.
    pub open spec fn has_spare_handle(self) -> bool {
        self.free.len() > 0 || self.segments.len() <= u32::MAX
    }

    /// The handle that the next allocation gets: the most recently freed
    /// one, or the first that was never used.
    pub open spec fn next_handle(self) -> nat {
        if self.free.len() > 0 {
            self.free.last() as nat
        } else {
            self.segments.len()
        }
    }

    /// This machine with `value` in register `r`.
    pub open spec fn set_register(self, r: int, value: u32) -> Machine {
        Machine { registers: self.registers.update(r, value), ..self }
    }

    /// This machine with the program counter at the next word. The counter
    /// has 32 bits: after the last index it is 0 again.
    pub open spec fn advance(self) -> Machine {
        Machine {
            counter: if self.counter == u32::MAX {
                0u32
            } else {
                (self.counter + 1) as u32
            },
            ..self
        }
    }

    /// This machine with the program counter at `target`.
    pub open spec fn jump(self, target: u32) -> Machine {
        Machine { counter: target, ..self }
    }

    /// The word at `offset` of segment `handle`.
    pub open spec fn load(self, handle: u32, offset: u32) -> u32 {
        self.segments[handle as int][offset as int]
    }

    /// This machine with `value` at `offset` of segment `handle`.
    pub open spec fn store(self, handle: u32, offset: u32, value: u32) -> Machine {
        Machine {
            segments: self.segments.update(
                handle as int,
                self.segments[handle as int].update(offset as int, value),
            ),
            ..self
        }
    }

    /// This machine with a new segment of `n` zero words under
    /// `self.next_handle()`.
    pub open spec fn allocate(self, n: nat) -> Machine {
        if self.free.len() > 0 {
            Machine {
                segments: self.segments.update(self.free.last() as int, zeros(n)),
                free: self.free.drop_last(),
                ..self
            }
        } else {
            Machine { segments: self.segments.push(zeros(n)), ..self }
        }
    }

    /// This machine with segment `handle` emptied and its handle free.
    pub open spec fn deallocate(self, handle: u32) -> Machine {
        Machine {
            segments: self.segments.update(handle as int, Seq::empty()),
            free: self.free.push(handle),
            ..self
        }
    }

    /// This machine with a copy of segment `handle` as segment 0.
    pub open spec fn duplicate_into_zero(self, handle: u32) -> Machine {
        Machine { segments: self.segments.update(0, self.segments[handle as int]), ..self }
    }

    /// Conditional move: register `a` takes register `b` unless register `c`
    /// holds zero.
    pub open spec fn conditional_move(self, a: int, b: int, c: int) -> Machine {
        if self.registers[c] != 0 {
            self.set_register(a, self.registers[b]).advance()
        } else {
            self.advance()
        }
    }

    /// Addition: register `a` takes the sum of registers `b` and `c`,
    /// modulo 2^32.
    pub open spec fn addition(self, a: int, b: int, c: int) -> Machine {
        self.set_register(
            a,
            ((self.registers[b] + self.registers[c]) % 0x1_0000_0000) as u32,
        ).advance()
    }

    /// Multiplication: register `a` takes the product of registers `b` and
    /// `c`, modulo 2^32.
    pub open spec fn multiplication(self, a: int, b: int, c: int) -> Machine {
        self.set_register(
            a,
            ((self.registers[b] * self.registers[c]) % 0x1_0000_0000) as u32,
        ).advance()
    }

    /// Division: register `a` takes the quotient of register `b` by register
    /// `c`, rounded towards zero. A zero divisor is a fault.
    pub open spec fn division(self, a: int, b: int, c: int) -> Result<Machine, Fault> {
        if self.registers[c] == 0 {
            Err(Fault::DivisionByZero)
        } else {
            Ok(self.set_register(a, (self.registers[b] / self.registers[c]) as u32).advance())
        }
    }

    /// Not-and: register `a` takes the word with a 1 wherever registers `b`
    /// and `c` do not both have one.
    pub open spec fn bitwise_nand(self, a: int, b: int, c: int) -> Machine {
        self.set_register(a, !(self.registers[b] & self.registers[c])).advance()
    }

    /// Segmented load: register `a` takes the word at offset register `c` of
    /// segment register `b`. It is a fault if there is no such word.
    pub open spec fn segmented_load(self, a: int, b: int, c: int) -> Result<Machine, Fault> {
        if self.in_bounds(self.registers[b], self.registers[c]) {
            Ok(self.set_register(a, self.load(self.registers[b], self.registers[c])).advance())
        } else {
            Err(Fault::OutOfBoundsAccess)
        }
    }

    /// Segmented store: the word at offset register `b` of segment register
    /// `a` takes register `c`. It is a fault if there is no such word.
    pub open spec fn segmented_store(self, a: int, b: int, c: int) -> Result<Machine, Fault> {
        if self.in_bounds(self.registers[a], self.registers[b]) {
            Ok(self.store(self.registers[a], self.registers[b], self.registers[c]).advance())
        } else {
            Err(Fault::OutOfBoundsAccess)
        }
    }

    /// Map: a new segment of register `c` zero words; register `b` takes its
    /// handle.
    pub open spec fn map(self, b: int, c: int) -> Machine {
        self.allocate(self.registers[c] as nat).set_register(
            b,
            self.next_handle() as u32,
        ).advance()
    }

    /// Unmap: segment register `c` is dropped and its handle freed. It is a
    /// fault if the handle is 0 or names no mapped segment.
    pub open spec fn unmap(self, c: int) -> Result<Machine, Fault> {
        if self.unmap_allowed(self.registers[c]) {
            Ok(self.deallocate(self.registers[c]).advance())
        } else {
            Err(Fault::InvalidSegmentOp)
        }
    }

    /// Load value: register `a` takes the lowest 25 bits of `val`.
    pub open spec fn loadv(self, a: int, val: u32) -> Machine {
        self.set_register(a, (val % 0x200_0000) as u32).advance()
    }

    /// Load program: segment 0 becomes a copy of segment register `b`,
    /// unless that handle is 0, and the program counter takes register `c`.
    /// It is a fault if register `b` names no mapped segment.
    pub open spec fn loadp(self, b: int, c: int) -> Result<Machine, Fault> {
        if !self.is_mapped(self.registers[b]) {
            Err(Fault::OutOfBoundsAccess)
        } else if self.registers[b] == 0 {
            Ok(self.jump(self.registers[c]))
        } else {
            Ok(self.duplicate_into_zero(self.registers[b]).jump(self.registers[c]))
        }
    }

    /// Output: the character whose scalar value register `c` holds is put
    /// out. It is a fault if the register holds no scalar value.
    pub open spec fn output(self, c: int) -> Result<(Machine, char), Fault> {
        if is_scalar_value(self.registers[c]) {
            Ok((self.advance(), self.registers[c] as char))
        } else {
            Err(Fault::InvalidOutputValue)
        }
    }

    /// Input: register `c` takes the byte that was read, or a word of 32
    /// ones at the end of the input; after a failed read it keeps what it
    /// held.
    pub open spec fn input(self, c: int, event: InputEvent) -> Machine {
        match event {
            InputEvent::Byte(byte) => self.set_register(c, byte as u32).advance(),
            InputEvent::EndOfStream => self.set_register(c, u32::MAX).advance(),
            InputEvent::Failed => self.advance(),
        }
    }

    /// A machine that goes on running from `self`, with nothing to put out
    /// or read.
    pub open spec fn running(self) -> (Machine, State, Action) {
        (self, State::Running, Action::Nothing)
    }

    /// What an operation that may fault leaves behind: the machine it made,
    /// running, or `self` as it was, faulted.
    pub open spec fn settle(self, made: Result<Machine, Fault>) -> (Machine, State, Action) {
        match made {
            Ok(next) => next.running(),
            Err(fault) => (self, State::Faulted(fault), Action::Nothing),
        }
    }

    /// One step: the word at the program counter is fetched from segment 0
    /// and decoded, and its operation carried out. The result is the machine
    /// after the step, the state it is in, and what is left for the caller to
    /// do. A halted or faulted machine, and one that waits for input, is the
    /// machine before the step.
    pub open spec fn step(self) -> (Machine, State, Action) {
        if self.counter >= self.segments[0].len() {
            (self, State::Faulted(Fault::OutOfBoundsFetch), Action::Nothing)
        } else {
            let word = self.segments[0][self.counter as int];
            let a = field_value(word, 3, 6) as int;
            let b = field_value(word, 3, 3) as int;
            let c = field_value(word, 3, 0) as int;
            match opcode_of(field_value(word, 4, 28)) {
                None => (self, State::Faulted(Fault::InvalidOpcode), Action::Nothing),
                Some(Opcode::CMov) => self.conditional_move(a, b, c).running(),
                Some(Opcode::Load) => self.settle(self.segmented_load(a, b, c)),
                Some(Opcode::Store) => self.settle(self.segmented_store(a, b, c)),
                Some(Opcode::Add) => self.addition(a, b, c).running(),
                Some(Opcode::Mul) => self.multiplication(a, b, c).running(),
                Some(Opcode::Div) => self.settle(self.division(a, b, c)),
                Some(Opcode::Nand) => self.bitwise_nand(a, b, c).running(),
                Some(Opcode::Halt) => (self, State::Halted, Action::Nothing),
                Some(Opcode::Alloc) => self.map(b, c).running(),
                Some(Opcode::Free) => self.settle(self.unmap(c)),
                Some(Opcode::Output) => match self.output(c) {
                    Ok((next, ch)) => (next, State::Running, Action::Output(ch)),
                    Err(fault) => (self, State::Faulted(fault), Action::Nothing),
                },
                Some(Opcode::Input) => (self, State::Running, Action::Input(c as usize)),
                Some(Opcode::LoadP) => self.settle(self.loadp(b, c)),
                Some(Opcode::LoadV) => self.loadv(
                    field_value(word, 3, 25) as int,
                    field_value(word, 25, 0) as u32,
                ).running(),
            }
        }
    }

    /// A run of at most `limit` steps from `self`, which has read the first
    /// `consumed` bytes of `input` and put out `output` so far. Each
    /// character that a step gives is added to the output; each read takes
    /// the next byte of `input`, or finds the end of the stream once all are
    /// taken. The run ends with the step that halts or faults. It ends
    /// earlier, still running, after `limit` steps or where no 32-bit handle
    /// is left for an allocation.
    pub open spec fn run(self, input: Seq<u8>, consumed: nat, output: Seq<char>, limit: nat) -> Trace
        decreases limit,
    {
        if limit == 0 || !self.has_spare_handle() {
            Trace { machine: self, state: State::Running, output, consumed }
        } else {
            let (next, state, action) = self.step();
            match (state, action) {
                (State::Running, Action::Nothing) => next.run(
                    input,
                    consumed,
                    output,
                    (limit - 1) as nat,
                ),
                (State::Running, Action::Output(ch)) => next.run(
                    input,
                    consumed,
                    output.push(ch),
                    (limit - 1) as nat,
                ),
                (State::Running, Action::Input(c)) => if consumed < input.len() {
                    next.input(c as int, InputEvent::Byte(input[consumed as int])).run(
                        input,
                        consumed + 1,
                        output,
                        (limit - 1) as nat,
                    )
                } else {
                    next.input(c as int, InputEvent::EndOfStream).run(
                        input,
                        consumed,
                        output,
                        (limit - 1) as nat,
                    )
                },
                _ => Trace { machine: next, state, output, consumed },
            }
        }
    }
}

/// In a well-formed machine the segment of a handle that is not mapped holds
/// no word.
pub proof fn lemma_free_is_empty(m: Machine, handle: u32)
    requires
        m.wf(),
        handle < m.segments.len(),
        !m.is_mapped(handle),
    ensures
        m.segments[handle as int].len() == 0,
{
    let i = choose|i: int| 0 <= i < m.free.len() && m.free[i] == handle;
    assert(m.free[i] == handle);
}

/// Free handles are used again in the reverse of the order in which they
/// were freed: after two allocations and the release of the first handle and
/// then the second, the next allocation gets the second handle and the one
/// after it the first.
pub proof fn lemma_reuse_is_last_in_first_out(m: Machine, n1: nat, n2: nat, n3: nat)
    requires
        m.wf(),
        m.has_spare_handle(),
        m.allocate(n1).has_spare_handle(),
    ensures
        ({
            let h1 = m.next_handle() as u32;
            let h2 = m.allocate(n1).next_handle() as u32;
            let both = m.allocate(n1).allocate(n2);
            let freed = both.deallocate(h1).deallocate(h2);
            &&& h1 != h2
            &&& both.unmap_allowed(h1)
            &&& both.deallocate(h1).unmap_allowed(h2)
            &&& freed.wf()
            &&& freed.next_handle() == h2
            &&& freed.allocate(n3).next_handle() == h1
        }),
{
    let h1 = m.next_handle() as u32;
    let one = m.allocate(n1);
    lemma_allocate_maps(m, n1);
    let h2 = one.next_handle() as u32;
    let both = one.allocate(n2);
    lemma_allocate_maps(one, n2);
    assert(both.is_mapped(h1)) by {
        if one.free.len() > 0 {
            assert(both.free =~= one.free.drop_last());
            if both.free.contains(h1) {
                let i = choose|i: int| 0 <= i < both.free.len() && both.free[i] == h1;
                assert(one.free[i] == h1);
            }
        }
    }
    let first = both.deallocate(h1);
    lemma_deallocate_frees(both, h1);
    assert(first.is_mapped(h2)) by {
        if first.free.contains(h2) {
            let i = choose|i: int| 0 <= i < first.free.len() && first.free[i] == h2;
            if i < both.free.len() {
                assert(both.free[i] == h2);
            }
        }
    }
    lemma_deallocate_frees(first, h2);
    let freed = first.deallocate(h2);
    assert(freed.free.drop_last() =~= first.free);
}

/// An allocation keeps a machine well-formed, and the handle it gives names
/// a mapped segment other than segment 0.
pub proof fn lemma_allocate_maps(m: Machine, n: nat)
    requires
        m.wf(),
        m.has_spare_handle(),
    ensures
        m.allocate(n).wf(),
        m.next_handle() != 0,
        m.next_handle() <= u32::MAX,
        m.allocate(n).is_mapped(m.next_handle() as u32),
        m.allocate(n).segments[m.next_handle() as int] == zeros(n),
{
    let after = m.allocate(n);
    if m.free.len() > 0 {
        let h = m.free.last();
        assert(m.free[m.free.len() - 1] == h);
        assert forall|i: int| 0 <= i < after.free.len() implies after.free[i] != h by {
            assert(after.free[i] == m.free[i]);
        }
    } else {
        assert(after.free =~= Seq::<u32>::empty());
    }
}

/// Freeing a mapped segment other than segment 0 keeps a machine
/// well-formed, and its handle is the next to be given out.
pub proof fn lemma_deallocate_frees(m: Machine, handle: u32)
    requires
        m.wf(),
        m.unmap_allowed(handle),
    ensures
        m.deallocate(handle).wf(),
        !m.deallocate(handle).is_mapped(handle),
        m.deallocate(handle).next_handle() == handle,
{
    let after = m.deallocate(handle);
    assert(after.free[after.free.len() - 1] == handle);
    assert forall|i: int| 0 <= i < after.free.len() implies {
        &&& 0 < #[trigger] after.free[i] < after.segments.len()
        &&& after.segments[after.free[i] as int].len() == 0
    } by {
        if i < m.free.len() {
            assert(after.free[i] == m.free[i]);
        }
    }
    assert forall|i: int, j: int|
        0 <= i < after.free.len() && 0 <= j < after.free.len() && i != j implies after.free[i]
        != after.free[j] by {
        if i < m.free.len() {
            assert(after.free[i] == m.free[i]);
        }
        if j < m.free.len() {
            assert(after.free[j] == m.free[j]);
        }
    }
}

/// A step leaves a well-formed machine well-formed.
pub proof fn lemma_step_keeps_wf(m: Machine)
    requires
        m.wf(),
        m.has_spare_handle(),
    ensures
        m.step().0.wf(),
{
    if m.counter < m.segments[0].len() {
        let word = m.segments[0][m.counter as int];
        let a = field_value(word, 3, 6) as int;
        let b = field_value(word, 3, 3) as int;
        let c = field_value(word, 3, 0) as int;
        lemma2_to64();
        lemma_field_value_bound(word, 3, 6);
        lemma_field_value_bound(word, 3, 3);
        lemma_field_value_bound(word, 3, 0);
        lemma_field_value_bound(word, 3, 25);
        lemma_allocate_maps(m, m.registers[c] as nat);
        if m.unmap_allowed(m.registers[c]) {
            lemma_deallocate_frees(m, m.registers[c]);
        }
        if m.in_bounds(m.registers[a], m.registers[b]) {
            let stored = m.store(m.registers[a], m.registers[b], m.registers[c]);
            assert forall|i: int| 0 <= i < stored.free.len() implies {
                &&& 0 < #[trigger] stored.free[i] < stored.segments.len()
                &&& stored.segments[stored.free[i] as int].len() == 0
            } by {
                assert(m.free[i] != m.registers[a]);
            }
        }
    }
}

/// A program load from segment 0 changes nothing but the program counter,
/// which takes register `c`.
pub proof fn lemma_load_program_self_copy(m: Machine, b: int, c: int)
    requires
        m.wf(),
        0 <= b < 8,
        0 <= c < 8,
        m.registers[b] == 0,
    ensures
        m.loadp(b, c) == Ok::<Machine, Fault>(Machine { counter: m.registers[c], ..m }),
{
    if m.free.contains(0u32) {
        let i = choose|i: int| 0 <= i < m.free.len() && m.free[i] == 0u32;
        assert(m.free[i] == 0);
    }
}

} // verus!
