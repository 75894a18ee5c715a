//! The machine's state, its operations' names, and the execution step.

use vstd::prelude::*;
use vstd::arithmetic::power2::lemma2_to64;
use crate::bitshift::{get, lemma_field_value_bound, op, ra, rb, rc, rl, vl};
use crate::io::{input as input_event, output, InputEvent};
use crate::machine::{Machine, Trace};
use crate::memory::{loadp, loadv, segmented_load, segmented_store, unmap};
use crate::operations::{
    addition, bitwise_nand, conditional_move, division, halt, multiplication,
};

verus! {

/// The fourteen operations, in the order of their numbers, 0 to 13.
#[derive(Clone, Copy, Debug, PartialEq, Eq, Structural)]
pub enum Opcode {
    CMov,
    Load,
    Store,
    Add,
    Mul,
    Div,
    Nand,
    Halt,
    Alloc,
    Free,
    Output,
    Input,
    LoadP,
    LoadV,
}

/// The operation that the number `tag` stands for, if it stands for one.
pub open spec fn opcode_of(tag: nat) -> Option<Opcode> {
    if tag == 0 {
        Some(Opcode::CMov)
    } else if tag == 1 {
        Some(Opcode::Load)
    } else if tag == 2 {
        Some(Opcode::Store)
    } else if tag == 3 {
        Some(Opcode::Add)
    } else if tag == 4 {
        Some(Opcode::Mul)
    } else if tag == 5 {
        Some(Opcode::Div)
    } else if tag == 6 {
        Some(Opcode::Nand)
    } else if tag == 7 {
        Some(Opcode::Halt)
    } else if tag == 8 {
        Some(Opcode::Alloc)
    } else if tag == 9 {
        Some(Opcode::Free)
    } else if tag == 10 {
        Some(Opcode::Output)
    } else if tag == 11 {
        Some(Opcode::Input)
    } else if tag == 12 {
        Some(Opcode::LoadP)
    } else if tag == 13 {
        Some(Opcode::LoadV)
    } else {
        None
    }
}

/// Why a machine stopped without reaching a halt instruction.
#[derive(Clone, Copy, Debug, PartialEq, Eq, Structural)]
pub enum Fault {
    /// The four highest bits of an instruction word hold 14 or 15.
    InvalidOpcode,
    /// The program counter does not lie within segment 0.
    OutOfBoundsFetch,
    /// A load, a store or a program load names a segment that is not mapped,
    /// or an offset that does not lie within the segment.
    OutOfBoundsAccess,
    /// An unmap names segment 0 or a segment that is not mapped.
    InvalidSegmentOp,
    /// The divisor of a division is zero.
    DivisionByZero,
    /// A value to put out is no Unicode scalar value.
    InvalidOutputValue,
    /// The program could not be read.
    ProgramLoadError,
}

impl Fault {
    /// The fault's name, as a diagnostic gives it.
    pub open spec fn spec_name(self) -> Seq<char> {
        match self {
            Fault::InvalidOpcode => "InvalidOpcode"@,
            Fault::OutOfBoundsFetch => "OutOfBoundsFetch"@,
            Fault::OutOfBoundsAccess => "OutOfBoundsAccess"@,
            Fault::InvalidSegmentOp => "InvalidSegmentOp"@,
            Fault::DivisionByZero => "DivisionByZero"@,
            Fault::InvalidOutputValue => "InvalidOutputValue"@,
            Fault::ProgramLoadError => "ProgramLoadError"@,
        }
    }

    /// The exit status of a run that ended on this fault: 1 to 7, in the
    /// order of the variants.
    pub open spec fn spec_exit_code(self) -> int {
        match self {
            Fault::InvalidOpcode => 1,
            Fault::OutOfBoundsFetch => 2,
            Fault::OutOfBoundsAccess => 3,
            Fault::InvalidSegmentOp => 4,
            Fault::DivisionByZero => 5,
            Fault::InvalidOutputValue => 6,
            Fault::ProgramLoadError => 7,
        }
    }

    /// The fault's name, for a diagnostic.
    pub fn name(&self) -> (name: &'static str)
        ensures
            name@ == self.spec_name(),
    {
        match self {
            Fault::InvalidOpcode => "InvalidOpcode",
            Fault::OutOfBoundsFetch => "OutOfBoundsFetch",
            Fault::OutOfBoundsAccess => "OutOfBoundsAccess",
            Fault::InvalidSegmentOp => "InvalidSegmentOp",
            Fault::DivisionByZero => "DivisionByZero",
            Fault::InvalidOutputValue => "InvalidOutputValue",
            Fault::ProgramLoadError => "ProgramLoadError",
        }
    }

    /// The exit status of a run that ended on this fault. It is never 0,
    /// the status of a run that halted, and differs from fault to fault.
    pub fn exit_code(&self) -> (code: i32)
        ensures
            code == self.spec_exit_code(),
            code != 0,
    {
        match self {
            Fault::InvalidOpcode => 1,
            Fault::OutOfBoundsFetch => 2,
            Fault::OutOfBoundsAccess => 3,
            Fault::InvalidSegmentOp => 4,
            Fault::DivisionByZero => 5,
            Fault::InvalidOutputValue => 6,
            Fault::ProgramLoadError => 7,
        }
    }
}

/// Two faults with the same exit status are the same fault.
pub proof fn lemma_exit_code_is_injective(one: Fault, other: Fault)
    requires
        one.spec_exit_code() == other.spec_exit_code(),
    ensures
        one == other,
{
}

/// Where a machine stands after a step.
#[derive(Clone, Copy, Debug, PartialEq, Eq, Structural)]
pub enum State {
    /// It can make another step.
    Running,
    /// It reached a halt instruction.
    Halted,
    /// It stopped on a fault.
    Faulted(Fault),
}

impl State {
    /// The exit status that goes with a state: 0 after a halt, the fault's
    /// own after a fault, none while the machine is running.
    pub fn exit_code(&self) -> (code: Option<i32>)
        ensures
            code == match *self {
                State::Running => None::<i32>,
                State::Halted => Some(0i32),
                State::Faulted(fault) => Some(fault.spec_exit_code() as i32),
            },
    {
        match self {
            State::Running => None,
            State::Halted => Some(0),
            State::Faulted(fault) => Some(fault.exit_code()),
        }
    }
}

/// What a step leaves for the caller to do.
#[derive(Clone, Copy, Debug, PartialEq, Eq, Structural)]
pub enum Action {
    /// Nothing.
    Nothing,
    /// Write this character to the output.
    Output(char),
    /// Read one byte from the input and hand what came of it, with this
    /// register number, to `input`.
    Input(usize),
}

/// A machine: the memory segments by handle, the handles that are free, the
/// eight registers and the program counter.
#[derive(Debug, PartialEq, Clone)]
pub struct UM {
    pub memory: Vec<Vec<u32>>,
    pub unmapped: Vec<u32>,
    pub registers: [u32; 8],
    pub counter: u32,
}

impl View for UM {
    type V = Machine;

    open spec fn view(&self) -> Machine {
        Machine {
            segments: Seq::new(self.memory@.len(), |i: int| self.memory@[i]@),
            free: self.unmapped@,
            registers: self.registers@,
            counter: self.counter,
        }
    }
}

impl UM {
    /// A machine at its start: `program` as segment 0, no other segment,
    /// every register zero, the program counter at 0.
    pub fn new(program: Vec<u32>) -> (um: UM)
        ensures
            um@.wf(),
            um@ == Machine::initial(program@),
    {
        let mut memory: Vec<Vec<u32>> = Vec::new();
        memory.push(program);
        let um = UM { memory, unmapped: Vec::new(), registers: [0u32; 8], counter: 0 };
        proof {
            assert(um@.segments =~= seq![program@]);
            assert(um@.registers =~= Seq::new(8, |i: int| 0u32));
        }
        um
    }

    /// Whether the machine is well-formed, as every operation asks and
    /// leaves it. A machine that `new` made and that only the operations
    /// of this library changed is well-formed; this is the test for one
    /// whose fields were written by hand.
    pub fn is_well_formed(&self) -> (ok: bool)
        ensures
            ok == self@.wf(),
    {
        let segments: usize = self.memory.len();
        if segments == 0 || segments as u64 > 0x1_0000_0000u64 {
            return false;
        }
        let mut i: usize = 0;
        while i < self.unmapped.len()
            invariant
                segments == self.memory@.len(),
                i <= self.unmapped@.len(),
                self@.free == self.unmapped@,
                self@.segments.len() == segments,
                forall|k: int|
                    0 <= k < i ==> {
                        &&& 0 < #[trigger] self.unmapped@[k] < segments
                        &&& self.memory@[self.unmapped@[k] as int]@.len() == 0
                    },
                forall|k: int, l: int| 0 <= l < k < i ==> self.unmapped@[k] != self.unmapped@[l],
            decreases self.unmapped.len() - i,
        {
            let handle: u32 = self.unmapped[i];
            if handle == 0 || handle as usize >= segments {
                assert(!(0 < self@.free[i as int] < self@.segments.len()));
                return false;
            }
            if self.memory[handle as usize].len() != 0 {
                assert(self@.segments[self@.free[i as int] as int].len() != 0);
                return false;
            }
            let mut j: usize = 0;
            while j < i
                invariant
                    j <= i < self.unmapped@.len(),
                    handle == self.unmapped@[i as int],
                    forall|l: int| 0 <= l < j ==> self.unmapped@[l] != handle,
                decreases i - j,
            {
                if self.unmapped[j] == handle {
                    assert(self@.free[j as int] == self@.free[i as int]);
                    return false;
                }
                j += 1;
            }
            i += 1;
        }
        proof {
            assert forall|k: int, l: int|
                0 <= k < self@.free.len() && 0 <= l < self@.free.len() && k != l implies self@.free[k]
                != self@.free[l] by {
                if l < k {
                    assert(self.unmapped@[k] != self.unmapped@[l]);
                } else {
                    assert(self.unmapped@[l] != self.unmapped@[k]);
                }
            }
        }
        true
    }

    /// Whether an allocation can be given a handle of 32 bits: a handle is
    /// free, or the number of segments, which is the next new handle, fits
    /// in 32 bits.
    pub fn has_spare_handle(&self) -> (spare: bool)
        ensures
            spare == self@.has_spare_handle(),
    {
        self.unmapped.len() > 0 || self.memory.len() <= 0xffff_ffff
    }
}

/// The word that four bytes spell, the first of them the highest.
pub open spec fn big_endian_word(b0: u8, b1: u8, b2: u8, b3: u8) -> u32 {
    (b0 * 0x100_0000 + b1 * 0x1_0000 + b2 * 0x100 + b3) as u32
}

/// The words of a program image: one for each four bytes, in order. Up to
/// three bytes that are left over at the end are not part of any word.
pub open spec fn words_of(bytes: Seq<u8>) -> Seq<u32> {
    Seq::new(
        bytes.len() / 4,
        |i: int| big_endian_word(bytes[4 * i], bytes[4 * i + 1], bytes[4 * i + 2], bytes[4 * i + 3]),
    )
}

/// Frames a program image into the instruction words that it holds.
pub fn memory_load(bytes: &[u8]) -> (instructions: Vec<u32>)
    ensures
        instructions@ == words_of(bytes@),
{
    let mut instructions: Vec<u32> = Vec::new();
    let count: usize = bytes.len() / 4;
    let mut i: usize = 0;
    while i < count
        invariant
            count == bytes@.len() / 4,
            4 * count <= bytes@.len() <= usize::MAX,
            i <= count,
            instructions@ == words_of(bytes@).take(i as int),
        decreases count - i,
    {
        let b0: u32 = bytes[4 * i] as u32;
        let b1: u32 = bytes[4 * i + 1] as u32;
        let b2: u32 = bytes[4 * i + 2] as u32;
        let b3: u32 = bytes[4 * i + 3] as u32;
        instructions.push(b0 * 0x100_0000 + b1 * 0x1_0000 + b2 * 0x100 + b3);
        i += 1;
        proof {
            assert(instructions@ =~= words_of(bytes@).take(i as int));
        }
    }
    proof {
        assert(instructions@ =~= words_of(bytes@));
    }
    instructions
}

/// Makes one step of the machine: fetches the word at the program counter
/// from segment 0, decodes it and carries its operation out. Gives the state
/// the machine is in after the step and what the caller has to do: write a
/// character, or read a byte and hand it to `input`, which completes the
/// step. A machine that halted or faulted is left as it was before the
/// step, and so is one that waits for input.
pub fn step(um: &mut UM) -> (r: (State, Action))
    requires
        old(um)@.wf(),
        old(um)@.has_spare_handle(),
    ensures
        final(um)@.wf(),
        (final(um)@, r.0, r.1) == old(um)@.step(),
        r.0 != State::Running || r.1 is Input ==> *final(um) == *old(um),
        r.1 matches Action::Input(c) ==> c < 8,
{
    let pc: usize = um.counter as usize;
    if pc >= um.memory[0].len() {
        return (State::Faulted(Fault::OutOfBoundsFetch), Action::Nothing);
    }
    let instruction: u32 = um.memory[0][pc];
    let a: usize = get(&ra(), instruction) as usize;
    let b: usize = get(&rb(), instruction) as usize;
    let c: usize = get(&rc(), instruction) as usize;
    proof {
        lemma2_to64();
        lemma_field_value_bound(instruction, 3, 6);
        lemma_field_value_bound(instruction, 3, 3);
        lemma_field_value_bound(instruction, 3, 0);
        lemma_field_value_bound(instruction, 3, 25);
    }
    match op(instruction) {
        Some(Opcode::CMov) => {
            conditional_move(a, b, c, um);
            (State::Running, Action::Nothing)
        },
        Some(Opcode::Load) => settled(segmented_load(a, b, c, um)),
        Some(Opcode::Store) => settled(segmented_store(a, b, c, um)),
        Some(Opcode::Add) => {
            addition(a, b, c, um);
            (State::Running, Action::Nothing)
        },
        Some(Opcode::Mul) => {
            multiplication(a, b, c, um);
            (State::Running, Action::Nothing)
        },
        Some(Opcode::Div) => settled(division(a, b, c, um)),
        Some(Opcode::Nand) => {
            bitwise_nand(a, b, c, um);
            (State::Running, Action::Nothing)
        },
        Some(Opcode::Halt) => (halt(), Action::Nothing),
        Some(Opcode::Alloc) => {
            crate::memory::map(b, c, um);
            (State::Running, Action::Nothing)
        },
        Some(Opcode::Free) => settled(unmap(c, um)),
        Some(Opcode::Output) => match output(c, um) {
            Ok(ch) => (State::Running, Action::Output(ch)),
            Err(fault) => (State::Faulted(fault), Action::Nothing),
        },
        Some(Opcode::Input) => (State::Running, Action::Input(c)),
        Some(Opcode::LoadP) => settled(loadp(b, c, um)),
        Some(Opcode::LoadV) => {
            let destination: usize = get(&rl(), instruction) as usize;
            let val: u32 = get(&vl(), instruction);
            loadv(destination, val, um);
            (State::Running, Action::Nothing)
        },
        None => (State::Faulted(Fault::InvalidOpcode), Action::Nothing),
    }
}

/// The state after an operation that may fault: running where it was
/// carried out, faulted where it was not.
fn settled(done: Result<(), Fault>) -> (r: (State, Action))
    ensures
        r.1 == Action::Nothing,
        r.0 == match done {
            Ok(_) => State::Running,
            Err(fault) => State::Faulted(fault),
        },
{
    match done {
        Ok(()) => (State::Running, Action::Nothing),
        Err(fault) => (State::Faulted(fault), Action::Nothing),
    }
}

/// What `execute` found: the machine at the end of the run, the state it is
/// in, the characters it put out, and how many bytes of the input it read.
#[derive(Debug, PartialEq, Clone)]
pub struct Run {
    pub um: UM,
    pub state: State,
    pub output: Vec<char>,
    pub consumed: usize,
}

impl View for Run {
    type V = Trace;

    open spec fn view(&self) -> Trace {
        Trace {
            machine: self.um@,
            state: self.state,
            output: self.output@,
            consumed: self.consumed as nat,
        }
    }
}

/// Runs the program `instructions` from the start for at most `limit`
/// steps, with `input` as all that the input stream holds. A run that
/// neither halted nor faulted within its steps is still `Running`.
pub fn execute(instructions: Vec<u32>, input: &[u8], limit: usize) -> (run: Run)
    ensures
        run.um@.wf(),
        run@ == Machine::initial(instructions@).run(input@, 0, Seq::empty(), limit as nat),
{
    let mut um = UM::new(instructions);
    let mut output: Vec<char> = Vec::new();
    let mut consumed: usize = 0;
    let mut steps: usize = 0;
    while steps < limit && um.has_spare_handle()
        invariant
            um@.wf(),
            consumed <= input@.len(),
            steps <= limit,
            Machine::initial(instructions@).run(input@, 0, Seq::empty(), limit as nat) == um@.run(
                input@,
                consumed as nat,
                output@,
                (limit - steps) as nat,
            ),
        decreases limit - steps,
    {
        let (state, action) = step(&mut um);
        match state {
            State::Running => match action {
                Action::Nothing => {},
                Action::Output(ch) => {
                    output.push(ch);
                },
                Action::Input(c) => {
                    if consumed < input.len() {
                        input_event(c, InputEvent::Byte(input[consumed]), &mut um);
                        consumed += 1;
                    } else {
                        input_event(c, InputEvent::EndOfStream, &mut um);
                    }
                },
            },
            _ => {
                return Run { um, state, output, consumed };
            },
        }
        steps += 1;
    }
    Run { um, state: State::Running, output, consumed }
}

} // verus!
