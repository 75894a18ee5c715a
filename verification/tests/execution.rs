use rum::io::{input, InputEvent};
use rum::load::{execute, memory_load, step, Action, Fault, State, UM};

fn word(opcode: u32, a: u32, b: u32, c: u32) -> u32 {
    (opcode << 28) | (a << 6) | (b << 3) | c
}

fn load_value(register: u32, value: u32) -> u32 {
    (13 << 28) | (register << 25) | value
}

const HALT: u32 = 7 << 28;

#[test]
fn load_output_halt_prints_one_character() {
    let program = vec![load_value(0, 72), word(10, 0, 0, 0), HALT];
    let run = execute(program, &[], 100);
    assert_eq!(run.output, vec!['H']);
    assert_eq!(run.state, State::Halted);
    assert_eq!(run.state.exit_code(), Some(0));
    assert_eq!(run.consumed, 0);
    assert_eq!(run.um.registers[0], 72);
    assert_eq!(run.um.counter, 2);
}

#[test]
fn the_same_program_from_its_image() {
    let image = [0xd0, 0, 0, 72, 0xa0, 0, 0, 0, 0x70, 0, 0, 0];
    let run = execute(memory_load(&image), &[], 100);
    assert_eq!(run.output, vec!['H']);
    assert_eq!(run.state, State::Halted);
}

#[test]
fn input_at_the_end_of_the_stream_sets_all_ones() {
    let program = vec![word(11, 0, 0, 1), HALT];
    let run = execute(program, &[], 100);
    assert_eq!(run.state, State::Halted);
    assert_eq!(run.um.registers[1], 0xffff_ffff);
    assert_eq!(run.consumed, 0);
    assert!(run.output.is_empty());
}

#[test]
fn all_ones_from_the_input_cannot_be_put_out() {
    let program = vec![word(11, 0, 0, 1), word(10, 0, 0, 1), HALT];
    let run = execute(program, &[], 100);
    assert_eq!(run.state, State::Faulted(Fault::InvalidOutputValue));
    assert_eq!(run.um.registers[1], 0xffff_ffff);
    assert!(run.output.is_empty());
}

#[test]
fn an_unassigned_opcode_is_a_fault() {
    let run = execute(vec![15 << 28], &[], 100);
    assert_eq!(run.state, State::Faulted(Fault::InvalidOpcode));
    assert!(run.output.is_empty());
    let code = run.state.exit_code();
    assert!(matches!(code, Some(c) if c != 0));
    assert_eq!(Fault::InvalidOpcode.name(), "InvalidOpcode");
    assert_eq!(run.um, UM::new(vec![15 << 28]));
    let other = execute(vec![14 << 28], &[], 100);
    assert_eq!(other.state, State::Faulted(Fault::InvalidOpcode));
}

#[test]
fn input_bytes_are_read_in_order() {
    let program = vec![
        word(11, 0, 0, 1),
        word(10, 0, 0, 1),
        word(11, 0, 0, 2),
        word(10, 0, 0, 2),
        word(11, 0, 0, 3),
        HALT,
    ];
    let run = execute(program, b"hi", 100);
    assert_eq!(run.output, vec!['h', 'i']);
    assert_eq!(run.consumed, 2);
    assert_eq!(run.um.registers[3], 0xffff_ffff);
    assert_eq!(run.state, State::Halted);
}

#[test]
fn a_run_out_of_steps_is_still_running() {
    let program = vec![load_value(0, 72), word(10, 0, 0, 0), HALT];
    let run = execute(program.clone(), &[], 0);
    assert_eq!(run.state, State::Running);
    assert_eq!(run.um, UM::new(program.clone()));
    let run = execute(program.clone(), &[], 2);
    assert_eq!(run.state, State::Running);
    assert_eq!(run.state.exit_code(), None);
    assert_eq!(run.output, vec!['H']);
    assert_eq!(run.um.counter, 2);
    let run = execute(program, &[], 3);
    assert_eq!(run.state, State::Halted);
}

#[test]
fn a_loop_runs_until_the_limit() {
    // Segment 0 loads itself and jumps to its start, over and over.
    let program = vec![word(12, 0, 0, 0)];
    let run = execute(program, &[], 1000);
    assert_eq!(run.state, State::Running);
    assert_eq!(run.um.counter, 0);
}

#[test]
fn running_off_the_program_is_a_fault() {
    let run = execute(vec![], &[], 10);
    assert_eq!(run.state, State::Faulted(Fault::OutOfBoundsFetch));
    let run = execute(vec![load_value(1, 5)], &[], 10);
    assert_eq!(run.state, State::Faulted(Fault::OutOfBoundsFetch));
    assert_eq!(run.um.registers[1], 5);
    assert_eq!(run.um.counter, 1);
}

#[test]
fn a_jump_past_the_program_is_a_fault() {
    let program = vec![load_value(2, 9), word(12, 0, 0, 2), HALT];
    let run = execute(program, &[], 10);
    assert_eq!(run.state, State::Faulted(Fault::OutOfBoundsFetch));
    assert_eq!(run.um.counter, 9);
}

#[test]
fn a_division_by_zero_ends_the_run() {
    let program = vec![load_value(1, 8), word(5, 0, 1, 2), HALT];
    let run = execute(program, &[], 10);
    assert_eq!(run.state, State::Faulted(Fault::DivisionByZero));
    assert_eq!(run.um.counter, 1);
}

#[test]
fn arithmetic_through_the_loop() {
    let program = vec![
        load_value(1, 6),
        load_value(2, 7),
        word(4, 0, 1, 2),
        word(3, 3, 0, 1),
        word(5, 4, 3, 2),
        word(6, 5, 1, 2),
        word(0, 6, 1, 7),
        word(0, 7, 1, 2),
        HALT,
    ];
    let run = execute(program, &[], 100);
    assert_eq!(run.state, State::Halted);
    assert_eq!(run.um.registers, [42, 6, 7, 48, 6, !6u32, 0, 6]);
    assert_eq!(run.um.counter, 8);
}

#[test]
fn a_program_builds_and_loads_another() {
    // Map a segment of one word, store a halt there, load it as the program.
    let program = vec![
        load_value(1, 1),
        word(8, 0, 2, 1),
        load_value(3, 7),
        load_value(4, 0x100_0000),
        word(4, 3, 3, 4),
        load_value(4, 16),
        word(4, 3, 3, 4),
        word(2, 2, 0, 3),
        word(12, 0, 2, 0),
    ];
    let run = execute(program, &[], 100);
    assert_eq!(run.state, State::Halted);
    assert_eq!(run.um.memory, vec![vec![HALT], vec![HALT]]);
    assert_eq!(run.um.counter, 0);
}

#[test]
fn segments_through_the_loop() {
    let program = vec![
        load_value(1, 3),
        word(8, 0, 2, 1),
        word(8, 0, 3, 1),
        word(9, 0, 0, 2),
        word(9, 0, 0, 3),
        word(8, 0, 4, 0),
        word(9, 0, 0, 0),
    ];
    let run = execute(program, &[], 100);
    assert_eq!(run.state, State::Faulted(Fault::InvalidSegmentOp));
    assert_eq!(run.um.registers[2], 1);
    assert_eq!(run.um.registers[3], 2);
    assert_eq!(run.um.registers[4], 2);
    assert_eq!(run.um.unmapped, vec![1]);
    assert_eq!(run.um.counter, 6);
    assert!(run.um.is_well_formed());
}

#[test]
fn a_load_out_of_bounds_ends_the_run() {
    let program = vec![load_value(1, 2), word(1, 0, 0, 1)];
    let run = execute(program, &[], 100);
    assert_eq!(run.state, State::Faulted(Fault::OutOfBoundsAccess));
    let program = vec![load_value(1, 2), word(2, 1, 0, 0)];
    let run = execute(program, &[], 100);
    assert_eq!(run.state, State::Faulted(Fault::OutOfBoundsAccess));
}

#[test]
fn step_asks_for_input_and_waits() {
    let mut um = UM::new(vec![word(11, 0, 0, 5), HALT]);
    let before = um.clone();
    assert_eq!(step(&mut um), (State::Running, Action::Input(5)));
    assert_eq!(um, before);
    input(5, InputEvent::Byte(65), &mut um);
    assert_eq!(um.registers[5], 65);
    assert_eq!(um.counter, 1);
    assert_eq!(step(&mut um), (State::Halted, Action::Nothing));
    assert_eq!(um.counter, 1);
}

#[test]
fn step_hands_out_the_character() {
    let mut um = UM::new(vec![load_value(7, 0x263a), word(10, 0, 0, 7)]);
    assert_eq!(step(&mut um), (State::Running, Action::Nothing));
    assert_eq!(step(&mut um), (State::Running, Action::Output('\u{263a}')));
    assert_eq!(um.counter, 2);
    assert_eq!(step(&mut um), (State::Faulted(Fault::OutOfBoundsFetch), Action::Nothing));
    assert_eq!(um.counter, 2);
}

#[test]
fn step_reads_the_load_value_register_from_its_own_field() {
    let mut um = UM::new(vec![load_value(5, 0x1ff_ffff)]);
    assert_eq!(step(&mut um), (State::Running, Action::Nothing));
    assert_eq!(um.registers, [0, 0, 0, 0, 0, 0x1ff_ffff, 0, 0]);
}

#[test]
fn faults_have_names_and_exit_codes() {
    let faults = [
        (Fault::InvalidOpcode, "InvalidOpcode", 1),
        (Fault::OutOfBoundsFetch, "OutOfBoundsFetch", 2),
        (Fault::OutOfBoundsAccess, "OutOfBoundsAccess", 3),
        (Fault::InvalidSegmentOp, "InvalidSegmentOp", 4),
        (Fault::DivisionByZero, "DivisionByZero", 5),
        (Fault::InvalidOutputValue, "InvalidOutputValue", 6),
        (Fault::ProgramLoadError, "ProgramLoadError", 7),
    ];
    for (fault, name, code) in faults {
        assert_eq!(fault.name(), name);
        assert_eq!(fault.exit_code(), code);
        assert_eq!(State::Faulted(fault).exit_code(), Some(code));
    }
    assert_eq!(State::Halted.exit_code(), Some(0));
    assert_eq!(State::Running.exit_code(), None);
}
