use rum::bitshift::{get, mask, op, ra, rb, rc, rl, vl, Field};
use rum::load::{memory_load, Opcode};

fn three_register(opcode: u32, a: u32, b: u32, c: u32) -> u32 {
    (opcode << 28) | (a << 6) | (b << 3) | c
}

#[test]
fn mask_sets_the_low_bits() {
    assert_eq!(mask(0), 0);
    assert_eq!(mask(1), 1);
    assert_eq!(mask(3), 7);
    assert_eq!(mask(4), 15);
    assert_eq!(mask(25), 0x1ff_ffff);
    assert_eq!(mask(31), 0x7fff_ffff);
}

#[test]
fn mask_of_a_full_word_or_more_is_all_ones() {
    assert_eq!(mask(32), u32::MAX);
    assert_eq!(mask(33), u32::MAX);
    assert_eq!(mask(u32::MAX), u32::MAX);
}

#[test]
fn get_reads_each_field_of_a_word() {
    let word: u32 = 0b0011_0000_0000_0000_0000_0001_0110_1011;
    assert_eq!(get(&ra(), word), 0b101);
    assert_eq!(get(&rb(), word), 0b101);
    assert_eq!(get(&rc(), word), 0b011);
    assert_eq!(get(&Field::new(4, 28), word), 3);
}

#[test]
fn get_reads_the_load_value_fields() {
    let word: u32 = (13 << 28) | (5 << 25) | 0x123_4567;
    assert_eq!(get(&rl(), word), 5);
    assert_eq!(get(&vl(), word), 0x123_4567);
    assert_eq!(get(&vl(), u32::MAX), 0x1ff_ffff);
}

#[test]
fn get_is_shift_and_mask() {
    let word: u32 = 0xdead_beef;
    assert_eq!(get(&Field::new(8, 8), word), (word >> 8) & 0xff);
    assert_eq!(get(&Field::new(16, 16), word), 0xdead);
    assert_eq!(get(&Field::new(1, 31), word), 1);
    assert_eq!(get(&Field::new(0, 5), word), 0);
    assert_eq!(get(&Field::new(32, 0), word), word);
}

#[test]
fn get_counts_bits_past_the_word_as_zero() {
    let word: u32 = 0xdead_beef;
    assert_eq!(get(&Field::new(8, 28), word), 0xd);
    assert_eq!(get(&Field::new(40, 4), word), 0x0dea_dbee);
    assert_eq!(get(&Field::new(3, 32), word), 0);
    assert_eq!(get(&Field::new(3, 200), word), 0);
}

#[test]
fn three_register_fields_round_trip() {
    for opcode in 0..16u32 {
        for a in 0..8u32 {
            for b in 0..8u32 {
                for c in 0..8u32 {
                    let word = three_register(opcode, a, b, c);
                    assert_eq!(get(&Field::new(4, 28), word), opcode);
                    assert_eq!(get(&ra(), word), a);
                    assert_eq!(get(&rb(), word), b);
                    assert_eq!(get(&rc(), word), c);
                }
            }
        }
    }
}

#[test]
fn op_names_the_fourteen_operations() {
    let expected = [
        Opcode::CMov,
        Opcode::Load,
        Opcode::Store,
        Opcode::Add,
        Opcode::Mul,
        Opcode::Div,
        Opcode::Nand,
        Opcode::Halt,
        Opcode::Alloc,
        Opcode::Free,
        Opcode::Output,
        Opcode::Input,
        Opcode::LoadP,
        Opcode::LoadV,
    ];
    for (tag, opcode) in expected.iter().enumerate() {
        assert_eq!(op((tag as u32) << 28), Some(*opcode));
        assert_eq!(op(((tag as u32) << 28) | 0x0fff_ffff), Some(*opcode));
    }
}

#[test]
fn op_has_no_operation_for_fourteen_and_fifteen() {
    assert_eq!(op(14 << 28), None);
    assert_eq!(op(15 << 28), None);
    assert_eq!(op(u32::MAX), None);
}

#[test]
fn memory_load_reads_big_endian_words() {
    let bytes = [0x12, 0x34, 0x56, 0x78, 0xff, 0x00, 0x00, 0x01];
    assert_eq!(memory_load(&bytes), vec![0x1234_5678, 0xff00_0001]);
    assert_eq!(memory_load(&[0xff, 0xff, 0xff, 0xff]), vec![u32::MAX]);
}

#[test]
fn memory_load_drops_a_partial_word() {
    assert_eq!(memory_load(&[]), Vec::<u32>::new());
    assert_eq!(memory_load(&[1, 2, 3]), Vec::<u32>::new());
    assert_eq!(memory_load(&[0, 0, 0, 7, 9]), vec![7]);
    assert_eq!(memory_load(&[0, 0, 0, 7, 9, 9, 9]), vec![7]);
}
