use chip8::chip8::Chip8;

type Snapshot = (Vec<u8>, Vec<u8>, Vec<u8>, u16, usize, u8, u8, usize, Vec<bool>);

fn state_of(machine: &Chip8) -> Snapshot {
    (
        machine.memory().to_vec(),
        machine.pixel_buffer().to_vec(),
        machine.registers().to_vec(),
        machine.index_register(),
        machine.program_counter(),
        machine.delay_timer(),
        machine.sound_timer(),
        machine.stack_depth(),
        machine.keys().to_vec(),
    )
}

fn boot(program: &[u8]) -> Chip8 {
    let mut machine = Chip8::new();
    assert_eq!(machine.load(program), Ok(()));
    machine
}

fn run(machine: &mut Chip8, instructions: usize) {
    for _ in 0..instructions {
        assert_eq!(machine.step(), Ok(()));
    }
}

fn booted_and_run(program: &[u8], instructions: usize) -> Chip8 {
    let mut machine = boot(program);
    run(&mut machine, instructions);
    machine
}

#[test]
fn plain_instructions_advance_the_program_counter_by_two() {
    let words: [u16; 30] = [
        0x00E0, 0x0000, 0x0123, 0x00EF, 0x6A12, 0x7A01, 0x8AB0, 0x8AB1, 0x8AB2, 0x8AB3, 0x8AB4,
        0x8AB5, 0x8AB6, 0x8AB7, 0x8ABE, 0x8AB8, 0xA123, 0xC0FF, 0xD005, 0xD000, 0xF007, 0xF015,
        0xF018, 0xF01E, 0xF029, 0xF033, 0xF055, 0xFF55, 0xF065, 0xF0FF,
    ];
    for word in words {
        let mut machine = boot(&[(word >> 8) as u8, (word & 0xFF) as u8]);
        assert_eq!(machine.step(), Ok(()), "{:#06x}", word);
        assert_eq!(machine.program_counter(), 0x202, "{:#06x}", word);
    }
}

#[test]
fn unknown_instructions_change_nothing_but_the_program_counter() {
    for word in [0x0000u16, 0x0ABC, 0x8AB8, 0x8ABF, 0xE000, 0xE19F, 0xF000, 0xF134, 0xFFFF] {
        let mut machine = boot(&[(word >> 8) as u8, (word & 0xFF) as u8]);
        let mut expected = state_of(&machine);
        assert_eq!(machine.step(), Ok(()), "{:#06x}", word);
        expected.4 = 0x202;
        assert_eq!(state_of(&machine), expected, "{:#06x}", word);
    }
}

#[test]
fn jump_sets_the_program_counter() {
    let machine = booted_and_run(&[0x1A, 0xBC], 1);
    assert_eq!(machine.program_counter(), 0xABC);
    assert_eq!(machine.stack_depth(), 0);
}

#[test]
fn jump_with_offset_adds_register_zero() {
    let machine = booted_and_run(&[0x60, 0xFF, 0xBF, 0xFF], 2);
    assert_eq!(machine.program_counter(), 0xFFF + 0xFF);
    let machine = booted_and_run(&[0x60, 0x04, 0xB3, 0x00], 2);
    assert_eq!(machine.program_counter(), 0x304);
}

#[test]
fn call_pushes_and_return_comes_back_behind_the_call() {
    // 0x200: call 0x206; 0x202: V1 = 0x11; 0x206: V0 = 0x22; 0x208: return
    let mut machine = boot(&[0x22, 0x06, 0x61, 0x11, 0x00, 0x00, 0x60, 0x22, 0x00, 0xEE]);
    run(&mut machine, 1);
    assert_eq!(machine.program_counter(), 0x206);
    assert_eq!(machine.stack_depth(), 1);
    run(&mut machine, 1);
    assert_eq!(machine.registers()[0], 0x22);
    run(&mut machine, 1);
    assert_eq!(machine.program_counter(), 0x202);
    assert_eq!(machine.stack_depth(), 0);
    run(&mut machine, 1);
    assert_eq!(machine.registers()[1], 0x11);
    assert_eq!(machine.program_counter(), 0x204);
}

#[test]
fn nested_calls_return_in_reverse_order() {
    // 0x200: call 0x204; 0x202: jump 0x202; 0x204: call 0x208; 0x206: return; 0x208: return
    let mut machine =
        boot(&[0x22, 0x04, 0x12, 0x02, 0x22, 0x08, 0x00, 0xEE, 0x00, 0xEE]);
    run(&mut machine, 2);
    assert_eq!(machine.stack_depth(), 2);
    assert_eq!(machine.program_counter(), 0x208);
    run(&mut machine, 1);
    assert_eq!(machine.stack_depth(), 1);
    assert_eq!(machine.program_counter(), 0x206);
    run(&mut machine, 1);
    assert_eq!(machine.stack_depth(), 0);
    assert_eq!(machine.program_counter(), 0x202);
}

#[test]
fn skip_if_equal_to_constant() {
    let machine = booted_and_run(&[0x63, 0x42, 0x33, 0x42], 2);
    assert_eq!(machine.program_counter(), 0x206);
    let machine = booted_and_run(&[0x63, 0x42, 0x33, 0x43], 2);
    assert_eq!(machine.program_counter(), 0x204);
}

#[test]
fn assign_then_test_for_the_same_constant_always_skips() {
    for x in 0..16u8 {
        for nn in [0x00u8, 0x01, 0x7F, 0x80, 0xFF] {
            let machine = booted_and_run(&[0x60 | x, nn, 0x30 | x, nn], 2);
            assert_eq!(machine.program_counter(), 0x200 + 2 + 4);
        }
    }
}

#[test]
fn skip_if_not_equal_to_constant() {
    let machine = booted_and_run(&[0x63, 0x42, 0x43, 0x42], 2);
    assert_eq!(machine.program_counter(), 0x204);
    let machine = booted_and_run(&[0x63, 0x42, 0x43, 0x43], 2);
    assert_eq!(machine.program_counter(), 0x206);
}

#[test]
fn skip_if_registers_equal() {
    let machine = booted_and_run(&[0x61, 0x07, 0x62, 0x07, 0x51, 0x20], 3);
    assert_eq!(machine.program_counter(), 0x208);
    let machine = booted_and_run(&[0x61, 0x07, 0x62, 0x08, 0x51, 0x20], 3);
    assert_eq!(machine.program_counter(), 0x206);
    let machine = booted_and_run(&[0x61, 0x07, 0x62, 0x07, 0x51, 0x2F], 3);
    assert_eq!(machine.program_counter(), 0x208);
}

#[test]
fn skip_if_registers_differ() {
    let machine = booted_and_run(&[0x61, 0x07, 0x62, 0x07, 0x91, 0x20], 3);
    assert_eq!(machine.program_counter(), 0x206);
    let machine = booted_and_run(&[0x61, 0x07, 0x62, 0x08, 0x91, 0x20], 3);
    assert_eq!(machine.program_counter(), 0x208);
}

#[test]
fn assign_constant_writes_one_register() {
    let machine = booted_and_run(&[0x6C, 0x9D], 1);
    let mut expected = [0u8; 16];
    expected[0xC] = 0x9D;
    assert_eq!(machine.registers(), &expected);
}

#[test]
fn add_constant_wraps_and_leaves_the_flag_alone() {
    let machine = booted_and_run(&[0x6F, 0x55, 0x63, 0xFF, 0x73, 0x01], 3);
    assert_eq!(machine.registers()[3], 0x00);
    assert_eq!(machine.registers()[0xF], 0x55);
    let machine = booted_and_run(&[0x63, 0x10, 0x73, 0x22], 2);
    assert_eq!(machine.registers()[3], 0x32);
    let machine = booted_and_run(&[0x63, 0xF0, 0x73, 0x20], 2);
    assert_eq!(machine.registers()[3], 0x10);
}

#[test]
fn register_assign_or_and_xor() {
    let machine = booted_and_run(&[0x61, 0xCA, 0x62, 0x35, 0x82, 0x10], 3);
    assert_eq!(machine.registers()[2], 0xCA);
    let machine = booted_and_run(&[0x61, 0xCA, 0x62, 0x35, 0x81, 0x21], 3);
    assert_eq!(machine.registers()[1], 0xFF);
    let machine = booted_and_run(&[0x61, 0xCA, 0x62, 0x3C, 0x81, 0x22], 3);
    assert_eq!(machine.registers()[1], 0x08);
    let machine = booted_and_run(&[0x61, 0xCA, 0x62, 0x3C, 0x81, 0x23], 3);
    assert_eq!(machine.registers()[1], 0xF6);
    assert_eq!(machine.registers()[0xF], 0);
}

#[test]
fn add_registers_sets_the_carry() {
    let machine = booted_and_run(&[0x61, 0xFF, 0x62, 0x01, 0x81, 0x24], 3);
    assert_eq!(machine.registers()[1], 0x00);
    assert_eq!(machine.registers()[2], 0x01);
    assert_eq!(machine.registers()[0xF], 1);
    let machine = booted_and_run(&[0x6F, 0x01, 0x61, 0x12, 0x62, 0x34, 0x81, 0x24], 4);
    assert_eq!(machine.registers()[1], 0x46);
    assert_eq!(machine.registers()[0xF], 0);
    let machine = booted_and_run(&[0x61, 0xFF, 0x62, 0xFF, 0x81, 0x24], 3);
    assert_eq!(machine.registers()[1], 0xFE);
    assert_eq!(machine.registers()[0xF], 1);
}

#[test]
fn add_into_the_flag_register_keeps_the_sum() {
    let machine = booted_and_run(&[0x6F, 0xF0, 0x62, 0x20, 0x8F, 0x24], 3);
    assert_eq!(machine.registers()[0xF], 0x10);
}

#[test]
fn subtract_registers_sets_the_flag_where_the_first_is_larger() {
    let machine = booted_and_run(&[0x61, 0x01, 0x62, 0x02, 0x81, 0x25], 3);
    assert_eq!(machine.registers()[1], 0xFF);
    assert_eq!(machine.registers()[0xF], 0);
    let machine = booted_and_run(&[0x61, 0x09, 0x62, 0x02, 0x81, 0x25], 3);
    assert_eq!(machine.registers()[1], 0x07);
    assert_eq!(machine.registers()[0xF], 1);
    let machine = booted_and_run(&[0x6F, 0x01, 0x61, 0x05, 0x62, 0x05, 0x81, 0x25], 4);
    assert_eq!(machine.registers()[1], 0x00);
    assert_eq!(machine.registers()[0xF], 0);
}

#[test]
fn subtract_reads_the_flag_register_after_writing_it() {
    // V1 = 9, VF = 7: the flag becomes 1 (9 > 7) and is then what is subtracted
    let machine = booted_and_run(&[0x61, 0x09, 0x6F, 0x07, 0x81, 0xF5], 3);
    assert_eq!(machine.registers()[0xF], 1);
    assert_eq!(machine.registers()[1], 0x08);
}

#[test]
fn reverse_subtract_sets_the_flag_where_the_second_is_larger() {
    let machine = booted_and_run(&[0x61, 0x02, 0x62, 0x09, 0x81, 0x27], 3);
    assert_eq!(machine.registers()[1], 0x07);
    assert_eq!(machine.registers()[0xF], 1);
    let machine = booted_and_run(&[0x61, 0x09, 0x62, 0x02, 0x81, 0x27], 3);
    assert_eq!(machine.registers()[1], 0xF9);
    assert_eq!(machine.registers()[0xF], 0);
}

#[test]
fn shift_right_moves_the_low_bit_to_the_flag() {
    let machine = booted_and_run(&[0x61, 0x05, 0x81, 0x06], 2);
    assert_eq!(machine.registers()[1], 0x02);
    assert_eq!(machine.registers()[0xF], 1);
    let machine = booted_and_run(&[0x6F, 0x01, 0x61, 0xFE, 0x81, 0x06], 3);
    assert_eq!(machine.registers()[1], 0x7F);
    assert_eq!(machine.registers()[0xF], 0);
}

#[test]
fn shift_left_moves_the_high_bit_to_the_flag() {
    let machine = booted_and_run(&[0x61, 0x81, 0x81, 0x0E], 2);
    assert_eq!(machine.registers()[1], 0x02);
    assert_eq!(machine.registers()[0xF], 1);
    let machine = booted_and_run(&[0x6F, 0x01, 0x61, 0x41, 0x81, 0x0E], 3);
    assert_eq!(machine.registers()[1], 0x82);
    assert_eq!(machine.registers()[0xF], 0);
}

#[test]
fn set_index_register() {
    let machine = booted_and_run(&[0xAF, 0xED], 1);
    assert_eq!(machine.index_register(), 0xFED);
}

#[test]
fn random_byte_is_masked_by_the_constant() {
    let mut machine = boot(&[0xC4, 0x0F]);
    assert_eq!(machine.fault(), None);
    machine.cycle_with(0xAB);
    assert_eq!(machine.registers()[4], 0x0B);
    assert_eq!(machine.program_counter(), 0x202);
    let mut machine = boot(&[0xC4, 0xF0]);
    assert_eq!(machine.fault(), None);
    machine.cycle_with(0xAB);
    assert_eq!(machine.registers()[4], 0xA0);
}

#[test]
fn random_instruction_draws_within_the_mask() {
    for _ in 0..200 {
        let machine = booted_and_run(&[0xC4, 0x3C, 0xC5, 0x00], 2);
        assert_eq!(machine.registers()[4] & !0x3C, 0);
        assert_eq!(machine.registers()[5], 0);
        assert_eq!(machine.program_counter(), 0x204);
    }
}

#[test]
fn random_byte_is_ignored_by_other_instructions() {
    let mut one = boot(&[0x61, 0x07]);
    let mut other = boot(&[0x61, 0x07]);
    assert_eq!(one.fault(), None);
    assert_eq!(other.fault(), None);
    one.cycle_with(0x00);
    other.cycle_with(0xFF);
    assert_eq!(state_of(&one), state_of(&other));
}

#[test]
fn cycle_executes_one_instruction() {
    let mut machine = boot(&[0x61, 0x07, 0x71, 0x03]);
    assert_eq!(machine.fault(), None);
    machine.cycle();
    assert_eq!(machine.registers()[1], 0x07);
    assert_eq!(machine.fault(), None);
    machine.cycle();
    assert_eq!(machine.registers()[1], 0x0A);
    assert_eq!(machine.program_counter(), 0x204);
}

#[test]
fn skip_if_key_pressed() {
    let mut machine = boot(&[0x61, 0x0B, 0xE1, 0x9E]);
    run(&mut machine, 2);
    assert_eq!(machine.program_counter(), 0x204);
    let mut machine = boot(&[0x61, 0x0B, 0xE1, 0x9E]);
    let mut keys = [false; 16];
    keys[0xB] = true;
    machine.set_keys(keys);
    run(&mut machine, 2);
    assert_eq!(machine.program_counter(), 0x206);
}

#[test]
fn skip_if_key_not_pressed() {
    let mut machine = boot(&[0x61, 0x0B, 0xE1, 0xA1]);
    run(&mut machine, 2);
    assert_eq!(machine.program_counter(), 0x206);
    let mut machine = boot(&[0x61, 0x0B, 0xE1, 0xA1]);
    let mut keys = [false; 16];
    keys[0xB] = true;
    machine.set_keys(keys);
    run(&mut machine, 2);
    assert_eq!(machine.program_counter(), 0x204);
}

#[test]
fn timers_are_read_and_written_by_instructions() {
    let mut machine = boot(&[0x61, 0x2A, 0xF1, 0x15, 0xF1, 0x18, 0xF2, 0x07]);
    run(&mut machine, 4);
    assert_eq!(machine.delay_timer(), 0x2A);
    assert_eq!(machine.sound_timer(), 0x2A);
    assert_eq!(machine.registers()[2], 0x2A);
    let mut machine = boot(&[0xF2, 0x07]);
    machine.set_delay_timer(0x99);
    run(&mut machine, 1);
    assert_eq!(machine.registers()[2], 0x99);
}

#[test]
fn add_to_index_register() {
    let machine = booted_and_run(&[0xA1, 0x00, 0x61, 0x23, 0xF1, 0x1E], 3);
    assert_eq!(machine.index_register(), 0x123);
    assert_eq!(machine.registers()[0xF], 0);
}

#[test]
fn add_to_index_register_wraps_at_16_bits() {
    // 0x200: I = 0xFFF; 0x202: V0 = 0xFF; 0x204: I += V0; 0x206: jump 0x204
    let mut machine = boot(&[0xAF, 0xFF, 0x60, 0xFF, 0xF0, 0x1E, 0x12, 0x04]);
    run(&mut machine, 2);
    for _ in 0..240 {
        run(&mut machine, 2);
    }
    assert_eq!(machine.index_register(), 0xFFF + 240 * 0xFF);
    run(&mut machine, 1);
    assert_eq!(machine.index_register(), 14);
}

#[test]
fn font_address_is_five_times_the_digit() {
    let machine = booted_and_run(&[0x61, 0x0A, 0xF1, 0x29], 2);
    assert_eq!(machine.index_register(), 50);
    let machine = booted_and_run(&[0x61, 0x0F, 0xF1, 0x29], 2);
    assert_eq!(machine.index_register(), 75);
    let machine = booted_and_run(&[0xA1, 0x23, 0x61, 0x00, 0xF1, 0x29], 3);
    assert_eq!(machine.index_register(), 0);
}

#[test]
fn font_address_ignores_values_above_15() {
    let machine = booted_and_run(&[0xA1, 0x23, 0x61, 0x10, 0xF1, 0x29], 3);
    assert_eq!(machine.index_register(), 0x123);
    assert_eq!(machine.program_counter(), 0x206);
}

#[test]
fn decimal_digits_of_234() {
    let machine = booted_and_run(&[0x61, 0xEA, 0xA3, 0x00, 0xF1, 0x33], 3);
    assert_eq!(&machine.memory()[0x300..0x303], &[2, 3, 4]);
    assert_eq!(machine.memory()[0x2FF], 0);
    assert_eq!(machine.memory()[0x303], 0);
    assert_eq!(machine.registers()[1], 234);
    assert_eq!(machine.index_register(), 0x300);
}

#[test]
fn decimal_digits_of_small_and_large_values() {
    let machine = booted_and_run(&[0x61, 0x00, 0xA3, 0x00, 0xF1, 0x33], 3);
    assert_eq!(&machine.memory()[0x300..0x303], &[0, 0, 0]);
    let machine = booted_and_run(&[0x61, 0x07, 0xA3, 0x00, 0xF1, 0x33], 3);
    assert_eq!(&machine.memory()[0x300..0x303], &[0, 0, 7]);
    let machine = booted_and_run(&[0x61, 0xFF, 0xA3, 0x00, 0xF1, 0x33], 3);
    assert_eq!(&machine.memory()[0x300..0x303], &[2, 5, 5]);
    let machine = booted_and_run(&[0x61, 0x64, 0xA3, 0x00, 0xF1, 0x33], 3);
    assert_eq!(&machine.memory()[0x300..0x303], &[1, 0, 0]);
}

#[test]
fn store_registers_up_to_x() {
    let machine = booted_and_run(
        &[0x60, 0x11, 0x61, 0x22, 0x62, 0x33, 0x63, 0x44, 0xA3, 0x00, 0xF2, 0x55],
        6,
    );
    assert_eq!(&machine.memory()[0x300..0x304], &[0x11, 0x22, 0x33, 0x00]);
    assert_eq!(machine.memory()[0x2FF], 0);
    assert_eq!(machine.index_register(), 0x300);
    assert_eq!(&machine.registers()[0..4], &[0x11, 0x22, 0x33, 0x44]);
}

#[test]
fn store_register_zero_alone() {
    let machine = booted_and_run(&[0x60, 0x11, 0x61, 0x22, 0xA3, 0x00, 0xF0, 0x55], 4);
    assert_eq!(&machine.memory()[0x300..0x302], &[0x11, 0x00]);
}

#[test]
fn load_registers_up_to_x() {
    // the font's first bytes are 0xF0 0x90 0x90 0x90 0xF0
    let machine = booted_and_run(&[0x63, 0x77, 0xA0, 0x00, 0xF2, 0x65], 3);
    assert_eq!(&machine.registers()[0..4], &[0xF0, 0x90, 0x90, 0x77]);
    assert_eq!(machine.index_register(), 0);
}

#[test]
fn store_then_load_gives_the_registers_back() {
    let mut program = Vec::new();
    for r in 0..16u8 {
        program.extend_from_slice(&[0x60 | r, 0xA0 + r]);
    }
    program.extend_from_slice(&[0xA4, 0x00, 0xFF, 0x55]);
    for r in 0..16u8 {
        program.extend_from_slice(&[0x60 | r, 0x00]);
    }
    program.extend_from_slice(&[0xFF, 0x65]);
    let machine = booted_and_run(&program, 16 + 2 + 16 + 1);
    let expected: Vec<u8> = (0..16u8).map(|r| 0xA0 + r).collect();
    assert_eq!(machine.registers().to_vec(), expected);
    assert_eq!(machine.memory()[0x400..0x410].to_vec(), expected);
}

#[test]
fn key_wait_stalls_until_a_key_is_pressed() {
    let mut machine = boot(&[0xF3, 0x0A, 0x61, 0x01]);
    let waiting = state_of(&machine);
    for _ in 0..10 {
        run(&mut machine, 1);
        assert_eq!(state_of(&machine), waiting);
    }
    let mut keys = [false; 16];
    keys[5] = true;
    machine.set_keys(keys);
    run(&mut machine, 1);
    assert_eq!(machine.registers()[3], 5);
    assert_eq!(machine.program_counter(), 0x202);
    run(&mut machine, 1);
    assert_eq!(machine.registers()[1], 1);
}

#[test]
fn key_wait_takes_the_lowest_pressed_key() {
    let mut machine = boot(&[0xF3, 0x0A]);
    let mut keys = [false; 16];
    keys[0xC] = true;
    keys[0x2] = true;
    keys[0x9] = true;
    machine.set_keys(keys);
    run(&mut machine, 1);
    assert_eq!(machine.registers()[3], 2);
    assert_eq!(machine.program_counter(), 0x202);
}

#[test]
fn key_wait_sees_key_zero_and_key_fifteen() {
    let mut machine = boot(&[0x63, 0x09, 0xF3, 0x0A]);
    let mut keys = [false; 16];
    keys[0] = true;
    machine.set_keys(keys);
    run(&mut machine, 2);
    assert_eq!(machine.registers()[3], 0);
    assert_eq!(machine.program_counter(), 0x204);
    let mut machine = boot(&[0xF3, 0x0A]);
    let mut keys = [false; 16];
    keys[15] = true;
    machine.set_keys(keys);
    run(&mut machine, 1);
    assert_eq!(machine.registers()[3], 15);
}

#[test]
fn jump_to_self_loops_without_changing_anything() {
    let mut machine = boot(&[0x12, 0x00]);
    let loaded = state_of(&machine);
    for _ in 0..1000 {
        run(&mut machine, 1);
        assert_eq!(machine.program_counter(), 0x200);
    }
    assert_eq!(state_of(&machine), loaded);
}
