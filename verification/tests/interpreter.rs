use chip8::cpu::CPU;
use chip8::keyboard::Keyboard;
use chip8::state::CpuError;

fn boot(program: Vec<u8>) -> CPU {
    let mut cpu = CPU::new();
    cpu.load(&program);
    cpu
}

fn run(cpu: &mut CPU, cycles: usize) {
    for _ in 0..cycles {
        cpu.cycle().unwrap();
    }
}

fn keys_with(pressed: &[usize]) -> Vec<bool> {
    let mut keys = vec![false; 16];
    for &k in pressed {
        keys[k] = true;
    }
    keys
}

#[test]
fn new_machine_has_font_and_reset_state() {
    let cpu = CPU::new();
    assert_eq!(cpu.program_counter(), 0x200);
    assert_eq!(cpu.index_register(), 0);
    assert_eq!(cpu.delay(), 0);
    assert_eq!(cpu.sound(), 0);
    assert!(!cpu.is_waiting_for_key());
    // the first and last font bytes, and a zero beyond the font
    assert_eq!(cpu.memory_at(0), 0xF0);
    assert_eq!(cpu.memory_at(79), 0x80);
    assert_eq!(cpu.memory_at(80), 0x00);
    for x in 0..16 {
        assert_eq!(cpu.register(x), 0);
    }
    for row in 0..32 {
        for col in 0..64 {
            assert_eq!(cpu.pixel(col, row), 0);
        }
    }
}

#[test]
fn load_copies_image_at_0x200_and_truncates() {
    let mut image = Vec::new();
    for i in 0..4000usize {
        image.push((i % 256) as u8);
    }
    let mut cpu = CPU::new();
    cpu.load(&image);
    assert_eq!(cpu.memory_at(0x200), 0);
    assert_eq!(cpu.memory_at(0x201), 1);
    // the last memory byte holds image byte 3583; the rest was dropped
    assert_eq!(cpu.memory_at(4095), (3583 % 256) as u8);
    // the font is untouched
    assert_eq!(cpu.memory_at(0), 0xF0);
}

#[test]
fn set_then_skip_equal_skips() {
    // 6A2B then 3A2B: the skip is always taken
    let mut cpu = boot(vec![0x6A, 0x2B, 0x3A, 0x2B]);
    run(&mut cpu, 2);
    assert_eq!(cpu.register(0xA), 0x2B);
    assert_eq!(cpu.program_counter(), 0x206);
}

#[test]
fn skip_if_equal_not_taken_when_unequal() {
    let mut cpu = boot(vec![0x6A, 0x2B, 0x3A, 0x2C]);
    run(&mut cpu, 2);
    assert_eq!(cpu.program_counter(), 0x204);
}

#[test]
fn skip_if_unequal_and_register_compares() {
    // 4XNN taken, 5XY0 taken, 9XY0 not taken
    let mut cpu = boot(vec![0x60, 0x01, 0x40, 0x02]);
    run(&mut cpu, 2);
    assert_eq!(cpu.program_counter(), 0x206);

    let mut cpu = boot(vec![0x60, 0x07, 0x61, 0x07, 0x50, 0x10]);
    run(&mut cpu, 3);
    assert_eq!(cpu.program_counter(), 0x208);

    let mut cpu = boot(vec![0x60, 0x07, 0x61, 0x07, 0x90, 0x10]);
    run(&mut cpu, 3);
    assert_eq!(cpu.program_counter(), 0x206);
}

#[test]
fn add_with_carry_wraps_and_sets_flag() {
    // 0xFF + 0x01 wraps to 0x00 with VF = 1
    let mut cpu = boot(vec![0x60, 0xFF, 0x61, 0x01, 0x80, 0x14]);
    run(&mut cpu, 3);
    assert_eq!(cpu.register(0), 0x00);
    assert_eq!(cpu.register(0xF), 1);
}

#[test]
fn add_without_carry_clears_flag() {
    // 0x01 + 0x01 = 0x02 with VF = 0
    let mut cpu = boot(vec![0x60, 0x01, 0x61, 0x01, 0x80, 0x14]);
    run(&mut cpu, 3);
    assert_eq!(cpu.register(0), 0x02);
    assert_eq!(cpu.register(0xF), 0);
}

#[test]
fn sub_with_borrow_wraps_and_clears_flag() {
    // 0x05 - 0x0A wraps to 0xFB with VF = 0
    let mut cpu = boot(vec![0x60, 0x05, 0x61, 0x0A, 0x80, 0x15]);
    run(&mut cpu, 3);
    assert_eq!(cpu.register(0), 0xFB);
    assert_eq!(cpu.register(0xF), 0);
}

#[test]
fn sub_without_borrow_sets_flag() {
    // 0x0A - 0x05 = 0x05 with VF = 1
    let mut cpu = boot(vec![0x60, 0x0A, 0x61, 0x05, 0x80, 0x15]);
    run(&mut cpu, 3);
    assert_eq!(cpu.register(0), 0x05);
    assert_eq!(cpu.register(0xF), 1);
}

#[test]
fn sub_reversed_uses_vy_minus_vx() {
    // 8XY7: V0 = V1 - V0 = 0x0F - 0x0A = 0x05 with VF = 1
    let mut cpu = boot(vec![0x60, 0x0A, 0x61, 0x0F, 0x80, 0x17]);
    run(&mut cpu, 3);
    assert_eq!(cpu.register(0), 0x05);
    assert_eq!(cpu.register(0xF), 1);
}

#[test]
fn logic_ops_combine_registers() {
    let mut cpu = boot(vec![0x60, 0x0C, 0x61, 0x0A, 0x80, 0x11]);
    run(&mut cpu, 3);
    assert_eq!(cpu.register(0), 0x0E);

    let mut cpu = boot(vec![0x60, 0x0C, 0x61, 0x0A, 0x80, 0x12]);
    run(&mut cpu, 3);
    assert_eq!(cpu.register(0), 0x08);

    let mut cpu = boot(vec![0x60, 0x0C, 0x61, 0x0A, 0x80, 0x13]);
    run(&mut cpu, 3);
    assert_eq!(cpu.register(0), 0x06);
}

#[test]
fn shift_right_reports_low_bit() {
    let mut cpu = boot(vec![0x60, 0x05, 0x80, 0x06]);
    run(&mut cpu, 2);
    assert_eq!(cpu.register(0), 0x02);
    assert_eq!(cpu.register(0xF), 1);
}

#[test]
fn shift_left_reports_high_bit() {
    let mut cpu = boot(vec![0x60, 0x81, 0x80, 0x0E]);
    run(&mut cpu, 2);
    assert_eq!(cpu.register(0), 0x02);
    assert_eq!(cpu.register(0xF), 1);
}

#[test]
fn jumps_set_the_program_counter() {
    let mut cpu = boot(vec![0x12, 0x34]);
    run(&mut cpu, 1);
    assert_eq!(cpu.program_counter(), 0x234);

    // BNNN adds V0
    let mut cpu = boot(vec![0x60, 0x04, 0xB2, 0x10]);
    run(&mut cpu, 2);
    assert_eq!(cpu.program_counter(), 0x214);
}

#[test]
fn sprite_draw_wraps_at_screen_edges() {
    // an 8x1 all-set sprite drawn at (60, 0) lights columns 60..63 and 0..3
    let mut cpu = boot(vec![
        0x60, 0x3C, 0x61, 0x00, 0xA2, 0x0A, 0xD0, 0x11, 0x12, 0x08, 0xFF,
    ]);
    run(&mut cpu, 4);
    assert_eq!(cpu.register(0xF), 0);
    for col in 0..64 {
        let expected = if col >= 60 || col < 4 { 1 } else { 0 };
        assert_eq!(cpu.pixel(col, 0), expected);
    }
    for row in 1..32 {
        for col in 0..64 {
            assert_eq!(cpu.pixel(col, row), 0);
        }
    }
}

#[test]
fn sprite_drawn_twice_toggles_back_and_collides() {
    let mut cpu = boot(vec![
        0x60, 0x00, 0x61, 0x00, 0xA2, 0x0A, 0xD0, 0x11, 0xD0, 0x11, 0xFF,
    ]);
    run(&mut cpu, 4);
    for col in 0..8 {
        assert_eq!(cpu.pixel(col, 0), 1);
    }
    assert_eq!(cpu.register(0xF), 0);
    run(&mut cpu, 1);
    for row in 0..32 {
        for col in 0..64 {
            assert_eq!(cpu.pixel(col, row), 0);
        }
    }
    assert_eq!(cpu.register(0xF), 1);
}

#[test]
fn clear_screen_blanks_every_pixel() {
    let mut cpu = boot(vec![
        0x60, 0x00, 0x61, 0x00, 0xA2, 0x0A, 0xD0, 0x11, 0x00, 0xE0, 0xFF,
    ]);
    run(&mut cpu, 5);
    for row in 0..32 {
        for col in 0..64 {
            assert_eq!(cpu.pixel(col, row), 0);
        }
    }
}

#[test]
fn bcd_writes_three_digits() {
    // V0 = 156 -> memory[I..I+3] = [1, 5, 6]
    let mut cpu = boot(vec![0x60, 0x9C, 0xA3, 0x00, 0xF0, 0x33]);
    run(&mut cpu, 3);
    assert_eq!(cpu.memory_at(0x300), 1);
    assert_eq!(cpu.memory_at(0x301), 5);
    assert_eq!(cpu.memory_at(0x302), 6);
}

#[test]
fn store_then_load_round_trips_registers() {
    let mut cpu = boot(vec![
        0x60, 0x11, 0x61, 0x22, 0x62, 0x33, // V0..V2
        0xA3, 0x00, 0xF2, 0x55, // store V0..V2 at 0x300
        0x60, 0x00, 0x61, 0x00, 0x62, 0x00, // clobber them
        0xA3, 0x00, 0xF2, 0x65, // load them back
    ]);
    run(&mut cpu, 5);
    assert_eq!(cpu.index_register(), 0x303);
    assert_eq!(cpu.memory_at(0x300), 0x11);
    assert_eq!(cpu.memory_at(0x301), 0x22);
    assert_eq!(cpu.memory_at(0x302), 0x33);
    run(&mut cpu, 5);
    assert_eq!(cpu.register(0), 0x11);
    assert_eq!(cpu.register(1), 0x22);
    assert_eq!(cpu.register(2), 0x33);
    assert_eq!(cpu.index_register(), 0x303);
}

#[test]
fn key_wait_blocks_until_a_fresh_press() {
    let mut cpu = boot(vec![0xF5, 0x0A]);
    cpu.set_key_state(&keys_with(&[]));
    cpu.cycle().unwrap();
    assert_eq!(cpu.program_counter(), 0x200);
    assert!(cpu.is_waiting_for_key());
    cpu.set_key_state(&keys_with(&[7]));
    cpu.cycle().unwrap();
    assert_eq!(cpu.register(5), 7);
    assert_eq!(cpu.program_counter(), 0x202);
    assert!(!cpu.is_waiting_for_key());
}

#[test]
fn key_wait_ignores_keys_held_at_entry() {
    let mut cpu = boot(vec![0xF5, 0x0A]);
    // key 3 is already down when the wait starts: it must not count
    cpu.set_key_state(&keys_with(&[3]));
    cpu.cycle().unwrap();
    cpu.cycle().unwrap();
    assert_eq!(cpu.program_counter(), 0x200);
    assert!(cpu.is_waiting_for_key());
    // release it, then press it again: now it is a fresh edge
    cpu.set_key_state(&keys_with(&[]));
    cpu.cycle().unwrap();
    assert_eq!(cpu.program_counter(), 0x200);
    cpu.set_key_state(&keys_with(&[3]));
    cpu.cycle().unwrap();
    assert_eq!(cpu.register(5), 3);
    assert_eq!(cpu.program_counter(), 0x202);
}

#[test]
fn key_skips_test_the_named_key() {
    // EX9E skips when the key in V0 is down
    let mut cpu = boot(vec![0x60, 0x02, 0xE0, 0x9E]);
    cpu.set_key_state(&keys_with(&[2]));
    run(&mut cpu, 2);
    assert_eq!(cpu.program_counter(), 0x206);

    // EXA1 skips when it is up
    let mut cpu = boot(vec![0x60, 0x02, 0xE0, 0xA1]);
    cpu.set_key_state(&keys_with(&[2]));
    run(&mut cpu, 2);
    assert_eq!(cpu.program_counter(), 0x204);
}

#[test]
fn timers_count_down_and_floor_at_zero() {
    let mut cpu = boot(vec![0x60, 0x05, 0xF0, 0x15, 0xF0, 0x18]);
    run(&mut cpu, 3);
    assert_eq!(cpu.delay(), 5);
    assert_eq!(cpu.sound(), 5);
    cpu.update_timers();
    assert_eq!(cpu.delay(), 4);
    assert_eq!(cpu.sound(), 4);
    for _ in 0..10 {
        cpu.update_timers();
    }
    assert_eq!(cpu.delay(), 0);
    assert_eq!(cpu.sound(), 0);
}

#[test]
fn delay_timer_reads_back() {
    let mut cpu = boot(vec![0x60, 0x07, 0xF0, 0x15, 0xF1, 0x07]);
    run(&mut cpu, 3);
    assert_eq!(cpu.register(1), 7);
}

#[test]
fn call_then_return_resumes_after_call_site() {
    let mut cpu = boot(vec![0x22, 0x06, 0x00, 0x00, 0x00, 0x00, 0x00, 0xEE]);
    cpu.cycle().unwrap();
    assert_eq!(cpu.program_counter(), 0x206);
    cpu.cycle().unwrap();
    assert_eq!(cpu.program_counter(), 0x202);
}

#[test]
fn font_lookup_scales_by_five() {
    let mut cpu = boot(vec![0x60, 0x0A, 0xF0, 0x29]);
    run(&mut cpu, 2);
    assert_eq!(cpu.index_register(), 50);
}

#[test]
fn index_add_accumulates() {
    let mut cpu = boot(vec![0x60, 0x05, 0xA1, 0x00, 0xF0, 0x1E]);
    run(&mut cpu, 3);
    assert_eq!(cpu.index_register(), 0x105);
}

#[test]
fn random_byte_is_masked() {
    // a zero mask pins the result; a small mask bounds it
    let mut cpu = boot(vec![0xC0, 0x00, 0xC1, 0x0F]);
    run(&mut cpu, 2);
    assert_eq!(cpu.register(0), 0);
    assert!(cpu.register(1) <= 0x0F);
}

#[test]
fn unknown_opcodes_report_and_leave_state() {
    for program in [
        vec![0x00u8, 0x00],
        vec![0x80, 0x08],
        vec![0xE0, 0x00],
        vec![0xF0, 0xFF],
    ] {
        let mut cpu = boot(program);
        assert_eq!(cpu.cycle(), Err(CpuError::UnknownOpcode));
        assert_eq!(cpu.program_counter(), 0x200);
    }
}

#[test]
fn return_with_empty_stack_reports_underflow() {
    let mut cpu = boot(vec![0x00, 0xEE]);
    assert_eq!(cpu.cycle(), Err(CpuError::StackUnderflow));
    assert_eq!(cpu.program_counter(), 0x200);
}

#[test]
fn seventeenth_nested_call_reports_overflow() {
    // 2200 at 0x200 calls its own address, so every cycle pushes a frame
    let mut cpu = boot(vec![0x22, 0x00]);
    for _ in 0..16 {
        cpu.cycle().unwrap();
        assert_eq!(cpu.program_counter(), 0x200);
    }
    assert_eq!(cpu.cycle(), Err(CpuError::StackOverflow));
}

#[test]
fn memory_access_past_end_reports() {
    // BCD with I at the top of memory
    let mut cpu = boot(vec![0xAF, 0xFF, 0xF0, 0x33]);
    cpu.cycle().unwrap();
    assert_eq!(cpu.cycle(), Err(CpuError::AddressOutOfBounds));

    // sprite read past the end of memory
    let mut cpu = boot(vec![0xAF, 0xFF, 0xD0, 0x02]);
    cpu.cycle().unwrap();
    assert_eq!(cpu.cycle(), Err(CpuError::AddressOutOfBounds));

    // register store past the end of memory
    let mut cpu = boot(vec![0xAF, 0xFF, 0xF5, 0x55]);
    cpu.cycle().unwrap();
    assert_eq!(cpu.cycle(), Err(CpuError::AddressOutOfBounds));
}

#[test]
fn key_test_with_bad_index_reports() {
    let mut cpu = boot(vec![0x60, 0xFF, 0xE0, 0x9E]);
    cpu.cycle().unwrap();
    assert_eq!(cpu.cycle(), Err(CpuError::KeyOutOfRange));
}

#[test]
fn fetch_past_end_of_memory_reports() {
    let mut cpu = boot(vec![0x1F, 0xFF]);
    cpu.cycle().unwrap();
    assert_eq!(cpu.program_counter(), 0xFFF);
    assert_eq!(cpu.cycle(), Err(CpuError::FetchOutOfBounds));
    assert_eq!(cpu.program_counter(), 0xFFF);
}

#[test]
fn wrapping_add_immediate_has_no_flag_effect() {
    let mut cpu = boot(vec![0x60, 0xFF, 0x70, 0x02]);
    run(&mut cpu, 2);
    assert_eq!(cpu.register(0), 0x01);
    assert_eq!(cpu.register(0xF), 0);
}

#[test]
fn keyboard_tracks_key_status() {
    let mut kb = Keyboard::new();
    assert_eq!(kb.keys().len(), 16);
    for k in 0..16 {
        assert!(!kb.keys()[k]);
    }
    kb.set_key_status(4, true);
    assert!(kb.keys()[4]);
    kb.set_key_status(4, false);
    assert!(!kb.keys()[4]);
}

#[test]
fn key_state_hands_keyboard_to_interpreter() {
    let mut kb = Keyboard::new();
    kb.set_key_status(2, true);
    let mut cpu = boot(vec![0x60, 0x02, 0xE0, 0x9E]);
    cpu.set_key_state(kb.keys());
    run(&mut cpu, 2);
    assert_eq!(cpu.program_counter(), 0x206);
}
