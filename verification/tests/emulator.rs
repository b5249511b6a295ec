use chip8_core::{Emulator, SCREEN_HEIGHT, SCREEN_WIDTH};

const FONT: [u8; 80] = [
    0xF0, 0x90, 0x90, 0x90, 0xF0, 0x20, 0x60, 0x20, 0x20, 0x70, 0xF0, 0x10, 0xF0, 0x80, 0xF0,
    0xF0, 0x10, 0xF0, 0x10, 0xF0, 0x90, 0x90, 0xF0, 0x10, 0x10, 0xF0, 0x80, 0xF0, 0x10, 0xF0,
    0xF0, 0x80, 0xF0, 0x90, 0xF0, 0xF0, 0x10, 0x20, 0x40, 0x40, 0xF0, 0x90, 0xF0, 0x90, 0xF0,
    0xF0, 0x90, 0xF0, 0x10, 0xF0, 0xF0, 0x90, 0xF0, 0x90, 0x90, 0xE0, 0x90, 0xE0, 0x90, 0xE0,
    0xF0, 0x80, 0x80, 0x80, 0xF0, 0xE0, 0x90, 0x90, 0x90, 0xE0, 0xF0, 0x80, 0xF0, 0x80, 0xF0,
    0xF0, 0x80, 0xF0, 0x80, 0x80,
];

/// A machine with `program` loaded, after `steps` cycles (random byte 0).
fn run(program: &[u8], steps: usize) -> Emulator {
    let mut emu = Emulator::new();
    emu.load(program);
    for _ in 0..steps {
        emu.tick_with(0);
    }
    emu
}

fn lit_pixels(emu: &Emulator) -> Vec<usize> {
    emu.get_display()
        .iter()
        .enumerate()
        .filter(|(_, lit)| **lit)
        .map(|(i, _)| i)
        .collect()
}

#[test]
fn new_machine_power_on_state() {
    let emu = Emulator::new();
    assert_eq!(emu.program_counter(), 0x200);
    assert_eq!(emu.index_register(), 0);
    assert_eq!(emu.stack_depth(), 0);
    assert_eq!(emu.delay_timer(), 0);
    assert_eq!(emu.sound_timer(), 0);
    for a in 0..80 {
        assert_eq!(emu.memory(a), FONT[a]);
    }
    for a in 80..4096 {
        assert_eq!(emu.memory(a), 0);
    }
    for r in 0..16 {
        assert_eq!(emu.register(r), 0);
    }
    assert_eq!(emu.get_display().len(), SCREEN_WIDTH * SCREEN_HEIGHT);
    assert!(emu.get_display().iter().all(|p| !*p));
}

#[test]
fn screen_dimensions() {
    assert_eq!(SCREEN_WIDTH, 64);
    assert_eq!(SCREEN_HEIGHT, 32);
}

#[test]
fn reset_restores_power_on_state() {
    // V0 = 7, I = 0x300, draw, call 0x208, set both timers
    let mut emu = run(&[0x60, 0x07, 0xA3, 0x00, 0xD0, 0x05, 0x22, 0x08, 0xF0, 0x15, 0xF0, 0x18], 6);
    emu.keypress(3, true);
    assert_eq!(emu.register(0), 7);
    assert_eq!(emu.stack_depth(), 1);
    emu.reset();
    let fresh = Emulator::new();
    assert_eq!(emu.program_counter(), fresh.program_counter());
    assert_eq!(emu.index_register(), 0);
    assert_eq!(emu.stack_depth(), 0);
    assert_eq!(emu.delay_timer(), 0);
    assert_eq!(emu.sound_timer(), 0);
    for a in 0..4096 {
        assert_eq!(emu.memory(a), fresh.memory(a));
    }
    for r in 0..16 {
        assert_eq!(emu.register(r), 0);
    }
    assert!(emu.get_display().iter().all(|p| !*p));
    // key 3 is up again: EX9E with V0 = 3 does not skip
    emu.load(&[0x60, 0x03, 0xE0, 0x9E]);
    emu.tick_with(0);
    emu.tick_with(0);
    assert_eq!(emu.program_counter(), 0x204);
}

#[test]
fn load_copies_program_at_start_address() {
    let mut emu = Emulator::new();
    emu.load(&[1, 2, 3]);
    assert_eq!(emu.memory(0x1FF), 0);
    assert_eq!(emu.memory(0x200), 1);
    assert_eq!(emu.memory(0x201), 2);
    assert_eq!(emu.memory(0x202), 3);
    assert_eq!(emu.memory(0x203), 0);
    assert_eq!(emu.memory(0), 0xF0);
}

#[test]
fn load_fills_memory_to_the_end() {
    let mut emu = Emulator::new();
    let data = vec![0xAB; 4096 - 0x200];
    emu.load(&data);
    assert_eq!(emu.memory(0x200), 0xAB);
    assert_eq!(emu.memory(4095), 0xAB);
    assert_eq!(emu.memory(0x1FF), 0);
}

#[test]
fn load_then_tick_runs_first_instruction() {
    let emu = run(&[0x6A, 0x42], 1);
    assert_eq!(emu.register(0xA), 0x42);
    assert_eq!(emu.program_counter(), 0x202);
}

#[test]
fn nop_only_advances() {
    let emu = run(&[0x00, 0x00], 1);
    assert_eq!(emu.program_counter(), 0x202);
}

#[test]
fn cls_clears_screen() {
    // I = 0 (font "0"), draw at (0,0), clear
    let mut emu = run(&[0xD0, 0x05, 0x00, 0xE0], 1);
    assert!(!lit_pixels(&emu).is_empty());
    emu.tick_with(0);
    assert!(lit_pixels(&emu).is_empty());
}

#[test]
fn jump_sets_pc() {
    let emu = run(&[0x1A, 0xBC], 1);
    assert_eq!(emu.program_counter(), 0xABC);
}

#[test]
fn call_then_return() {
    // 0x200: CALL 0x206; 0x202: V1 = 1; ... 0x206: RET
    let mut emu = run(&[0x22, 0x06, 0x61, 0x01, 0x00, 0x00, 0x00, 0xEE], 1);
    assert_eq!(emu.program_counter(), 0x206);
    assert_eq!(emu.stack_depth(), 1);
    emu.tick_with(0);
    assert_eq!(emu.program_counter(), 0x202);
    assert_eq!(emu.stack_depth(), 0);
    emu.tick_with(0);
    assert_eq!(emu.register(1), 1);
}

#[test]
fn nested_calls_to_full_depth() {
    // 0x200: CALL 0x200, sixteen times
    let emu = run(&[0x22, 0x00], 16);
    assert_eq!(emu.stack_depth(), 16);
    assert_eq!(emu.program_counter(), 0x200);
}

#[test]
fn skip_if_equal_immediate() {
    let emu = run(&[0x60, 0x05, 0x30, 0x05], 2);
    assert_eq!(emu.program_counter(), 0x206);
    let emu = run(&[0x60, 0x05, 0x30, 0x06], 2);
    assert_eq!(emu.program_counter(), 0x204);
}

#[test]
fn skip_if_not_equal_immediate() {
    let emu = run(&[0x60, 0x05, 0x40, 0x05], 2);
    assert_eq!(emu.program_counter(), 0x204);
    let emu = run(&[0x60, 0x05, 0x40, 0x06], 2);
    assert_eq!(emu.program_counter(), 0x206);
}

#[test]
fn skip_if_registers_equal_or_not() {
    let emu = run(&[0x60, 0x05, 0x61, 0x05, 0x50, 0x10], 3);
    assert_eq!(emu.program_counter(), 0x208);
    let emu = run(&[0x60, 0x05, 0x61, 0x05, 0x90, 0x10], 3);
    assert_eq!(emu.program_counter(), 0x206);
    let emu = run(&[0x60, 0x05, 0x61, 0x04, 0x90, 0x10], 3);
    assert_eq!(emu.program_counter(), 0x208);
}

#[test]
fn add_immediate_wraps_without_flag() {
    let emu = run(&[0x63, 0xF0, 0x73, 0x20], 2);
    assert_eq!(emu.register(3), 0x10);
    assert_eq!(emu.register(0xF), 0);
}

#[test]
fn register_logic() {
    let emu = run(&[0x60, 0b1100, 0x61, 0b1010, 0x80, 0x11], 3);
    assert_eq!(emu.register(0), 0b1110);
    let emu = run(&[0x60, 0b1100, 0x61, 0b1010, 0x80, 0x12], 3);
    assert_eq!(emu.register(0), 0b1000);
    let emu = run(&[0x60, 0b1100, 0x61, 0b1010, 0x80, 0x13], 3);
    assert_eq!(emu.register(0), 0b0110);
    let emu = run(&[0x60, 0b1100, 0x61, 0b1010, 0x80, 0x10], 3);
    assert_eq!(emu.register(0), 0b1010);
}

#[test]
fn add_registers_sets_carry() {
    let emu = run(&[0x60, 200, 0x61, 100, 0x80, 0x14], 3);
    assert_eq!(emu.register(0), 44);
    assert_eq!(emu.register(0xF), 1);
    let emu = run(&[0x60, 20, 0x61, 100, 0x80, 0x14], 3);
    assert_eq!(emu.register(0), 120);
    assert_eq!(emu.register(0xF), 0);
}

#[test]
fn add_into_vf_keeps_the_flag() {
    // VF = 200, V1 = 100, VF += V1: the flag overwrites the sum
    let emu = run(&[0x6F, 200, 0x61, 100, 0x8F, 0x14], 3);
    assert_eq!(emu.register(0xF), 1);
}

#[test]
fn subtract_registers_sets_not_borrow() {
    let emu = run(&[0x60, 10, 0x61, 3, 0x80, 0x15], 3);
    assert_eq!(emu.register(0), 7);
    assert_eq!(emu.register(0xF), 1);
    let emu = run(&[0x60, 3, 0x61, 10, 0x80, 0x15], 3);
    assert_eq!(emu.register(0), 249);
    assert_eq!(emu.register(0xF), 0);
    let emu = run(&[0x60, 5, 0x61, 5, 0x80, 0x15], 3);
    assert_eq!(emu.register(0), 0);
    assert_eq!(emu.register(0xF), 1);
}

#[test]
fn reverse_subtract_sets_borrow() {
    let emu = run(&[0x60, 3, 0x61, 10, 0x80, 0x17], 3);
    assert_eq!(emu.register(0), 7);
    assert_eq!(emu.register(0xF), 0);
    let emu = run(&[0x60, 10, 0x61, 3, 0x80, 0x17], 3);
    assert_eq!(emu.register(0), 249);
    assert_eq!(emu.register(0xF), 1);
}

#[test]
fn shifts_keep_dropped_bit() {
    let emu = run(&[0x60, 0b1000_0011, 0x80, 0x06], 2);
    assert_eq!(emu.register(0), 0b0100_0001);
    assert_eq!(emu.register(0xF), 1);
    let emu = run(&[0x60, 0b1000_0010, 0x80, 0x06], 2);
    assert_eq!(emu.register(0), 0b0100_0001);
    assert_eq!(emu.register(0xF), 0);
    let emu = run(&[0x60, 0b1000_0011, 0x80, 0x0E], 2);
    assert_eq!(emu.register(0), 0b0000_0110);
    assert_eq!(emu.register(0xF), 1);
    let emu = run(&[0x60, 0b0100_0011, 0x80, 0x0E], 2);
    assert_eq!(emu.register(0), 0b1000_0110);
    assert_eq!(emu.register(0xF), 0);
}

#[test]
fn set_index_and_jump_with_offset() {
    let emu = run(&[0xA1, 0x23], 1);
    assert_eq!(emu.index_register(), 0x123);
    let emu = run(&[0x60, 0x10, 0xB3, 0x00], 2);
    assert_eq!(emu.program_counter(), 0x310);
    let emu = run(&[0x60, 0xFF, 0xBF, 0xFF], 2);
    assert_eq!(emu.program_counter(), 0x10FE);
}

#[test]
fn random_is_masked() {
    let mut emu = Emulator::new();
    emu.load(&[0xC0, 0x0F, 0xC1, 0x00]);
    emu.tick_with(0xAB);
    assert_eq!(emu.register(0), 0x0B);
    emu.tick();
    assert_eq!(emu.register(1), 0);
    for _ in 0..50 {
        let mut emu = Emulator::new();
        emu.load(&[0xC2, 0x0F]);
        emu.tick();
        assert_eq!(emu.register(2) & !0x0F, 0);
    }
}

#[test]
fn draw_font_zero() {
    // I = 0: the glyph "0", drawn at (0, 0)
    let emu = run(&[0xD0, 0x05], 1);
    let expected_rows = [0xF0u8, 0x90, 0x90, 0x90, 0xF0];
    let display = emu.get_display();
    for y in 0..SCREEN_HEIGHT {
        for x in 0..SCREEN_WIDTH {
            let lit = y < 5 && x < 8 && (expected_rows[y] & (0x80 >> x)) != 0;
            assert_eq!(display[x + SCREEN_WIDTH * y], lit, "pixel ({}, {})", x, y);
        }
    }
    assert_eq!(emu.register(0xF), 0);
}

#[test]
fn draw_wraps_around_edges() {
    // V0 = 62, V1 = 30, I = 0 ("0"), draw 5 rows at (62, 30)
    let emu = run(&[0x60, 62, 0x61, 30, 0xD0, 0x15], 3);
    let display = emu.get_display();
    // row 0 of the glyph (0xF0) lands on y = 30 at x = 62, 63, 0, 1
    for x in [62usize, 63, 0, 1] {
        assert!(display[x + 64 * 30]);
    }
    assert!(!display[2 + 64 * 30]);
    // row 2 (0x90) lands on y = 0: x = 62 and x = 1
    assert!(display[62]);
    assert!(!display[63]);
    assert!(!display[0]);
    assert!(display[1]);
    assert_eq!(lit_pixels(&emu).len(), 4 + 2 + 2 + 2 + 4);
}

#[test]
fn draw_coordinates_wrap_modulo_screen() {
    // V0 = 64 + 3, V1 = 32 + 2: same as drawing at (3, 2)
    let a = run(&[0x60, 67, 0x61, 34, 0xD0, 0x15], 3);
    let b = run(&[0x60, 3, 0x61, 2, 0xD0, 0x15], 3);
    assert_eq!(a.get_display(), b.get_display());
    assert!(a.get_display()[3 + 64 * 2]);
}

#[test]
fn draw_twice_restores_screen_and_reports_collision() {
    let mut emu = run(&[0x60, 10, 0x61, 5, 0xA0, 0x0A, 0xD0, 0x15, 0xD0, 0x15], 4);
    assert!(!lit_pixels(&emu).is_empty());
    assert_eq!(emu.register(0xF), 0);
    emu.tick_with(0);
    assert!(lit_pixels(&emu).is_empty());
    assert_eq!(emu.register(0xF), 1);
}

#[test]
fn draw_zero_rows_changes_only_flag() {
    let emu = run(&[0x6F, 7, 0xD0, 0x00], 2);
    assert!(lit_pixels(&emu).is_empty());
    assert_eq!(emu.register(0xF), 0);
}

#[test]
fn skip_on_key_state() {
    let mut emu = Emulator::new();
    emu.load(&[0x60, 0x05, 0xE0, 0x9E]);
    emu.keypress(5, true);
    emu.tick_with(0);
    emu.tick_with(0);
    assert_eq!(emu.program_counter(), 0x206);

    let mut emu = Emulator::new();
    emu.load(&[0x60, 0x05, 0xE0, 0xA1]);
    emu.keypress(5, true);
    emu.tick_with(0);
    emu.tick_with(0);
    assert_eq!(emu.program_counter(), 0x204);

    let mut emu = Emulator::new();
    emu.load(&[0x60, 0x05, 0xE0, 0xA1]);
    emu.keypress(5, true);
    emu.keypress(5, false);
    emu.tick_with(0);
    emu.tick_with(0);
    assert_eq!(emu.program_counter(), 0x206);
}

#[test]
fn wait_key_spins_until_a_key_is_down() {
    let mut emu = run(&[0xF3, 0x0A], 0);
    for _ in 0..5 {
        emu.tick_with(0);
        assert_eq!(emu.program_counter(), 0x200);
        assert_eq!(emu.register(3), 0);
    }
    emu.keypress(0xC, true);
    emu.keypress(0x9, true);
    emu.tick_with(0);
    assert_eq!(emu.program_counter(), 0x202);
    assert_eq!(emu.register(3), 0x9);
}

#[test]
fn timers_set_read_and_count_down() {
    let mut emu = run(&[0x60, 2, 0xF0, 0x15, 0xF0, 0x18, 0xF1, 0x07], 4);
    assert_eq!(emu.delay_timer(), 2);
    assert_eq!(emu.sound_timer(), 2);
    assert_eq!(emu.register(1), 2);
    emu.tick_timers();
    assert_eq!(emu.delay_timer(), 1);
    assert_eq!(emu.sound_timer(), 1);
    emu.tick_timers();
    assert_eq!(emu.delay_timer(), 0);
    assert_eq!(emu.sound_timer(), 0);
    emu.tick_timers();
    assert_eq!(emu.delay_timer(), 0);
    assert_eq!(emu.sound_timer(), 0);
}

#[test]
fn add_to_index_wraps() {
    let emu = run(&[0xAF, 0xFF, 0x60, 0x02, 0xF0, 0x1E], 3);
    assert_eq!(emu.index_register(), 0x1001);
    let mut emu = Emulator::new();
    // I = 0xFFF, then add 255 three hundred times: I passes 0xFFFF and wraps
    let mut program = vec![0xAF, 0xFF, 0x60, 0xFF];
    for _ in 0..300 {
        program.extend_from_slice(&[0xF0, 0x1E]);
    }
    emu.load(&program);
    for _ in 0..302 {
        emu.tick_with(0);
    }
    assert_eq!(emu.index_register(), ((0xFFFu32 + 300 * 255) % 0x10000) as u16);
}

#[test]
fn font_address_of_digit() {
    let emu = run(&[0x60, 0xB, 0xF0, 0x29], 2);
    assert_eq!(emu.index_register(), 0xB * 5);
    assert_eq!(emu.memory(emu.index_register() as usize), 0xE0);
}

#[test]
fn bcd_of_every_byte() {
    for v in 0..=255u8 {
        let emu = run(&[0x60, v, 0xA3, 0x00, 0xF0, 0x33], 3);
        let vx = v as f32;
        let hundreds = (vx / 100.0).floor() as u8;
        let tens = ((vx / 10.0) % 10.0).floor() as u8;
        let ones = (vx % 10.0).floor() as u8;
        assert_eq!(emu.memory(0x300), hundreds);
        assert_eq!(emu.memory(0x301), tens);
        assert_eq!(emu.memory(0x302), ones);
        assert_eq!(100 * hundreds as u32 + 10 * tens as u32 + ones as u32, v as u32);
    }
    let emu = run(&[0x60, 137, 0xA3, 0x00, 0xF0, 0x33], 3);
    assert_eq!(
        (emu.memory(0x300), emu.memory(0x301), emu.memory(0x302)),
        (1, 3, 7)
    );
}

#[test]
fn store_registers_includes_vx() {
    let emu = run(&[0x60, 1, 0x61, 2, 0x62, 3, 0xA3, 0x00, 0xF1, 0x55], 5);
    assert_eq!(emu.memory(0x300), 1);
    assert_eq!(emu.memory(0x301), 2);
    assert_eq!(emu.memory(0x302), 0);
    assert_eq!(emu.index_register(), 0x300);
}

#[test]
fn load_registers_includes_vx() {
    let mut emu = Emulator::new();
    let mut prog = vec![0x62, 9, 0x63, 4, 0xA3, 0x00, 0xF2, 0x65];
    prog.resize(0x100, 0);
    prog.extend_from_slice(&[7, 8, 6, 5]);
    emu.load(&prog);
    for _ in 0..4 {
        emu.tick_with(0);
    }
    assert_eq!(emu.register(0), 7);
    assert_eq!(emu.register(1), 8);
    assert_eq!(emu.register(2), 6);
    assert_eq!(emu.register(3), 4);
    assert_eq!(emu.index_register(), 0x300);
}

#[test]
fn load_registers_from_font() {
    // From power-on, I = 0: F265 loads the first three font bytes
    let mut emu = Emulator::new();
    emu.execute_with(0xF265, 0);
    assert_eq!(emu.register(0), 0xF0);
    assert_eq!(emu.register(1), 0x90);
    assert_eq!(emu.register(2), 0x90);
    for r in 3..16 {
        assert_eq!(emu.register(r), 0);
    }
    assert_eq!(emu.program_counter(), 0x200);
}

#[test]
fn store_then_load_keeps_registers() {
    let emu = run(
        &[0x60, 11, 0x61, 22, 0x62, 33, 0xA3, 0x00, 0xF2, 0x55, 0xF2, 0x65],
        6,
    );
    assert_eq!(emu.register(0), 11);
    assert_eq!(emu.register(1), 22);
    assert_eq!(emu.register(2), 33);
}

#[test]
fn execute_with_runs_one_opcode() {
    let mut emu = Emulator::new();
    emu.execute_with(0x6A05, 0);
    emu.execute_with(0x7AFF, 0);
    assert_eq!(emu.register(0xA), 4);
    emu.execute_with(0xCA0F, 0x3C);
    assert_eq!(emu.register(0xA), 0x0C);
    assert_eq!(emu.program_counter(), 0x200);
}

#[test]
fn timers_count_down_over_frames_and_stop() {
    // DT = 5, ST = 2
    let mut emu = run(&[0x60, 5, 0x61, 2, 0xF0, 0x15, 0xF1, 0x18], 4);
    for k in 1..=8u8 {
        emu.tick_timers();
        assert_eq!(emu.delay_timer(), 5 - k.min(5));
        assert_eq!(emu.sound_timer(), 2 - k.min(2));
    }
    assert_eq!(emu.program_counter(), 0x208);
}
