use chip8::machine::{Chip8, Chip8Error};
use chip8::step::CycleOutcome;

fn machine_with(prog: &[u8]) -> Chip8 {
    let mut m = Chip8::initialize();
    let rom: Vec<u8> = prog.to_vec();
    m.load_rom(&rom).unwrap();
    m
}

fn ran(m: &mut Chip8) -> CycleOutcome {
    m.cycle_with(0).unwrap()
}

#[test]
fn initialize_power_on_state() {
    let m = Chip8::initialize();
    assert_eq!(m.pc, 0x200);
    assert_eq!(m.sp, 0);
    assert_eq!(m.i, 0);
    assert_eq!(m.memory.len(), 4096);
    // font glyph 0 starts with 0xF0 and glyph 1 with 0x20
    assert_eq!(m.memory[0], 0xF0);
    assert_eq!(m.memory[5], 0x20);
    assert_eq!(m.memory[79], 0x80);
    assert_eq!(m.memory[80], 0);
    assert!(m.v.iter().all(|&b| b == 0));
    assert!(m.gfx.iter().all(|&p| p == 0));
    assert!(m.keys.iter().all(|&k| !k));
    assert_eq!(m.delay_timer, 0);
    assert_eq!(m.sound_timer, 0);
}

#[test]
fn load_rom_places_image_at_program_start() {
    let m = machine_with(&[0xAB, 0xCD, 0xEF]);
    assert_eq!(m.memory[0x200], 0xAB);
    assert_eq!(m.memory[0x201], 0xCD);
    assert_eq!(m.memory[0x202], 0xEF);
    assert_eq!(m.memory[0x203], 0);
}

#[test]
fn load_rom_rejects_oversized_image() {
    let mut m = Chip8::initialize();
    let rom = vec![0u8; 3585];
    assert_eq!(m.load_rom(&rom), Err(Chip8Error::ProgramTooLarge));
    assert_eq!(m.memory[0x200], 0);
    let rom = vec![0x77u8; 3584];
    assert_eq!(m.load_rom(&rom), Ok(()));
    assert_eq!(m.memory[4095], 0x77);
}

#[test]
fn end_to_end_load_then_add() {
    // V0 = 5; V0 += 3
    let mut m = machine_with(&[0x60, 0x05, 0x70, 0x03]);
    ran(&mut m);
    assert_eq!(m.v[0], 5);
    ran(&mut m);
    assert_eq!(m.v[0], 8);
    assert_eq!(m.pc, 0x204);
    assert_eq!(m.v[0xF], 0);
}

#[test]
fn pc_stays_even_and_in_region() {
    let mut m = machine_with(&[0x60, 0x05, 0x70, 0x03, 0x12, 0x00]);
    for _ in 0..20 {
        assert!(m.pc % 2 == 0);
        assert!((m.pc as usize) < 4096);
        m.cycle_with(0).unwrap();
    }
}

#[test]
fn add_with_carry_sets_flag() {
    // V0 = 200; V1 = 100; V0 += V1
    let mut m = machine_with(&[0x60, 0xC8, 0x61, 0x64, 0x80, 0x14]);
    ran(&mut m);
    ran(&mut m);
    ran(&mut m);
    assert_eq!(m.v[0], 44); // 300 mod 256
    assert_eq!(m.v[0xF], 1);
}

#[test]
fn add_without_carry_clears_flag() {
    let mut m = machine_with(&[0x60, 0x0A, 0x61, 0x14, 0x80, 0x14]);
    ran(&mut m);
    ran(&mut m);
    ran(&mut m);
    assert_eq!(m.v[0], 30);
    assert_eq!(m.v[0xF], 0);
}

#[test]
fn sub_flag_strictly_greater_never_on_equality() {
    // equal operands: flag 0, result 0
    let mut m = machine_with(&[0x60, 0x05, 0x61, 0x05, 0x80, 0x15]);
    ran(&mut m);
    ran(&mut m);
    ran(&mut m);
    assert_eq!(m.v[0], 0);
    assert_eq!(m.v[0xF], 0);
    // strictly greater: flag 1
    let mut m = machine_with(&[0x60, 0x06, 0x61, 0x05, 0x80, 0x15]);
    ran(&mut m);
    ran(&mut m);
    ran(&mut m);
    assert_eq!(m.v[0], 1);
    assert_eq!(m.v[0xF], 1);
    // smaller: flag 0, wrapping result
    let mut m = machine_with(&[0x60, 0x04, 0x61, 0x05, 0x80, 0x15]);
    ran(&mut m);
    ran(&mut m);
    ran(&mut m);
    assert_eq!(m.v[0], 255);
    assert_eq!(m.v[0xF], 0);
}

#[test]
fn subn_flag_and_result() {
    // V0 = 5; V1 = 9; V0 = V1 - V0
    let mut m = machine_with(&[0x60, 0x05, 0x61, 0x09, 0x80, 0x17]);
    ran(&mut m);
    ran(&mut m);
    ran(&mut m);
    assert_eq!(m.v[0], 4);
    assert_eq!(m.v[0xF], 1);
}

#[test]
fn shr_flag_is_shifted_out_bit_and_ignores_second_operand() {
    // two machines differing only in the y nibble
    let mut a = machine_with(&[0x60, 0x05, 0x80, 0x16]);
    let mut b = machine_with(&[0x60, 0x05, 0x80, 0x76]);
    ran(&mut a);
    ran(&mut a);
    ran(&mut b);
    ran(&mut b);
    assert_eq!(a.v[0], 2);
    assert_eq!(a.v[0xF], 1);
    assert_eq!(b.v[0], a.v[0]);
    assert_eq!(b.v[0xF], a.v[0xF]);
    // even operand: flag 0
    let mut m = machine_with(&[0x60, 0x08, 0x80, 0x16]);
    ran(&mut m);
    ran(&mut m);
    assert_eq!(m.v[0], 4);
    assert_eq!(m.v[0xF], 0);
}

#[test]
fn shl_flag_is_shifted_out_bit_and_ignores_second_operand() {
    let mut a = machine_with(&[0x60, 0x81, 0x80, 0x1E]);
    let mut b = machine_with(&[0x60, 0x81, 0x80, 0x9E]);
    ran(&mut a);
    ran(&mut a);
    ran(&mut b);
    ran(&mut b);
    assert_eq!(a.v[0], 2); // 0x102 truncated
    assert_eq!(a.v[0xF], 1);
    assert_eq!(b.v[0], a.v[0]);
    assert_eq!(b.v[0xF], a.v[0xF]);
    let mut m = machine_with(&[0x60, 0x40, 0x80, 0x1E]);
    ran(&mut m);
    ran(&mut m);
    assert_eq!(m.v[0], 0x80);
    assert_eq!(m.v[0xF], 0);
}

#[test]
fn alu_moves_and_bitwise() {
    // V0 = 0x0F; V1 = 0x35; OR, AND, XOR, LD
    let mut m = machine_with(&[0x60, 0x0F, 0x61, 0x35, 0x80, 0x11]);
    ran(&mut m);
    ran(&mut m);
    ran(&mut m);
    assert_eq!(m.v[0], 0x3F);
    let mut m = machine_with(&[0x60, 0x0F, 0x61, 0x35, 0x80, 0x12]);
    ran(&mut m);
    ran(&mut m);
    ran(&mut m);
    assert_eq!(m.v[0], 0x05);
    let mut m = machine_with(&[0x60, 0x0F, 0x61, 0x35, 0x80, 0x13]);
    ran(&mut m);
    ran(&mut m);
    ran(&mut m);
    assert_eq!(m.v[0], 0x3A);
    let mut m = machine_with(&[0x61, 0x35, 0x80, 0x10]);
    ran(&mut m);
    ran(&mut m);
    assert_eq!(m.v[0], 0x35);
}

#[test]
fn wrapping_add_immediate_no_flag() {
    let mut m = machine_with(&[0x60, 0xFA, 0x70, 0x0A]);
    ran(&mut m);
    ran(&mut m);
    assert_eq!(m.v[0], 4);
    assert_eq!(m.v[0xF], 0);
}

#[test]
fn clear_display_zeroes_all_pixels() {
    let mut m = machine_with(&[0x00, 0xE0]);
    for p in m.gfx.iter_mut() {
        *p = 1;
    }
    ran(&mut m);
    assert!(m.gfx.iter().all(|&p| p == 0));
    assert_eq!(m.pc, 0x202);
}

#[test]
fn draw_twice_restores_buffer_and_reports_collision() {
    // I = 0 (font glyph 0, top row 0xF0); draw one row at (0,0), twice
    let mut m = machine_with(&[0xA0, 0x00, 0xD0, 0x01, 0xD0, 0x01]);
    ran(&mut m);
    ran(&mut m);
    // first draw on an empty buffer: four pixels set, no collision
    assert_eq!(&m.gfx[0..5], &[1, 1, 1, 1, 0]);
    assert_eq!(m.v[0xF], 0);
    ran(&mut m);
    // second identical draw: buffer back to empty, collision reported
    assert!(m.gfx.iter().all(|&p| p == 0));
    assert_eq!(m.v[0xF], 1);
}

#[test]
fn draw_wraps_columns_and_rows() {
    // V3 = 60, V4 = 30; I points at four 0xFF rows; draw an 8x4 sprite
    let mut m = machine_with(&[
        0x63, 0x3C, 0x64, 0x1E, 0xA2, 0x08, 0xD3, 0x44, 0xFF, 0xFF, 0xFF, 0xFF,
    ]);
    ran(&mut m);
    ran(&mut m);
    ran(&mut m);
    ran(&mut m);
    assert_eq!(m.v[0xF], 0);
    for (row, col, want) in [
        (30usize, 60usize, 1u8),
        (30, 63, 1),
        (30, 0, 1), // column 64 wrapped to 0
        (30, 3, 1),
        (30, 4, 0),
        (31, 60, 1),
        (0, 60, 1), // row 32 wrapped to 0
        (0, 3, 1),
        (1, 63, 1),
        (2, 60, 0),
        (29, 60, 0),
    ] {
        assert_eq!(m.gfx[row * 64 + col], want, "pixel ({col},{row})");
    }
}

#[test]
fn key_wait_blocks_until_key_then_takes_lowest() {
    let mut m = machine_with(&[0xF5, 0x0A]);
    for _ in 0..5 {
        let out = m.cycle_with(0).unwrap();
        assert_eq!(out, CycleOutcome::AwaitingKey);
        assert_eq!(m.pc, 0x200);
        assert_eq!(m.delay_timer, 0);
    }
    m.set_key(7, true);
    m.set_key(3, true);
    let out = ran(&mut m);
    assert!(matches!(out, CycleOutcome::Ran { .. }));
    assert_eq!(m.v[5], 3);
    assert_eq!(m.pc, 0x202);
}

#[test]
fn nested_calls_and_returns_balance() {
    let mut m = machine_with(&[
        0x22, 0x06, // 0x200: call 0x206
        0x00, 0x00, // 0x202
        0x00, 0x00, // 0x204
        0x22, 0x0A, // 0x206: call 0x20A
        0x00, 0xEE, // 0x208: return
        0x00, 0xEE, // 0x20A: return
    ]);
    ran(&mut m);
    assert_eq!((m.pc, m.sp), (0x206, 1));
    ran(&mut m);
    assert_eq!((m.pc, m.sp), (0x20A, 2));
    ran(&mut m);
    assert_eq!((m.pc, m.sp), (0x208, 1));
    ran(&mut m);
    assert_eq!((m.pc, m.sp), (0x202, 0));
}

#[test]
fn end_to_end_clear_and_draw_font_row() {
    let mut m = machine_with(&[0x00, 0xE0, 0xA0, 0x00, 0xD0, 0x01]);
    ran(&mut m);
    ran(&mut m);
    ran(&mut m);
    assert_eq!(&m.gfx[0..5], &[1, 1, 1, 1, 0]);
    assert!(m.gfx[5..].iter().all(|&p| p == 0));
    assert_eq!(m.v[0xF], 0);
    assert_eq!(m.pc, 0x206);
}

#[test]
fn skip_instructions() {
    let mut m = machine_with(&[0x30, 0x00]); // V0 == 0: skip
    ran(&mut m);
    assert_eq!(m.pc, 0x204);
    let mut m = machine_with(&[0x30, 0x01]); // V0 != 1: no skip
    ran(&mut m);
    assert_eq!(m.pc, 0x202);
    let mut m = machine_with(&[0x40, 0x01]); // V0 != 1: skip
    ran(&mut m);
    assert_eq!(m.pc, 0x204);
    let mut m = machine_with(&[0x50, 0x10]); // V0 == V1: skip
    ran(&mut m);
    assert_eq!(m.pc, 0x204);
    let mut m = machine_with(&[0x60, 0x01, 0x90, 0x10]); // V0 != V1: skip
    ran(&mut m);
    ran(&mut m);
    assert_eq!(m.pc, 0x206);
}

#[test]
fn skip_on_key_state() {
    let mut m = machine_with(&[0xE0, 0x9E]); // key V0 (0) not held: no skip
    ran(&mut m);
    assert_eq!(m.pc, 0x202);
    let mut m = machine_with(&[0xE0, 0x9E]);
    m.set_key(0, true);
    ran(&mut m);
    assert_eq!(m.pc, 0x204);
    let mut m = machine_with(&[0xE0, 0xA1]); // key not held: skip
    ran(&mut m);
    assert_eq!(m.pc, 0x204);
    let mut m = machine_with(&[0xE0, 0xA1]);
    m.set_key(0, true);
    ran(&mut m);
    assert_eq!(m.pc, 0x202);
}

#[test]
fn jumps_and_jump_with_offset() {
    let mut m = machine_with(&[0x12, 0x46]);
    ran(&mut m);
    assert_eq!(m.pc, 0x246);
    let mut m = machine_with(&[0x60, 0x04, 0xB2, 0x06]);
    ran(&mut m);
    ran(&mut m);
    assert_eq!(m.pc, 0x20A);
}

#[test]
fn random_is_masked() {
    let mut m = machine_with(&[0xC1, 0x0F]);
    let out = m.cycle_with(0xAB).unwrap();
    assert!(matches!(out, CycleOutcome::Ran { .. }));
    assert_eq!(m.v[1], 0x0B);
    assert_eq!(m.pc, 0x202);
}

#[test]
fn index_register_instructions() {
    let mut m = machine_with(&[0xA1, 0x23]);
    ran(&mut m);
    assert_eq!(m.i, 0x123);
    // Fx1E adds a register to I
    let mut m = machine_with(&[0xA1, 0x00, 0x60, 0x05, 0xF0, 0x1E]);
    ran(&mut m);
    ran(&mut m);
    ran(&mut m);
    assert_eq!(m.i, 0x105);
    // Fx29 aims I at a font glyph
    let mut m = machine_with(&[0x60, 0x05, 0xF0, 0x29]);
    ran(&mut m);
    ran(&mut m);
    assert_eq!(m.i, 25);
    // value 16 or more leaves I alone
    let mut m = machine_with(&[0x60, 0x10, 0xF0, 0x29]);
    ran(&mut m);
    ran(&mut m);
    assert_eq!(m.i, 0);
}

#[test]
fn bcd_store_and_register_transfer() {
    let mut m = machine_with(&[0x60, 0xEA, 0xA3, 0x00, 0xF0, 0x33]);
    ran(&mut m);
    ran(&mut m);
    ran(&mut m);
    assert_eq!(m.memory[0x300], 2);
    assert_eq!(m.memory[0x301], 3);
    assert_eq!(m.memory[0x302], 4);

    // store V0..V1 then reload into V2-range after clobbering
    let mut m = machine_with(&[
        0x60, 0xAA, 0x61, 0xBB, 0xA3, 0x00, 0xF1, 0x55, 0x60, 0x00, 0x61, 0x00, 0xF1, 0x65,
    ]);
    for _ in 0..4 {
        ran(&mut m);
    }
    assert_eq!(m.memory[0x300], 0xAA);
    assert_eq!(m.memory[0x301], 0xBB);
    assert_eq!(m.memory[0x302], 0);
    for _ in 0..3 {
        ran(&mut m);
    }
    assert_eq!(m.v[0], 0xAA);
    assert_eq!(m.v[1], 0xBB);
}

#[test]
fn timers_tick_and_beep_on_sound_runout() {
    let mut m = machine_with(&[0x62, 0x02, 0xF2, 0x18, 0x61, 0x03, 0xF1, 0x15, 0xF3, 0x07]);
    let out = ran(&mut m); // V2 = 2
    assert_eq!(out, CycleOutcome::Ran { beep: false, unknown_opcode: false });
    let out = ran(&mut m); // sound = 2, then ticks to 1
    assert_eq!(out, CycleOutcome::Ran { beep: false, unknown_opcode: false });
    assert_eq!(m.sound_timer, 1);
    let out = ran(&mut m); // sound was 1 before the tick: beep, now 0
    assert_eq!(out, CycleOutcome::Ran { beep: true, unknown_opcode: false });
    assert_eq!(m.sound_timer, 0);
    let out = ran(&mut m); // delay = 3, ticks to 2
    assert_eq!(out, CycleOutcome::Ran { beep: false, unknown_opcode: false });
    assert_eq!(m.delay_timer, 2);
    ran(&mut m); // V3 = delay (2 before this cycle's tick)
    assert_eq!(m.v[3], 2);
    assert_eq!(m.delay_timer, 1);
}

#[test]
fn unknown_opcodes_advance_and_report() {
    for prog in [[0x80u8, 0x08], [0xE0, 0x55], [0xF0, 0x99], [0x01, 0x23]] {
        let mut m = machine_with(&prog);
        let out = ran(&mut m);
        assert_eq!(out, CycleOutcome::Ran { beep: false, unknown_opcode: true });
        assert_eq!(m.pc, 0x202);
        assert!(m.v.iter().all(|&b| b == 0));
    }
}

#[test]
fn stack_underflow_is_fatal() {
    let mut m = machine_with(&[0x00, 0xEE]);
    assert_eq!(m.cycle_with(0), Err(Chip8Error::StackUnderflow));
    assert_eq!(m.pc, 0x200);
    assert_eq!(m.sp, 0);
}

#[test]
fn stack_overflow_is_fatal() {
    // a call that targets itself: every cycle pushes
    let mut m = machine_with(&[0x22, 0x00]);
    for _ in 0..16 {
        assert!(m.cycle_with(0).is_ok());
    }
    assert_eq!(m.sp, 16);
    assert_eq!(m.cycle_with(0), Err(Chip8Error::StackOverflow));
    assert_eq!(m.sp, 16);
}

#[test]
fn memory_out_of_bounds_is_fatal() {
    // BCD write at the top of memory
    let mut m = machine_with(&[0xAF, 0xFF, 0xF0, 0x33]);
    ran(&mut m);
    assert_eq!(m.cycle_with(0), Err(Chip8Error::OutOfBounds));
    // sprite row read past the top of memory
    let mut m = machine_with(&[0xAF, 0xFF, 0xD0, 0x02]);
    ran(&mut m);
    assert_eq!(m.cycle_with(0), Err(Chip8Error::OutOfBounds));
    // register store past the top of memory
    let mut m = machine_with(&[0xAF, 0xFE, 0xF5, 0x55]);
    ran(&mut m);
    assert_eq!(m.cycle_with(0), Err(Chip8Error::OutOfBounds));
    // program counter jumped to the last byte: the next fetch cannot happen
    let mut m = machine_with(&[0x1F, 0xFF]);
    ran(&mut m);
    assert_eq!(m.cycle_with(0), Err(Chip8Error::OutOfBounds));
}

#[test]
fn key_out_of_range_is_fatal() {
    let mut m = machine_with(&[0x60, 0x10, 0xE0, 0x9E]);
    ran(&mut m);
    assert_eq!(m.cycle_with(0), Err(Chip8Error::OutOfBounds));
}

#[test]
fn cycle_with_entropy_runs() {
    let mut m = machine_with(&[0xC0, 0xFF, 0x12, 0x00]);
    for _ in 0..10 {
        assert!(m.cycle().is_ok());
    }
}
