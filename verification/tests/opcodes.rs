//! Arithmetic flags, memory-transfer opcodes and the draw instruction.
use chip8::cpu::Chip8;
use chip8::machine::Fault;

fn no_keys() -> [bool; 16] {
    [false; 16]
}

fn run(c: &mut Chip8, steps: usize, keys: &[bool; 16]) {
    for _ in 0..steps {
        c.execute_instruction(keys).expect("step faulted");
    }
}

#[test]
fn load_and_add_immediate_wraps_without_flag() {
    let mut c = Chip8::new();
    // V0 = 250; V0 += 0x10: 266 wraps to 10, and the flag is untouched.
    c.load(&[0x60, 0xFA, 0x70, 0x10]);
    run(&mut c, 2, &no_keys());
    assert_eq!(c.register(0), 10);
    assert_eq!(c.register(15), 0);
}

#[test]
fn move_or_and_xor_leave_flag_alone() {
    let mut c = Chip8::new();
    // V0 = 0xF0; V1 = 0x3C; V2 = V0; V2 |= V1; V0 &= V1; V1 ^= V1.
    c.load(&[
        0x60, 0xF0, 0x61, 0x3C, 0x82, 0x00, 0x82, 0x11, 0x80, 0x12, 0x81, 0x13,
    ]);
    run(&mut c, 6, &no_keys());
    assert_eq!(c.register(2), 0xF0 | 0x3C);
    assert_eq!(c.register(0), 0xF0 & 0x3C);
    assert_eq!(c.register(1), 0);
    assert_eq!(c.register(15), 0);
}

#[test]
fn add_registers_sets_carry_exactly_when_sum_exceeds_255() {
    let mut c = Chip8::new();
    // V0 = 200; V1 = 100; V0 += V1: 300 wraps to 44, carry 1.
    c.load(&[0x60, 0xC8, 0x61, 0x64, 0x80, 0x14]);
    run(&mut c, 3, &no_keys());
    assert_eq!(c.register(0), 44);
    assert_eq!(c.register(15), 1);
    // 200 + 55 = 255 exactly: no carry.
    let mut c2 = Chip8::new();
    c2.load(&[0x60, 0xC8, 0x61, 0x37, 0x80, 0x14]);
    run(&mut c2, 3, &no_keys());
    assert_eq!(c2.register(0), 255);
    assert_eq!(c2.register(15), 0);
}

#[test]
fn sub_sets_flag_exactly_when_minuend_larger() {
    let mut c = Chip8::new();
    // V0 = 20; V1 = 10; V0 -= V1: flag 1 (20 > 10), result 10.
    c.load(&[0x60, 0x14, 0x61, 0x0A, 0x80, 0x15]);
    run(&mut c, 3, &no_keys());
    assert_eq!(c.register(0), 10);
    assert_eq!(c.register(15), 1);
    // V0 = 10; V1 = 20: flag 0, result wraps to 246.
    let mut c2 = Chip8::new();
    c2.load(&[0x60, 0x0A, 0x61, 0x14, 0x80, 0x15]);
    run(&mut c2, 3, &no_keys());
    assert_eq!(c2.register(0), 246);
    assert_eq!(c2.register(15), 0);
    // Equal operands: flag 0 (strict comparison), result 0.
    let mut c3 = Chip8::new();
    c3.load(&[0x60, 0x0A, 0x61, 0x0A, 0x80, 0x15]);
    run(&mut c3, 3, &no_keys());
    assert_eq!(c3.register(0), 0);
    assert_eq!(c3.register(15), 0);
}

#[test]
fn subn_is_the_mirror_of_sub() {
    let mut c = Chip8::new();
    // V0 = 10; V1 = 20; V0 = V1 - V0: flag 1 (20 > 10), result 10.
    c.load(&[0x60, 0x0A, 0x61, 0x14, 0x80, 0x17]);
    run(&mut c, 3, &no_keys());
    assert_eq!(c.register(0), 10);
    assert_eq!(c.register(15), 1);
}

#[test]
fn shift_right_captures_low_bit() {
    let mut c = Chip8::new();
    // V0 = 5: low bit 1, halves to 2.
    c.load(&[0x60, 0x05, 0x80, 0x06]);
    run(&mut c, 2, &no_keys());
    assert_eq!(c.register(0), 2);
    assert_eq!(c.register(15), 1);
    let mut c2 = Chip8::new();
    c2.load(&[0x60, 0x04, 0x80, 0x06]);
    run(&mut c2, 2, &no_keys());
    assert_eq!(c2.register(0), 2);
    assert_eq!(c2.register(15), 0);
}

#[test]
fn shift_left_captures_high_bit() {
    let mut c = Chip8::new();
    // V0 = 0x81: high bit 1, doubles (wrapping) to 2.
    c.load(&[0x60, 0x81, 0x80, 0x0E]);
    run(&mut c, 2, &no_keys());
    assert_eq!(c.register(0), 2);
    assert_eq!(c.register(15), 1);
    let mut c2 = Chip8::new();
    c2.load(&[0x60, 0x41, 0x80, 0x0E]);
    run(&mut c2, 2, &no_keys());
    assert_eq!(c2.register(0), 0x82);
    assert_eq!(c2.register(15), 0);
}

#[test]
fn load_index_and_add_index_with_overflow_flag() {
    let mut c = Chip8::new();
    // I = 0xFFF; V0 = 1; I += V0: 0x1000 > 0xF00, flag 1.
    c.load(&[0xAF, 0xFF, 0x60, 0x01, 0xF0, 0x1E]);
    run(&mut c, 3, &no_keys());
    assert_eq!(c.index_register(), 0x1000);
    assert_eq!(c.register(15), 1);
    // Small values: flag 0.
    let mut c2 = Chip8::new();
    c2.load(&[0xA1, 0x00, 0x60, 0x05, 0xF0, 0x1E]);
    run(&mut c2, 3, &no_keys());
    assert_eq!(c2.index_register(), 0x105);
    assert_eq!(c2.register(15), 0);
}

#[test]
fn font_glyph_address_is_five_bytes_per_digit() {
    let mut c = Chip8::new();
    c.load(&[0x60, 0x0A, 0xF0, 0x29]);  // V0 = 0xA; I = glyph(V0)
    run(&mut c, 2, &no_keys());
    assert_eq!(c.index_register(), 50);
}

#[test]
fn bcd_decomposes_into_decimal_digits() {
    let mut c = Chip8::new();
    // V0 = 234; I = 0x300; store BCD.
    c.load(&[0x60, 0xEA, 0xA3, 0x00, 0xF0, 0x33]);
    run(&mut c, 3, &no_keys());
    assert_eq!(c.memory_at(0x300), 2);
    assert_eq!(c.memory_at(0x301), 3);
    assert_eq!(c.memory_at(0x302), 4);
}

#[test]
fn bcd_below_program_area_faults() {
    let mut c = Chip8::new();
    // I = 0 points into the font table: the write is refused.
    c.load(&[0x60, 0xEA, 0xA0, 0x00, 0xF0, 0x33]);
    run(&mut c, 2, &no_keys());
    let r = c.execute_instruction(&no_keys());
    assert_eq!(r, Err(Fault::ReservedWrite));
    assert_eq!(c.program_counter(), 0x204);
    assert_eq!(c.memory_at(0), 0xF0);
}

#[test]
fn store_and_load_registers_round_trip() {
    let mut c = Chip8::new();
    // V0..V2 = 7, 8, 9; I = 0x300; store V0..V2; clear; load back.
    c.load(&[
        0x60, 0x07, 0x61, 0x08, 0x62, 0x09, 0xA3, 0x00, 0xF2, 0x55, 0x60, 0x00, 0x61, 0x00, 0x62,
        0x00, 0xF2, 0x65,
    ]);
    run(&mut c, 5, &no_keys());
    assert_eq!(c.memory_at(0x300), 7);
    assert_eq!(c.memory_at(0x301), 8);
    assert_eq!(c.memory_at(0x302), 9);
    assert_eq!(c.memory_at(0x303), 0);
    run(&mut c, 4, &no_keys());
    assert_eq!(c.register(0), 7);
    assert_eq!(c.register(1), 8);
    assert_eq!(c.register(2), 9);
    assert_eq!(c.register(3), 0);
}

#[test]
fn store_registers_below_program_area_faults() {
    let mut c = Chip8::new();
    c.load(&[0xA0, 0x10, 0xF1, 0x55]);  // I = 0x10, store V0..V1
    run(&mut c, 1, &no_keys());
    let r = c.execute_instruction(&no_keys());
    assert_eq!(r, Err(Fault::ReservedWrite));
    assert_eq!(c.program_counter(), 0x202);
}

#[test]
fn draw_past_end_of_memory_faults() {
    let mut c = Chip8::new();
    c.load(&[0xAF, 0xFF, 0xD0, 0x12]);  // I = 0xFFF; draw 2 rows
    run(&mut c, 1, &no_keys());
    let r = c.execute_instruction(&no_keys());
    assert_eq!(r, Err(Fault::OutOfBoundsAccess));
    assert_eq!(c.program_counter(), 0x202);
}

#[test]
fn draw_reports_a_redraw_and_lights_pixels() {
    let mut c = Chip8::new();
    // V0 = 8; V1 = 4; I = 0x208; draw one row 0xFF at (8, 4).
    c.load(&[0x60, 0x08, 0x61, 0x04, 0xA2, 0x08, 0xD0, 0x11, 0xFF, 0x00]);
    run(&mut c, 3, &no_keys());
    let r = c.execute_instruction(&no_keys());
    assert_eq!(r, Ok(true));
    for col in 8..16 {
        assert_eq!(c.pixel(col, 4), 1);
    }
    assert_eq!(c.pixel(7, 4), 0);
    assert_eq!(c.pixel(16, 4), 0);
    assert_eq!(c.register(15), 0);
}

#[test]
fn draw_wraps_around_both_screen_edges() {
    let mut c = Chip8::new();
    // V0 = 63; V1 = 31; I = 0x208; draw two rows 0xFF at (63, 31): the
    // sprite wraps to column 0 and row 0 rather than clipping.
    c.load(&[0x60, 0x3F, 0x61, 0x1F, 0xA2, 0x08, 0xD0, 0x12, 0xFF, 0xFF]);
    run(&mut c, 4, &no_keys());
    for row in [31usize, 0usize] {
        assert_eq!(c.pixel(63, row), 1);
        for col in 0..7 {
            assert_eq!(c.pixel(col, row), 1);
        }
        assert_eq!(c.pixel(7, row), 0);
    }
    // Nothing else is lit.
    assert_eq!(c.pixel(8, 0), 0);
    assert_eq!(c.pixel(62, 31), 0);
    assert_eq!(c.register(15), 0);
}

#[test]
fn drawing_the_same_sprite_twice_erases_and_collides() {
    let mut c = Chip8::new();
    // Draw the same two-row sprite twice at (63, 31).
    c.load(&[
        0x60, 0x3F, 0x61, 0x1F, 0xA2, 0x0A, 0xD0, 0x12, 0xD0, 0x12, 0xFF, 0xFF,
    ]);
    run(&mut c, 4, &no_keys());
    assert_eq!(c.register(15), 0);
    run(&mut c, 1, &no_keys());
    // Every pixel the first draw lit is erased, and the collision flag
    // is set.
    for col in 0..64 {
        for row in 0..32 {
            assert_eq!(c.pixel(col, row), 0);
        }
    }
    assert_eq!(c.register(15), 1);
}

#[test]
fn cls_then_draw_renders_the_zero_glyph() {
    let mut c = Chip8::new();
    // CLS; V0 = 0; V1 = 0; I = 0 (the glyph for "0"); draw 5 rows with
    // x from V0, y from V1: the glyph appears at the top-left corner.
    c.load(&[0x00, 0xE0, 0x60, 0x00, 0x61, 0x00, 0xA0, 0x00, 0xD0, 0x15]);
    run(&mut c, 5, &no_keys());
    let glyph: [u8; 5] = [0xF0, 0x90, 0x90, 0x90, 0xF0];
    for row in 0..5 {
        for col in 0..8 {
            let expected: u8 = (glyph[row] >> (7 - col)) & 1;
            assert_eq!(c.pixel(col, row), expected);
        }
    }
    // Outside the glyph the screen stays dark.
    assert_eq!(c.pixel(8, 0), 0);
    assert_eq!(c.pixel(0, 5), 0);
    assert_eq!(c.register(15), 0);
}

#[test]
fn cls_clears_a_lit_screen() {
    let mut c = Chip8::new();
    // Draw a row, then CLS.
    c.load(&[0xA2, 0x06, 0xD0, 0x11, 0x00, 0xE0, 0xFF, 0x00]);
    run(&mut c, 2, &no_keys());
    assert_eq!(c.pixel(0, 0), 1);
    run(&mut c, 1, &no_keys());
    for col in 0..64 {
        for row in 0..32 {
            assert_eq!(c.pixel(col, row), 0);
        }
    }
}
