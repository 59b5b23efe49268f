//! State, loading, timers, control flow and fault behaviour of the
//! interpreter.
use chip8::cpu::Chip8;
use chip8::machine::Fault;
use chip8::FONT_BYTES;

fn no_keys() -> [bool; 16] {
    [false; 16]
}

/// Run `steps` instructions, requiring each to succeed.
fn run(c: &mut Chip8, steps: usize, keys: &[bool; 16]) {
    for _ in 0..steps {
        c.execute_instruction(keys).expect("step faulted");
    }
}

#[test]
fn new_initial_state() {
    let c = Chip8::new();
    assert_eq!(c.program_counter(), 0x200);
    assert_eq!(c.index_register(), 0);
    assert_eq!(c.stack_depth(), 0);
    assert_eq!(c.delay_timer(), 0);
    assert_eq!(c.sound_timer(), 0);
    assert!(!c.should_beep());
    for x in 0..16 {
        assert_eq!(c.register(x), 0);
    }
    // The font table sits at the bottom of memory: glyph "0" first,
    // glyph "F" last.
    assert_eq!(c.memory_at(0), 0xF0);
    assert_eq!(c.memory_at(1), 0x90);
    assert_eq!(c.memory_at(4), 0xF0);
    assert_eq!(c.memory_at(5), 0x20);
    assert_eq!(c.memory_at(79), 0x80);
    assert_eq!(c.memory_at(FONT_BYTES), 0);
    assert_eq!(c.memory_at(0x200), 0);
    for col in 0..64 {
        for row in 0..32 {
            assert_eq!(c.pixel(col, row), 0);
        }
    }
}

#[test]
fn load_copies_program_at_base() {
    let mut c = Chip8::new();
    c.load(&[0x12, 0x34, 0x56]);
    assert_eq!(c.memory_at(0x1FF), 0);
    assert_eq!(c.memory_at(0x200), 0x12);
    assert_eq!(c.memory_at(0x201), 0x34);
    assert_eq!(c.memory_at(0x202), 0x56);
    assert_eq!(c.memory_at(0x203), 0);
    // Loading touches nothing else.
    assert_eq!(c.program_counter(), 0x200);
    assert_eq!(c.register(0), 0);
    assert_eq!(c.memory_at(0), 0xF0);
}

#[test]
fn load_truncates_at_end_of_memory() {
    let mut c = Chip8::new();
    let big: Vec<u8> = vec![0xAB; 5000];
    c.load(&big);
    assert_eq!(c.memory_at(0x200), 0xAB);
    assert_eq!(c.memory_at(4095), 0xAB);
    // The font area is untouched.
    assert_eq!(c.memory_at(0), 0xF0);
}

#[test]
fn timers_decrement_and_floor_at_zero() {
    let mut c = Chip8::new();
    // V0 = 2; DT = V0; V1 = 3; ST = V1.
    c.load(&[0x60, 0x02, 0xF0, 0x15, 0x61, 0x03, 0xF1, 0x18]);
    run(&mut c, 4, &no_keys());
    assert_eq!(c.delay_timer(), 2);
    assert_eq!(c.sound_timer(), 3);
    assert!(c.should_beep());
    c.update_timers();
    assert_eq!(c.delay_timer(), 1);
    assert_eq!(c.sound_timer(), 2);
    c.update_timers();
    assert_eq!(c.delay_timer(), 0);
    assert_eq!(c.sound_timer(), 1);
    c.update_timers();
    assert_eq!(c.delay_timer(), 0);
    assert_eq!(c.sound_timer(), 0);
    assert!(!c.should_beep());
    // Both already at zero: a tick must not underflow.
    c.update_timers();
    assert_eq!(c.delay_timer(), 0);
    assert_eq!(c.sound_timer(), 0);
}

#[test]
fn read_delay_timer_into_register() {
    let mut c = Chip8::new();
    // V0 = 9; DT = V0; V5 = DT.
    c.load(&[0x60, 0x09, 0xF0, 0x15, 0xF5, 0x07]);
    run(&mut c, 3, &no_keys());
    assert_eq!(c.register(5), 9);
}

#[test]
fn unknown_opcode_is_a_noop() {
    let mut c = Chip8::new();
    c.load(&[0x51, 0x23]);  // 5xy3: outside the table
    let r = c.execute_instruction(&no_keys());
    assert_eq!(r, Ok(false));
    assert_eq!(c.program_counter(), 0x202);
    for x in 0..16 {
        assert_eq!(c.register(x), 0);
    }
}

#[test]
fn skip_equal_immediate() {
    let mut c = Chip8::new();
    // V0 = 7; SE V0, 7 (taken): pc skips one instruction.
    c.load(&[0x60, 0x07, 0x30, 0x07]);
    run(&mut c, 2, &no_keys());
    assert_eq!(c.program_counter(), 0x206);
    // SNE V0, 7 (not taken).
    let mut c2 = Chip8::new();
    c2.load(&[0x60, 0x07, 0x40, 0x07]);
    run(&mut c2, 2, &no_keys());
    assert_eq!(c2.program_counter(), 0x206 - 2);
}

#[test]
fn skip_register_compare() {
    let mut c = Chip8::new();
    // V0 = 3; V1 = 3; SE V0, V1 taken; then SNE V0, V1 not taken.
    c.load(&[0x60, 0x03, 0x61, 0x03, 0x50, 0x10]);
    run(&mut c, 3, &no_keys());
    assert_eq!(c.program_counter(), 0x208);
}

#[test]
fn jump_sets_program_counter() {
    let mut c = Chip8::new();
    c.load(&[0x13, 0x45]);
    run(&mut c, 1, &no_keys());
    assert_eq!(c.program_counter(), 0x345);
}

#[test]
fn jump_with_offset() {
    let mut c = Chip8::new();
    // V0 = 2; JP V0, 0x300.
    c.load(&[0x60, 0x02, 0xB3, 0x00]);
    run(&mut c, 2, &no_keys());
    assert_eq!(c.program_counter(), 0x302);
}

#[test]
fn call_then_ret_round_trip() {
    let mut c = Chip8::new();
    let mut image: Vec<u8> = vec![0; 0x102];
    image[0] = 0x23;  // CALL 0x300
    image[1] = 0x00;
    image[0x100] = 0x00;  // at 0x300: RET
    image[0x101] = 0xEE;
    c.load(&image);
    run(&mut c, 1, &no_keys());
    assert_eq!(c.program_counter(), 0x300);
    assert_eq!(c.stack_depth(), 1);
    run(&mut c, 1, &no_keys());
    // Back at the instruction following the CALL.
    assert_eq!(c.program_counter(), 0x202);
    assert_eq!(c.stack_depth(), 0);
}

#[test]
fn ret_with_empty_stack_faults() {
    let mut c = Chip8::new();
    c.load(&[0x00, 0xEE]);
    let r = c.execute_instruction(&no_keys());
    assert_eq!(r, Err(Fault::StackUnderflow));
    // A faulting step leaves the machine untouched.
    assert_eq!(c.program_counter(), 0x200);
    assert_eq!(c.stack_depth(), 0);
}

#[test]
fn fetch_past_end_of_memory_faults() {
    let mut c = Chip8::new();
    c.load(&[0x1F, 0xFE]);  // JP 0xFFE
    run(&mut c, 1, &no_keys());
    assert_eq!(c.program_counter(), 0xFFE);
    // The word at 0xFFE is zero: unknown, a no-op; pc crosses the end.
    run(&mut c, 1, &no_keys());
    assert_eq!(c.program_counter(), 0x1000);
    let r = c.execute_instruction(&no_keys());
    assert_eq!(r, Err(Fault::OutOfBoundsFetch));
    assert_eq!(c.program_counter(), 0x1000);
}

#[test]
fn key_wait_with_no_key_holds_still() {
    let mut c = Chip8::new();
    c.load(&[0xF0, 0x0A]);  // LD V0, K
    let r = c.execute_instruction(&no_keys());
    assert_eq!(r, Ok(false));
    // Net effect zero: the same instruction will be fetched again.
    assert_eq!(c.program_counter(), 0x200);
    for x in 0..16 {
        assert_eq!(c.register(x), 0);
    }
}

#[test]
fn key_wait_stores_first_pressed_key() {
    let mut c = Chip8::new();
    c.load(&[0xF3, 0x0A]);
    let mut keys = no_keys();
    keys[7] = true;
    keys[11] = true;
    run(&mut c, 1, &keys);
    assert_eq!(c.register(3), 7);
    assert_eq!(c.program_counter(), 0x202);
}

#[test]
fn skip_if_key_pressed() {
    let mut c = Chip8::new();
    // V0 = 4; SKP V0 with key 4 down: skip taken.
    c.load(&[0x60, 0x04, 0xE0, 0x9E]);
    let mut keys = no_keys();
    keys[4] = true;
    run(&mut c, 2, &keys);
    assert_eq!(c.program_counter(), 0x206);
    // SKNP with the key down: not taken.
    let mut c2 = Chip8::new();
    c2.load(&[0x60, 0x04, 0xE0, 0xA1]);
    run(&mut c2, 2, &keys);
    assert_eq!(c2.program_counter(), 0x204);
}

#[test]
fn key_skip_with_register_above_15_faults() {
    let mut c = Chip8::new();
    // V0 = 16; SKP V0.
    c.load(&[0x60, 0x10, 0xE0, 0x9E]);
    run(&mut c, 1, &no_keys());
    let r = c.execute_instruction(&no_keys());
    assert_eq!(r, Err(Fault::KeyOutOfRange));
    assert_eq!(c.program_counter(), 0x202);
}

#[test]
fn random_masked_with_zero_is_zero() {
    let mut c = Chip8::new();
    // RND V0, 0x00 — whatever byte the source gives, the mask zeroes it.
    c.load(&[0xC0, 0x00, 0xC1, 0x0F]);
    run(&mut c, 2, &no_keys());
    assert_eq!(c.register(0), 0);
    // RND V1, 0x0F keeps only the low nibble.
    assert!(c.register(1) <= 0x0F);
    assert_eq!(c.program_counter(), 0x204);
}
