//! Laws of the step semantics, proved once and for all over the abstract
//! machine.
use crate::isa::{spec_decode, Instr};
use crate::machine::{
    cell_at, draw_collision, first_key, lemma_sprite_pixel_is_bit, lemma_wrap_roundtrip,
    lemma_xor_bits, machine_wf, pixel_done, spec_draw, spec_shift_left, spec_shift_right,
    spec_sub_from, spec_sub_regs, spec_wait_key, sprite_pixel, step_spec, step_reads_randomness,
    Fault, Machine,
};
use vstd::prelude::*;

verus! {

/// Law: a step is deterministic. [`step_spec`] is a function of the
/// machine, the key vector and the byte the random source supplied; and
/// unless the fetched word decodes to the random instruction, even that
/// byte is irrelevant — two steps from the same state under the same keys
/// end the same way.
pub proof fn lemma_step_deterministic(m: Machine, keys: Seq<bool>, r1: u8, r2: u8)
    requires
        !step_reads_randomness(m),
    ensures
        step_spec(m, keys, r1) == step_spec(m, keys, r2),
{
}

/// Law: the flag conventions of the arithmetic group, for a destination
/// register other than the flag itself. Subtraction reports strictly-
/// greater comparisons of the operands before any mutation, and each
/// shift captures exactly the bit it shifts out: the low bit (the value
/// modulo 2) for a right shift, the high bit (the value divided by 128)
/// for a left shift.
pub proof fn lemma_arithmetic_flags(v: Seq<u8>, x: int, y: int)
    requires
        v.len() == 16,
        0 <= x < 15,
        0 <= y < 16,
    ensures
        spec_sub_regs(v, x, y)[15] == (if v[x] > v[y] { 1u8 } else { 0u8 }),
        spec_sub_from(v, x, y)[15] == (if v[y] > v[x] { 1u8 } else { 0u8 }),
        spec_shift_right(v, x)[15] == v[x] % 2,
        spec_shift_left(v, x)[15] == v[x] / 128,
{
    let a = v[x];
    assert(a & 1 == a % 2) by (bit_vector);
    assert((a >> 7u8) & 1 == a / 128) by (bit_vector);
}

/// Law: drawing any sprite twice at the same location restores the
/// framebuffer, because XOR is its own inverse and each drawn sprite
/// pixel lands on its own cell. The register indices must not name the
/// flag register, which the first draw overwrites.
pub proof fn lemma_draw_involution(m: Machine, x: int, y: int, n: int)
    requires
        machine_wf(m),
        0 <= x < 15,
        0 <= y < 15,
        0 <= n,
    ensures
        spec_draw(spec_draw(m, x, y, n), x, y, n).screen == m.screen,
{
    let m1 = spec_draw(m, x, y, n);
    let m2 = spec_draw(m1, x, y, n);
    let vx = m.v[x] as int;
    let vy = m.v[y] as int;
    assert(m1.v[x] == m.v[x] && m1.v[y] == m.v[y]);
    assert forall|idx: int| 0 <= idx < 2048 implies m2.screen[idx] == m.screen[idx] by {
        let b = (idx % 64 - vx) % 64;
        if b < 8 && pixel_done((idx / 64 - vy) % 32, b, n, 0) {
            lemma_sprite_pixel_is_bit(m.mem[m.i + (idx / 64 - vy) % 32], b);
            lemma_xor_bits(m.screen[idx], sprite_pixel(m.mem[m.i + (idx / 64 - vy) % 32], b));
        }
    }
    assert(m2.screen =~= m.screen);
}

/// Law: drawing a sprite twice at the same location onto cells that were
/// all off erases on the second draw every pixel the first draw lit, and
/// that second draw reports a collision exactly when the sprite has any
/// lit pixel.
pub proof fn lemma_draw_twice_collides(m: Machine, x: int, y: int, n: int)
    requires
        machine_wf(m),
        0 <= x < 15,
        0 <= y < 15,
        0 <= n <= 15,
        forall|r: int, b: int|
            #![trigger cell_at((m.v[x] + b) % 64, (m.v[y] + r) % 32)]
            0 <= r < n && 0 <= b < 8 ==> m.screen[cell_at(
                (m.v[x] + b) % 64,
                (m.v[y] + r) % 32,
            )] == 0,
    ensures
        spec_draw(spec_draw(m, x, y, n), x, y, n).screen == m.screen,
        spec_draw(spec_draw(m, x, y, n), x, y, n).v[15] == 1 <==> exists|r: int, b: int|
            0 <= r < n && 0 <= b < 8 && #[trigger] sprite_pixel(m.mem[m.i + r], b) == 1,
{
    lemma_draw_involution(m, x, y, n);
    let m1 = spec_draw(m, x, y, n);
    let m2 = spec_draw(m1, x, y, n);
    let vx = m.v[x] as int;
    let vy = m.v[y] as int;
    assert(m1.v[x] == m.v[x] && m1.v[y] == m.v[y]);
    assert(m2.v[15] == 1 <==> draw_collision(m1.screen, m.mem, m.i, vx, vy, n, 0));
    // What the first draw left on each cell a sprite pixel targets.
    assert forall|r: int, b: int|
        #![trigger cell_at((vx + b) % 64, (vy + r) % 32)]
        0 <= r < n && 0 <= b < 8 implies m1.screen[cell_at((vx + b) % 64, (vy + r) % 32)]
        == sprite_pixel(m.mem[m.i + r], b) by {
        let py = (vy + r) % 32;
        let px = (vx + b) % 64;
        lemma_wrap_roundtrip(vy, r, 32);
        lemma_wrap_roundtrip(vx, b, 64);
        let idx = cell_at(px, py);
        assert(0 <= idx < 2048) by (nonlinear_arith)
            requires
                0 <= py < 32,
                0 <= px < 64,
                idx == py * 64 + px,
        ;
        vstd::arithmetic::div_mod::lemma_fundamental_div_mod_converse(idx, 64, py, px);
        assert(m1.screen[idx] == m.screen[idx] ^ sprite_pixel(m.mem[m.i + r], b));
        lemma_sprite_pixel_is_bit(m.mem[m.i + r], b);
        lemma_xor_bits(m.screen[idx], sprite_pixel(m.mem[m.i + r], b));
    }
    if draw_collision(m1.screen, m.mem, m.i, vx, vy, n, 0) {
        let (r, b): (int, int) = choose|r: int, b: int|
            #![trigger sprite_pixel(m.mem[m.i + r], b)]
            0 <= r && 0 <= b < 8 && pixel_done(r, b, n, 0) && sprite_pixel(m.mem[m.i + r], b) == 1
                && m1.screen[cell_at((vx + b) % 64, (vy + r) % 32)] == 1;
        assert(0 <= r < n && sprite_pixel(m.mem[m.i + r], b) == 1);
    }
    if exists|r: int, b: int|
        0 <= r < n && 0 <= b < 8 && #[trigger] sprite_pixel(m.mem[m.i + r], b) == 1 {
        let (r, b): (int, int) = choose|r: int, b: int|
            0 <= r < n && 0 <= b < 8 && #[trigger] sprite_pixel(m.mem[m.i + r], b) == 1;
        assert(m1.screen[cell_at((vx + b) % 64, (vy + r) % 32)] == 1);
        assert(pixel_done(r, b, n, 0));
        assert(draw_collision(m1.screen, m.mem, m.i, vx, vy, n, 0));
    }
}

/// Law: a subroutine call followed by a return leaves the program counter
/// at the instruction after the call, with registers, memory, screen,
/// stack and timers as they were.
pub proof fn lemma_call_ret_round_trip(m: Machine, keys: Seq<bool>, r1: u8, r2: u8, nnn: u16)
    requires
        machine_wf(m),
        m.pc + 1 < 4096,
        spec_decode((m.mem[m.pc] * 256 + m.mem[m.pc + 1]) as u16) == (Instr::Call { nnn }),
        nnn + 1 < 4096,
        m.mem[nnn as int] == 0x00,
        m.mem[nnn as int + 1] == 0xEE,
    ensures
        step_spec(m, keys, r1) == Ok::<(Machine, bool), Fault>(
            (Machine { pc: nnn as int, stack: m.stack.push(m.pc + 2), ..m }, false),
        ),
        step_spec(
            Machine { pc: nnn as int, stack: m.stack.push(m.pc + 2), ..m },
            keys,
            r2,
        ) == Ok::<(Machine, bool), Fault>((Machine { pc: m.pc + 2, ..m }, false)),
{
    let m1 = Machine { pc: nnn as int, stack: m.stack.push(m.pc + 2), ..m };
    assert(step_spec(m, keys, r1) == Ok::<(Machine, bool), Fault>((m1, false))) by {
        assert(Machine {
            pc: nnn as int,
            stack: (Machine { pc: m.pc + 2, ..m }).stack.push(m.pc + 2),
            ..(Machine { pc: m.pc + 2, ..m })
        } =~= m1);
    }
    let w2 = (m1.mem[m1.pc] * 256 + m1.mem[m1.pc + 1]) as u16;
    assert(w2 == 0x00EE);
    let s2 = Machine { pc: m1.pc + 2, ..m1 };
    assert(s2.stack.len() > 0 && s2.stack.last() == m.pc + 2);
    assert(s2.stack.drop_last() =~= m.stack);
    assert(Machine { pc: s2.stack.last(), stack: s2.stack.drop_last(), ..s2 } =~= (Machine {
        pc: m.pc + 2,
        ..m
    }));
}

/// No pressed key at or above `k` means the scan runs off the end.
proof fn lemma_first_key_none(keys: Seq<bool>, k: int)
    requires
        0 <= k <= 16,
        forall|j: int| 0 <= j < 16 ==> !keys[j],
    ensures
        first_key(keys, k) == 16,
    decreases 16 - k,
{
    if k < 16 {
        lemma_first_key_none(keys, k + 1);
    }
}

/// Law: key-wait quiescence. When the fetched word decodes to the
/// key-wait instruction and no key is pressed, a step hands the machine
/// back exactly as it was — the program counter is rewound over the
/// instruction and no register, memory byte, screen cell, stack entry or
/// timer moves — and reports no redraw.
pub proof fn lemma_wait_key_quiescent(m: Machine, keys: Seq<bool>, rnd: u8, x: u8)
    requires
        machine_wf(m),
        m.pc + 1 < 4096,
        spec_decode((m.mem[m.pc] * 256 + m.mem[m.pc + 1]) as u16) == (Instr::WaitKey { x }),
        keys.len() == 16,
        forall|j: int| 0 <= j < 16 ==> !keys[j],
    ensures
        step_spec(m, keys, rnd) == Ok::<(Machine, bool), Fault>((m, false)),
{
    lemma_first_key_none(keys, 0);
    let s = Machine { pc: m.pc + 2, ..m };
    assert(spec_wait_key(s, x as int, keys) =~= m);
}

} // verus!
