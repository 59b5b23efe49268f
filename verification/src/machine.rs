//! The abstract machine: a ghost-level state record and the mathematical
//! semantics of one fetch-decode-execute step.
//!
//! [`step_spec`] is the single source of truth for what a step does; the
//! executable interpreter in [`crate::cpu`] is proved against it.
use crate::isa::{spec_decode, Instr};
use vstd::arithmetic::div_mod::{
    lemma_fundamental_div_mod, lemma_fundamental_div_mod_converse, lemma_mod_division_less_than_divisor,
    lemma_mod_multiples_vanish, lemma_small_mod,
};
use vstd::prelude::*;

verus! {

/// A fatal condition: the program is malformed or exhausted, and execution
/// must stop rather than corrupt state. A step that reports a fault leaves
/// the machine exactly as it was.
#[derive(Clone, Copy, PartialEq, Eq, Structural, Debug)]
pub enum Fault {
    /// The program counter does not point at two readable bytes.
    OutOfBoundsFetch,
    /// A return was executed with an empty call stack.
    StackUnderflow,
    /// A memory read or write would fall beyond the addressable region.
    OutOfBoundsAccess,
    /// A memory write would fall below the program area, into the bytes
    /// reserved for the font table, which are never written after start-up.
    ReservedWrite,
    /// A key-skip instruction named a key index above 15.
    KeyOutOfRange,
}

/// The abstract machine state: the mathematical value of an interpreter.
#[verifier::ext_equal]
pub struct Machine {
    /// The sixteen 8-bit general-purpose registers; index 15 is the flag
    /// register, overwritten by arithmetic, shift and draw instructions.
    pub v: Seq<u8>,
    /// The index register: logically a 12-bit address, stored with headroom.
    pub i: int,
    /// The program counter: the address of the next instruction word.
    pub pc: int,
    /// The 4096 addressable bytes of memory.
    pub mem: Seq<u8>,
    /// The 64x32 framebuffer, row-major; every cell is 0 or 1.
    pub screen: Seq<u8>,
    /// The call stack of return addresses; unbounded, as callers that want
    /// the traditional 16-level limit must enforce it themselves.
    pub stack: Seq<int>,
    /// The delay timer, decremented towards 0 by timer ticks.
    pub delay: u8,
    /// The sound timer; a tone is owed whenever it is positive.
    pub sound: u8,
}

/// Well-formedness of an abstract state: fixed sizes, single-bit screen
/// cells, and non-negative addresses.
pub open spec fn machine_wf(m: Machine) -> bool {
    &&& m.v.len() == 16
    &&& m.mem.len() == 4096
    &&& m.screen.len() == 2048
    &&& forall|k: int| 0 <= k < 2048 ==> m.screen[k] < 2
    &&& m.i >= 0
    &&& m.pc >= 0
    &&& forall|k: int| 0 <= k < m.stack.len() ==> m.stack[k] >= 0
}

/// The font table: glyph bitmaps for the hexadecimal digits 0 through F,
/// five bytes per glyph, each byte one 8-pixel row (high bit leftmost).
pub open spec fn spec_font() -> Seq<u8> {
    seq![
        0xF0u8, 0x90, 0x90, 0x90, 0xF0,  // 0
        0x20, 0x60, 0x20, 0x20, 0x70,  // 1
        0xF0, 0x10, 0xF0, 0x80, 0xF0,  // 2
        0xF0, 0x10, 0xF0, 0x10, 0xF0,  // 3
        0x90, 0x90, 0xF0, 0x10, 0x10,  // 4
        0xF0, 0x80, 0xF0, 0x10, 0xF0,  // 5
        0xF0, 0x80, 0xF0, 0x90, 0xF0,  // 6
        0xF0, 0x10, 0x20, 0x40, 0x40,  // 7
        0xF0, 0x90, 0xF0, 0x90, 0xF0,  // 8
        0xF0, 0x90, 0xF0, 0x10, 0xF0,  // 9
        0xF0, 0x90, 0xF0, 0x90, 0x90,  // A
        0xE0, 0x90, 0xE0, 0x90, 0xE0,  // B
        0xF0, 0x80, 0x80, 0x80, 0xF0,  // C
        0xE0, 0x90, 0x90, 0x90, 0xE0,  // D
        0xF0, 0x80, 0xF0, 0x80, 0xF0,  // E
        0xF0, 0x80, 0xF0, 0x80, 0x80,  // F
    ]
}

/// The state of a freshly built machine: font table at the bottom of
/// memory, everything else zeroed, program counter at the program base.
pub open spec fn initial_machine() -> Machine {
    Machine {
        v: Seq::new(16, |k: int| 0u8),
        i: 0,
        pc: 0x200,
        mem: Seq::new(4096, |a: int| if a < 80 { spec_font()[a] } else { 0u8 }),
        screen: Seq::new(2048, |k: int| 0u8),
        stack: Seq::empty(),
        delay: 0,
        sound: 0,
    }
}

/// Memory after a program image is copied in at the program base,
/// truncated silently at the end of memory.
pub open spec fn spec_load(mem: Seq<u8>, data: Seq<u8>) -> Seq<u8> {
    Seq::new(4096, |a: int|
        if 0x200 <= a < 4096 && a - 0x200 < data.len() { data[a - 0x200] } else { mem[a] })
}

/// The register file after SUB Vx, Vy: the no-borrow flag (`v[x] > v[y]`
/// on the original operands) is written first; the wrapped difference then
/// reads the register file with the flag already in place, so that `x`
/// being 15 behaves exactly like the in-place updates.
pub open spec fn spec_sub_regs(v: Seq<u8>, x: int, y: int) -> Seq<u8> {
    let v1 = v.update(15, if v[x] > v[y] { 1u8 } else { 0u8 });
    let d = v1[x] - v1[y];
    v1.update(x, (if d < 0 { d + 256 } else { d }) as u8)
}

/// The register file after SUBN Vx, Vy: mirror image of [`spec_sub_regs`].
pub open spec fn spec_sub_from(v: Seq<u8>, x: int, y: int) -> Seq<u8> {
    let v1 = v.update(15, if v[y] > v[x] { 1u8 } else { 0u8 });
    let d = v1[y] - v1[x];
    v1.update(x, (if d < 0 { d + 256 } else { d }) as u8)
}

/// The register file after SHR Vx: the shifted-out low bit goes to the
/// flag first, then `v[x]` is halved (reading through the flag write).
pub open spec fn spec_shift_right(v: Seq<u8>, x: int) -> Seq<u8> {
    let v1 = v.update(15, v[x] & 1);
    v1.update(x, v1[x] / 2)
}

/// The register file after SHL Vx: the shifted-out high bit goes to the
/// flag first, then `v[x]` is doubled with 8-bit wraparound.
pub open spec fn spec_shift_left(v: Seq<u8>, x: int) -> Seq<u8> {
    let v1 = v.update(15, (v[x] >> 7u8) & 1);
    v1.update(x, ((v1[x] * 2) % 256) as u8)
}

/// The pixel of a sprite row byte at horizontal offset `b` (0 is the
/// leftmost, most significant bit).
pub open spec fn sprite_pixel(row: u8, b: int) -> u8 {
    (row >> ((7 - b) as u8)) & 1
}

/// The flat framebuffer index of column `col`, row `row`.
pub open spec fn cell_at(col: int, row: int) -> int {
    row * 64 + col
}

/// Whether sprite coordinate `(r, b)` has already been drawn, when the
/// draw loop stands at row `rows_done`, bit `bits_done` within that row.
pub open spec fn pixel_done(r: int, b: int, rows_done: int, bits_done: int) -> bool {
    r < rows_done || (r == rows_done && b < bits_done)
}

/// One framebuffer cell after the draw loop has processed every sprite
/// coordinate before `(rows_done, bits_done)`: sprites are XORed in, and
/// both coordinates wrap around the screen edges. `idx` is the flat cell
/// index; the unique sprite coordinate that can touch it is recovered by
/// inverting the wrap.
pub open spec fn draw_cell(
    orig: Seq<u8>,
    mem: Seq<u8>,
    i: int,
    vx: int,
    vy: int,
    rows_done: int,
    bits_done: int,
    idx: int,
) -> u8 {
    let row = idx / 64;
    let col = idx % 64;
    let r = (row - vy) % 32;
    let b = (col - vx) % 64;
    if b < 8 && pixel_done(r, b, rows_done, bits_done) {
        orig[idx] ^ sprite_pixel(mem[i + r], b)
    } else {
        orig[idx]
    }
}

/// Whether some sprite coordinate before `(rows_done, bits_done)` turned
/// an already-lit cell off: the collision condition reported in the flag
/// register.
pub open spec fn draw_collision(
    orig: Seq<u8>,
    mem: Seq<u8>,
    i: int,
    vx: int,
    vy: int,
    rows_done: int,
    bits_done: int,
) -> bool {
    exists|r: int, b: int|
        #![trigger sprite_pixel(mem[i + r], b)]
        0 <= r && 0 <= b < 8 && pixel_done(r, b, rows_done, bits_done)
            && sprite_pixel(mem[i + r], b) == 1
            && orig[cell_at((vx + b) % 64, (vy + r) % 32)] == 1
}

/// The machine after the draw instruction: `n` sprite rows read from
/// `mem[i..]`, drawn at `(v[x], v[y])` with wraparound, flag register set
/// to the collision bit.
pub open spec fn spec_draw(m: Machine, x: int, y: int, n: int) -> Machine {
    let vx = m.v[x] as int;
    let vy = m.v[y] as int;
    let flag: u8 = if draw_collision(m.screen, m.mem, m.i, vx, vy, n, 0) { 1 } else { 0 };
    Machine {
        screen: Seq::new(2048, |idx: int| draw_cell(m.screen, m.mem, m.i, vx, vy, n, 0, idx)),
        v: m.v.update(15, flag),
        ..m
    }
}

/// The smallest pressed key index at or above `k`, or 16 if none is.
pub open spec fn first_key(keys: Seq<bool>, k: int) -> int
    decreases 16 - k,
{
    if k < 0 || k >= 16 {
        16
    } else if keys[k] {
        k
    } else {
        first_key(keys, k + 1)
    }
}

/// The machine after the key-wait instruction: if a key is pressed, its
/// smallest index goes to `v[x]`; otherwise the program counter is wound
/// back two bytes so the same instruction is fetched again next step.
pub open spec fn spec_wait_key(m: Machine, x: int, keys: Seq<bool>) -> Machine {
    let k = first_key(keys, 0);
    if k < 16 {
        Machine { v: m.v.update(x, k as u8), ..m }
    } else {
        Machine { pc: m.pc - 2, ..m }
    }
}

/// Registers `v[0..=x]` copied into memory at `mem[i..]`.
pub open spec fn spec_store_regs(m: Machine, x: int) -> Seq<u8> {
    Seq::new(4096, |a: int| if m.i <= a <= m.i + x { m.v[a - m.i] } else { m.mem[a] })
}

/// Registers after `v[0..=x]` is loaded from memory at `mem[i..]`.
pub open spec fn spec_load_regs(m: Machine, x: int) -> Seq<u8> {
    Seq::new(16, |j: int| if j <= x { m.mem[m.i + j] } else { m.v[j] })
}

/// A sprite pixel is a single bit.
pub proof fn lemma_sprite_pixel_is_bit(row: u8, b: int)
    requires
        0 <= b < 8,
    ensures
        sprite_pixel(row, b) < 2,
{
    let s = (7 - b) as u8;
    assert((row >> s) & 1 < 2) by (bit_vector);
}

/// XOR on single-bit values: stays a single bit, is its own inverse, and
/// is the identity when the second operand is 0.
pub proof fn lemma_xor_bits(a: u8, c: u8)
    requires
        a < 2,
        c < 2,
    ensures
        a ^ c < 2,
        (a ^ c) ^ c == a,
        c == 0 ==> a ^ c == a,
        a == 0 ==> a ^ c == c,
{
    assert(a < 2 && c < 2 ==> (a ^ c < 2 && ((a ^ c) ^ c) == a && (c == 0 ==> a ^ c == a) && (a
        == 0 ==> a ^ c == c))) by (bit_vector);
}

/// Wrapping a sprite offset and then recovering it: for an offset `r0`
/// below the modulus, `((base + r0) % m - base) % m` is `r0` again.
pub proof fn lemma_wrap_roundtrip(base: int, r0: int, m: int)
    requires
        0 < m,
        0 <= r0 < m,
    ensures
        0 <= (base + r0) % m < m,
        ((base + r0) % m - base) % m == r0,
{
    lemma_mod_division_less_than_divisor(base + r0, m);
    lemma_fundamental_div_mod(base + r0, m);
    let q = (base + r0) / m;
    let t = (base + r0) % m;
    assert(t - base == m * (-q) + r0) by (nonlinear_arith)
        requires
            base + r0 == m * q + t,
    ;
    lemma_mod_multiples_vanish(-q, r0, m);
    lemma_small_mod(r0 as nat, m as nat);
}

/// The other direction: a screen coordinate `row` below the modulus is
/// reached exactly by the recovered offset, `(base + (row - base) % m) % m
/// == row`.
pub proof fn lemma_wrap_complete(base: int, row: int, m: int)
    requires
        0 < m,
        0 <= row < m,
    ensures
        (base + ((row - base) % m)) % m == row,
{
    let r0 = (row - base) % m;
    lemma_fundamental_div_mod(row - base, m);
    let q = (row - base) / m;
    assert(base + r0 == m * (-q) + row) by (nonlinear_arith)
        requires
            row - base == m * q + r0,
    ;
    lemma_mod_multiples_vanish(-q, row, m);
    lemma_small_mod(row as nat, m as nat);
}

/// Advancing the draw loop by one sprite pixel `(row, bit)`: the pixel
/// lands on the flat cell `((vy + row) % 32) * 64 + (vx + bit) % 64`,
/// which no earlier pixel has touched; every other cell keeps its value,
/// and a collision arises exactly if one was already recorded or this
/// pixel turns a lit cell off.
pub proof fn lemma_bit_advance(
    orig: Seq<u8>,
    mem: Seq<u8>,
    i: int,
    vx: int,
    vy: int,
    row: int,
    bit: int,
)
    requires
        0 <= row < 32,
        0 <= bit < 8,
        0 <= vx,
        0 <= vy,
    ensures
        0 <= ((vy + row) % 32) * 64 + ((vx + bit) % 64) < 2048,
        draw_cell(orig, mem, i, vx, vy, row, bit, ((vy + row) % 32) * 64 + ((vx + bit) % 64))
            == orig[((vy + row) % 32) * 64 + ((vx + bit) % 64)],
        draw_cell(orig, mem, i, vx, vy, row, bit + 1, ((vy + row) % 32) * 64 + ((vx + bit) % 64))
            == orig[((vy + row) % 32) * 64 + ((vx + bit) % 64)] ^ sprite_pixel(mem[i + row], bit),
        forall|idx: int|
            0 <= idx < 2048 && idx != ((vy + row) % 32) * 64 + ((vx + bit) % 64)
                ==> draw_cell(orig, mem, i, vx, vy, row, bit + 1, idx) == draw_cell(
                orig,
                mem,
                i,
                vx,
                vy,
                row,
                bit,
                idx,
            ),
        draw_collision(orig, mem, i, vx, vy, row, bit + 1) == (draw_collision(
            orig,
            mem,
            i,
            vx,
            vy,
            row,
            bit,
        ) || (sprite_pixel(mem[i + row], bit) == 1 && orig[((vy + row) % 32) * 64 + ((vx + bit)
            % 64)] == 1)),
{
    let py = (vy + row) % 32;
    let px = (vx + bit) % 64;
    let idx0 = py * 64 + px;
    lemma_wrap_roundtrip(vy, row, 32);
    lemma_wrap_roundtrip(vx, bit, 64);
    assert(0 <= idx0 < 2048) by (nonlinear_arith)
        requires
            0 <= py < 32,
            0 <= px < 64,
            idx0 == py * 64 + px,
    ;
    lemma_fundamental_div_mod_converse(idx0, 64, py, px);
    assert(idx0 / 64 == py && idx0 % 64 == px);
    assert((py - vy) % 32 == row);
    assert((px - vx) % 64 == bit);
    assert(!pixel_done(row, bit, row, bit));
    assert(pixel_done(row, bit, row, bit + 1));
    assert(cell_at(px, py) == idx0);
    assert forall|idx: int| 0 <= idx < 2048 && idx != idx0 implies draw_cell(
        orig,
        mem,
        i,
        vx,
        vy,
        row,
        bit + 1,
        idx,
    ) == draw_cell(orig, mem, i, vx, vy, row, bit, idx) by {
        let rowc = idx / 64;
        let colc = idx % 64;
        lemma_fundamental_div_mod(idx, 64);
        lemma_mod_division_less_than_divisor(idx, 64);
        assert(0 <= rowc < 32) by (nonlinear_arith)
            requires
                idx == 64 * rowc + colc,
                0 <= colc < 64,
                0 <= idx < 2048,
        ;
        let r = (rowc - vy) % 32;
        let b = (colc - vx) % 64;
        if b < 8 && r == row && b == bit {
            lemma_wrap_complete(vy, rowc, 32);
            lemma_wrap_complete(vx, colc, 64);
            assert(rowc == py && colc == px);
            assert(idx == idx0);
            assert(false);
        }
    }
    // The collision condition, in both directions.
    if draw_collision(orig, mem, i, vx, vy, row, bit) {
        let (r, b): (int, int) = choose|r: int, b: int|
            #![trigger sprite_pixel(mem[i + r], b)]
            0 <= r && 0 <= b < 8 && pixel_done(r, b, row, bit) && sprite_pixel(mem[i + r], b) == 1
                && orig[cell_at((vx + b) % 64, (vy + r) % 32)] == 1;
        assert(pixel_done(r, b, row, bit + 1));
        assert(draw_collision(orig, mem, i, vx, vy, row, bit + 1));
    }
    if sprite_pixel(mem[i + row], bit) == 1 && orig[idx0] == 1 {
        assert(draw_collision(orig, mem, i, vx, vy, row, bit + 1));
    }
    if draw_collision(orig, mem, i, vx, vy, row, bit + 1) {
        let (r, b): (int, int) = choose|r: int, b: int|
            #![trigger sprite_pixel(mem[i + r], b)]
            0 <= r && 0 <= b < 8 && pixel_done(r, b, row, bit + 1) && sprite_pixel(mem[i + r], b)
                == 1 && orig[cell_at((vx + b) % 64, (vy + r) % 32)] == 1;
        if pixel_done(r, b, row, bit) {
            assert(draw_collision(orig, mem, i, vx, vy, row, bit));
        } else {
            assert(r == row && b == bit);
        }
    }
}

/// Finishing a sprite row: having drawn all eight bits of row `row` is
/// the same as standing at the start of row `row + 1`.
pub proof fn lemma_row_advance(orig: Seq<u8>, mem: Seq<u8>, i: int, vx: int, vy: int, row: int)
    ensures
        forall|idx: int|
            #![trigger draw_cell(orig, mem, i, vx, vy, row + 1, 0, idx)]
            draw_cell(orig, mem, i, vx, vy, row, 8, idx) == draw_cell(
                orig,
                mem,
                i,
                vx,
                vy,
                row + 1,
                0,
                idx,
            ),
        draw_collision(orig, mem, i, vx, vy, row, 8) == draw_collision(
            orig,
            mem,
            i,
            vx,
            vy,
            row + 1,
            0,
        ),
{
    assert forall|idx: int|
        draw_cell(orig, mem, i, vx, vy, row, 8, idx) == #[trigger] draw_cell(
            orig,
            mem,
            i,
            vx,
            vy,
            row + 1,
            0,
            idx,
        ) by {
        let r = (idx / 64 - vy) % 32;
        let b = (idx % 64 - vx) % 64;
        assert(b < 8 ==> (pixel_done(r, b, row, 8) == pixel_done(r, b, row + 1, 0)));
    }
    if draw_collision(orig, mem, i, vx, vy, row, 8) {
        let (r, b): (int, int) = choose|r: int, b: int|
            #![trigger sprite_pixel(mem[i + r], b)]
            0 <= r && 0 <= b < 8 && pixel_done(r, b, row, 8) && sprite_pixel(mem[i + r], b) == 1
                && orig[cell_at((vx + b) % 64, (vy + r) % 32)] == 1;
        assert(pixel_done(r, b, row + 1, 0));
        assert(draw_collision(orig, mem, i, vx, vy, row + 1, 0));
    }
    if draw_collision(orig, mem, i, vx, vy, row + 1, 0) {
        let (r, b): (int, int) = choose|r: int, b: int|
            #![trigger sprite_pixel(mem[i + r], b)]
            0 <= r && 0 <= b < 8 && pixel_done(r, b, row + 1, 0) && sprite_pixel(mem[i + r], b)
                == 1 && orig[cell_at((vx + b) % 64, (vy + r) % 32)] == 1;
        assert(pixel_done(r, b, row, 8));
        assert(draw_collision(orig, mem, i, vx, vy, row, 8));
    }
}

/// The semantics of one step: fetch the word at the program counter,
/// decode it, advance the program counter by two, then apply the decoded
/// instruction. The result is the new machine and whether the framebuffer
/// changed (true exactly for the draw instruction), or the fault that
/// stopped the step. `rnd` is the byte the random source supplied; only
/// the random instruction reads it.
pub open spec fn step_spec(m: Machine, keys: Seq<bool>, rnd: u8) -> Result<(Machine, bool), Fault> {
    if !(0 <= m.pc && m.pc + 1 < 4096) {
        Err(Fault::OutOfBoundsFetch)
    } else {
        let w = (m.mem[m.pc] * 256 + m.mem[m.pc + 1]) as u16;
        let s = Machine { pc: m.pc + 2, ..m };
        match spec_decode(w) {
            Instr::Cls => Ok((Machine { screen: Seq::new(2048, |k: int| 0u8), ..s }, false)),
            Instr::Ret => {
                if s.stack.len() == 0 {
                    Err(Fault::StackUnderflow)
                } else {
                    Ok((Machine { pc: s.stack.last(), stack: s.stack.drop_last(), ..s }, false))
                }
            },
            Instr::Jump { nnn } => Ok((Machine { pc: nnn as int, ..s }, false)),
            Instr::Call { nnn } => Ok((
                Machine { pc: nnn as int, stack: s.stack.push(s.pc), ..s },
                false,
            )),
            Instr::SkipEqImm { x, nn } => Ok((
                if s.v[x as int] == nn { Machine { pc: s.pc + 2, ..s } } else { s },
                false,
            )),
            Instr::SkipNeImm { x, nn } => Ok((
                if s.v[x as int] != nn { Machine { pc: s.pc + 2, ..s } } else { s },
                false,
            )),
            Instr::SkipEqReg { x, y } => Ok((
                if s.v[x as int] == s.v[y as int] { Machine { pc: s.pc + 2, ..s } } else { s },
                false,
            )),
            Instr::LoadImm { x, nn } => Ok((Machine { v: s.v.update(x as int, nn), ..s }, false)),
            Instr::AddImm { x, nn } => Ok((
                Machine { v: s.v.update(x as int, ((s.v[x as int] + nn) % 256) as u8), ..s },
                false,
            )),
            Instr::Move { x, y } => Ok((
                Machine { v: s.v.update(x as int, s.v[y as int]), ..s },
                false,
            )),
            Instr::Or { x, y } => Ok((
                Machine { v: s.v.update(x as int, s.v[x as int] | s.v[y as int]), ..s },
                false,
            )),
            Instr::And { x, y } => Ok((
                Machine { v: s.v.update(x as int, s.v[x as int] & s.v[y as int]), ..s },
                false,
            )),
            Instr::Xor { x, y } => Ok((
                Machine { v: s.v.update(x as int, s.v[x as int] ^ s.v[y as int]), ..s },
                false,
            )),
            Instr::AddReg { x, y } => {
                // The low byte of the sum goes to v[x] first; the carry
                // flag is written after and so wins when x is 15.
                let sum = s.v[x as int] + s.v[y as int];
                let carry: u8 = if sum > 255 { 1 } else { 0 };
                Ok((
                    Machine {
                        v: s.v.update(x as int, (sum % 256) as u8).update(15, carry),
                        ..s
                    },
                    false,
                ))
            },
            Instr::SubReg { x, y } => Ok((
                Machine { v: spec_sub_regs(s.v, x as int, y as int), ..s },
                false,
            )),
            Instr::ShiftRight { x } => Ok((
                Machine { v: spec_shift_right(s.v, x as int), ..s },
                false,
            )),
            Instr::SubFrom { x, y } => Ok((
                Machine { v: spec_sub_from(s.v, x as int, y as int), ..s },
                false,
            )),
            Instr::ShiftLeft { x } => Ok((
                Machine { v: spec_shift_left(s.v, x as int), ..s },
                false,
            )),
            Instr::SkipNeReg { x, y } => Ok((
                if s.v[x as int] != s.v[y as int] { Machine { pc: s.pc + 2, ..s } } else { s },
                false,
            )),
            Instr::LoadIndex { nnn } => Ok((Machine { i: nnn as int, ..s }, false)),
            Instr::JumpOffset { nnn } => Ok((Machine { pc: nnn + s.v[0], ..s }, false)),
            Instr::Random { x, nn } => Ok((
                Machine { v: s.v.update(x as int, rnd & nn), ..s },
                false,
            )),
            Instr::Draw { x, y, n } => {
                if n > 0 && s.i + n > 4096 {
                    Err(Fault::OutOfBoundsAccess)
                } else {
                    Ok((spec_draw(s, x as int, y as int, n as int), true))
                }
            },
            Instr::SkipKey { x } => {
                if s.v[x as int] >= 16 {
                    Err(Fault::KeyOutOfRange)
                } else {
                    Ok((
                        if keys[s.v[x as int] as int] { Machine { pc: s.pc + 2, ..s } } else { s },
                        false,
                    ))
                }
            },
            Instr::SkipNoKey { x } => {
                if s.v[x as int] >= 16 {
                    Err(Fault::KeyOutOfRange)
                } else {
                    Ok((
                        if !keys[s.v[x as int] as int] { Machine { pc: s.pc + 2, ..s } } else { s },
                        false,
                    ))
                }
            },
            Instr::ReadDelay { x } => Ok((Machine { v: s.v.update(x as int, s.delay), ..s }, false)),
            Instr::WaitKey { x } => Ok((spec_wait_key(s, x as int, keys), false)),
            Instr::SetDelay { x } => Ok((Machine { delay: s.v[x as int], ..s }, false)),
            Instr::SetSound { x } => Ok((Machine { sound: s.v[x as int], ..s }, false)),
            Instr::AddIndex { x } => {
                // The index register is stored in a machine word; growth
                // beyond it (never reachable from a fresh machine in any
                // realistic run) is reported rather than wrapped.
                if s.i + s.v[x as int] > usize::MAX {
                    Err(Fault::OutOfBoundsAccess)
                } else {
                    let ni = s.i + s.v[x as int];
                    Ok((
                        Machine {
                            i: ni,
                            v: s.v.update(15, if ni > 0x0F00 { 1u8 } else { 0u8 }),
                            ..s
                        },
                        false,
                    ))
                }
            },
            Instr::LoadGlyph { x } => Ok((Machine { i: s.v[x as int] * 5, ..s }, false)),
            Instr::StoreBcd { x } => {
                if s.i + 3 > 4096 {
                    Err(Fault::OutOfBoundsAccess)
                } else if s.i < 0x200 {
                    Err(Fault::ReservedWrite)
                } else {
                    let val = s.v[x as int];
                    Ok((
                        Machine {
                            mem: s.mem.update(s.i, val / 100).update(
                                s.i + 1,
                                (val % 100) / 10,
                            ).update(s.i + 2, val % 10),
                            ..s
                        },
                        false,
                    ))
                }
            },
            Instr::StoreRegs { x } => {
                if s.i + x + 1 > 4096 {
                    Err(Fault::OutOfBoundsAccess)
                } else if s.i < 0x200 {
                    Err(Fault::ReservedWrite)
                } else {
                    Ok((Machine { mem: spec_store_regs(s, x as int), ..s }, false))
                }
            },
            Instr::LoadRegs { x } => {
                if s.i + x + 1 > 4096 {
                    Err(Fault::OutOfBoundsAccess)
                } else {
                    Ok((Machine { v: spec_load_regs(s, x as int), ..s }, false))
                }
            },
            Instr::Unknown => Ok((s, false)),
        }
    }
}

/// Whether the instruction the machine is about to execute consults the
/// random source: true exactly when the fetch succeeds and the word
/// decodes to the random instruction.
pub open spec fn step_reads_randomness(m: Machine) -> bool {
    0 <= m.pc && m.pc + 1 < 4096 && (spec_decode(
        (m.mem[m.pc] * 256 + m.mem[m.pc + 1]) as u16,
    ) is Random)
}

} // verus!
