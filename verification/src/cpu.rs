//! The executable interpreter, proved to follow the abstract semantics of
//! [`crate::machine::step_spec`].
use crate::machine::{
    cell_at, draw_cell, draw_collision, first_key, initial_machine, lemma_bit_advance,
    lemma_row_advance, lemma_sprite_pixel_is_bit, lemma_xor_bits, spec_draw, spec_font, spec_load,
    spec_load_regs, spec_shift_left, spec_shift_right, spec_store_regs, spec_sub_from,
    machine_wf, spec_sub_regs, spec_wait_key, sprite_pixel, step_reads_randomness, step_spec,
    Fault, Machine,
};
use crate::isa::{decode, Instr};
use crate::{MEMORY_SIZE, PROGRAM_START, SCREEN_CELLS};
use vstd::prelude::*;

verus! {

/// The interpreter state: registers, index register, program counter,
/// memory, framebuffer, call stack and the two countdown timers.
pub struct Chip8 {
    v: Vec<u8>,
    i: usize,
    pc: usize,
    memory: Vec<u8>,
    screen: Vec<u8>,
    stack: Vec<usize>,
    delay_timer: u8,
    sound_timer: u8,
}

impl View for Chip8 {
    type V = Machine;

    closed spec fn view(&self) -> Machine {
        Machine {
            v: self.v@,
            i: self.i as int,
            pc: self.pc as int,
            mem: self.memory@,
            screen: self.screen@,
            stack: Seq::new(self.stack@.len(), |k: int| self.stack@[k] as int),
            delay: self.delay_timer,
            sound: self.sound_timer,
        }
    }
}

impl Chip8 {
    /// Well-formedness: the containers have their fixed sizes and every
    /// framebuffer cell is a single bit. Established by `new` and
    /// preserved by every operation.
    pub closed spec fn wf(&self) -> bool {
        &&& self.v@.len() == 16
        &&& self.memory@.len() == 4096
        &&& self.screen@.len() == 2048
        &&& forall|k: int| 0 <= k < 2048 ==> self.screen@[k] < 2
    }

    /// A fresh machine: font table copied to the bottom of memory, all
    /// registers, timers, stack and framebuffer zeroed, program counter at
    /// the program base.
    pub fn new() -> (c: Chip8)
        ensures
            c.wf(),
            c@ == initial_machine(),
    {
        let mut memory: Vec<u8> = Vec::new();
        memory.push(0xF0); memory.push(0x90); memory.push(0x90); memory.push(0x90); memory.push(0xF0);
        memory.push(0x20); memory.push(0x60); memory.push(0x20); memory.push(0x20); memory.push(0x70);
        memory.push(0xF0); memory.push(0x10); memory.push(0xF0); memory.push(0x80); memory.push(0xF0);
        memory.push(0xF0); memory.push(0x10); memory.push(0xF0); memory.push(0x10); memory.push(0xF0);
        memory.push(0x90); memory.push(0x90); memory.push(0xF0); memory.push(0x10); memory.push(0x10);
        memory.push(0xF0); memory.push(0x80); memory.push(0xF0); memory.push(0x10); memory.push(0xF0);
        memory.push(0xF0); memory.push(0x80); memory.push(0xF0); memory.push(0x90); memory.push(0xF0);
        memory.push(0xF0); memory.push(0x10); memory.push(0x20); memory.push(0x40); memory.push(0x40);
        memory.push(0xF0); memory.push(0x90); memory.push(0xF0); memory.push(0x90); memory.push(0xF0);
        memory.push(0xF0); memory.push(0x90); memory.push(0xF0); memory.push(0x10); memory.push(0xF0);
        memory.push(0xF0); memory.push(0x90); memory.push(0xF0); memory.push(0x90); memory.push(0x90);
        memory.push(0xE0); memory.push(0x90); memory.push(0xE0); memory.push(0x90); memory.push(0xE0);
        memory.push(0xF0); memory.push(0x80); memory.push(0x80); memory.push(0x80); memory.push(0xF0);
        memory.push(0xE0); memory.push(0x90); memory.push(0x90); memory.push(0x90); memory.push(0xE0);
        memory.push(0xF0); memory.push(0x80); memory.push(0xF0); memory.push(0x80); memory.push(0xF0);
        memory.push(0xF0); memory.push(0x80); memory.push(0xF0); memory.push(0x80); memory.push(0x80);
        assert(memory@ =~= spec_font());
        while memory.len() < MEMORY_SIZE
            invariant
                80 <= memory@.len() <= 4096,
                memory@.subrange(0, 80) =~= spec_font(),
                forall|a: int| 80 <= a < memory@.len() ==> memory@[a] == 0u8,
            decreases 4096 - memory@.len(),
        {
            memory.push(0);
        }
        let c = Chip8 {
            v: vec![0u8; 16],
            i: 0,
            pc: 0x200,
            memory,
            screen: vec![0u8; 2048],
            stack: Vec::new(),
            delay_timer: 0,
            sound_timer: 0,
        };
        proof {
            assert forall|a: int| 0 <= a < 4096 implies c@.mem[a] == initial_machine().mem[a] by {
                if a < 80 {
                    assert(c@.mem[a] == c@.mem.subrange(0, 80)[a]);
                }
            }
            assert(c@ =~= initial_machine());
        }
        c
    }

    /// Copy a program image into memory starting at the program base,
    /// stopping silently at the end of memory if the image is larger than
    /// the space available. Touches memory only.
    pub fn load(&mut self, data: &[u8])
        requires
            old(self).wf(),
        ensures
            final(self).wf(),
            final(self)@ == (Machine { mem: spec_load(old(self)@.mem, data@), ..old(self)@ }),
    {
        let cap: usize = MEMORY_SIZE - PROGRAM_START;
        let limit: usize = if data.len() > cap { cap } else { data.len() };
        let mut k: usize = 0;
        while k < limit
            invariant
                limit <= data@.len(),
                limit <= 3584,
                k <= limit,
                self.wf(),
                self.v == old(self).v,
                self.i == old(self).i,
                self.pc == old(self).pc,
                self.screen == old(self).screen,
                self.stack == old(self).stack,
                self.delay_timer == old(self).delay_timer,
                self.sound_timer == old(self).sound_timer,
                forall|a: int| 0 <= a < 4096 && !(0x200 <= a < 0x200 + k) ==> self.memory@[a]
                    == old(self).memory@[a],
                forall|a: int| 0x200 <= a < 0x200 + k ==> self.memory@[a] == data@[a - 0x200],
            decreases limit - k,
        {
            self.memory[0x200 + k] = data[k];
            k += 1;
        }
        proof {
            assert(final(self)@.mem =~= spec_load(old(self)@.mem, data@));
            assert(final(self)@ =~= (Machine { mem: spec_load(old(self)@.mem, data@), ..old(self)@ }));
        }
    }

    /// True exactly when a tone is owed: the sound timer is positive.
    pub fn should_beep(&self) -> (r: bool)
        ensures
            r == (self@.sound > 0),
    {
        self.sound_timer > 0
    }

    /// Decrement each timer by one, independently, floored at zero.
    pub fn update_timers(&mut self)
        requires
            old(self).wf(),
        ensures
            final(self).wf(),
            final(self)@ == (Machine {
                delay: if old(self)@.delay > 0 { (old(self)@.delay - 1) as u8 } else { 0u8 },
                sound: if old(self)@.sound > 0 { (old(self)@.sound - 1) as u8 } else { 0u8 },
                ..old(self)@
            }),
    {
        if self.delay_timer > 0 {
            self.delay_timer = self.delay_timer - 1;
        }
        if self.sound_timer > 0 {
            self.sound_timer = self.sound_timer - 1;
        }
        proof {
            assert(final(self)@ =~= (Machine {
                delay: if old(self)@.delay > 0 { (old(self)@.delay - 1) as u8 } else { 0u8 },
                sound: if old(self)@.sound > 0 { (old(self)@.sound - 1) as u8 } else { 0u8 },
                ..old(self)@
            }));
        }
    }

    /// CLS: zero every framebuffer cell.
    fn op_00e0(&mut self)
        requires
            old(self).wf(),
        ensures
            final(self).wf(),
            final(self)@ == (Machine { screen: Seq::new(2048, |k: int| 0u8), ..old(self)@ }),
    {
        let mut k: usize = 0;
        while k < SCREEN_CELLS
            invariant
                k <= 2048,
                self.wf(),
                self.v == old(self).v,
                self.i == old(self).i,
                self.pc == old(self).pc,
                self.memory == old(self).memory,
                self.stack == old(self).stack,
                self.delay_timer == old(self).delay_timer,
                self.sound_timer == old(self).sound_timer,
                forall|a: int| 0 <= a < k ==> self.screen@[a] == 0u8,
                forall|a: int| k <= a < 2048 ==> self.screen@[a] == old(self).screen@[a],
            decreases 2048 - k,
        {
            self.screen[k] = 0;
            k += 1;
        }
        proof {
            assert(final(self)@.screen =~= Seq::new(2048, |k: int| 0u8));
            assert(final(self)@ =~= (Machine {
                screen: Seq::new(2048, |k: int| 0u8),
                ..old(self)@
            }));
        }
    }

    /// RET: pop the call stack into the program counter.
    fn op_00ee(&mut self)
        requires
            old(self).wf(),
            old(self)@.stack.len() > 0,
        ensures
            final(self).wf(),
            final(self)@ == (Machine {
                pc: old(self)@.stack.last(),
                stack: old(self)@.stack.drop_last(),
                ..old(self)@
            }),
    {
        let a = self.stack.pop();
        match a {
            Some(ret) => {
                self.pc = ret;
            },
            None => {},
        }
        proof {
            assert(final(self)@.stack =~= old(self)@.stack.drop_last());
            assert(final(self)@ =~= (Machine {
                pc: old(self)@.stack.last(),
                stack: old(self)@.stack.drop_last(),
                ..old(self)@
            }));
        }
    }

    /// CALL: push the program counter and jump to `nnn`.
    fn op_2nnn(&mut self, nnn: u16)
        requires
            old(self).wf(),
        ensures
            final(self).wf(),
            final(self)@ == (Machine {
                pc: nnn as int,
                stack: old(self)@.stack.push(old(self)@.pc),
                ..old(self)@
            }),
    {
        self.stack.push(self.pc);
        self.pc = nnn as usize;
        proof {
            assert(final(self)@.stack =~= old(self)@.stack.push(old(self)@.pc));
            assert(final(self)@ =~= (Machine {
                pc: nnn as int,
                stack: old(self)@.stack.push(old(self)@.pc),
                ..old(self)@
            }));
        }
    }

    /// Skip the next instruction (advance the program counter by two) when
    /// `cond` holds: the common tail of the four skip instructions.
    fn skip_if(&mut self, cond: bool)
        requires
            old(self).wf(),
            old(self)@.pc + 2 <= usize::MAX,
        ensures
            final(self).wf(),
            final(self)@ == if cond {
                Machine { pc: old(self)@.pc + 2, ..old(self)@ }
            } else {
                old(self)@
            },
    {
        if cond {
            self.pc = self.pc + 2;
        }
        proof {
            if cond {
                assert(final(self)@ =~= (Machine { pc: old(self)@.pc + 2, ..old(self)@ }));
            } else {
                assert(final(self)@ =~= old(self)@);
            }
        }
    }

    /// LD Vx, nn: set a register to an immediate.
    fn op_6xnn(&mut self, x: usize, nn: u8)
        requires
            old(self).wf(),
            x < 16,
        ensures
            final(self).wf(),
            final(self)@ == (Machine { v: old(self)@.v.update(x as int, nn), ..old(self)@ }),
    {
        self.v[x] = nn;
        proof {
            assert(final(self)@ =~= (Machine {
                v: old(self)@.v.update(x as int, nn),
                ..old(self)@
            }));
        }
    }

    /// ADD Vx, nn: add an immediate with 8-bit wraparound; no flag.
    fn op_7xnn(&mut self, x: usize, nn: u8)
        requires
            old(self).wf(),
            x < 16,
        ensures
            final(self).wf(),
            final(self)@ == (Machine {
                v: old(self)@.v.update(x as int, ((old(self)@.v[x as int] + nn) % 256) as u8),
                ..old(self)@
            }),
    {
        let sum: u16 = self.v[x] as u16 + nn as u16;
        self.v[x] = (sum % 256) as u8;
        proof {
            assert(final(self)@ =~= (Machine {
                v: old(self)@.v.update(x as int, ((old(self)@.v[x as int] + nn) % 256) as u8),
                ..old(self)@
            }));
        }
    }

    /// The 8xy_ arithmetic and logic group, dispatched on the low nibble.
    /// Flag conventions: OR/AND/XOR leave the flag register alone; ADD
    /// reports carry, SUB and SUBN report no-borrow, shifts report the bit
    /// shifted out, all computed from pre-mutation operands.
    fn op_alu(&mut self, low: u8, x: usize, y: usize)
        requires
            old(self).wf(),
            x < 16,
            y < 16,
            low == 0 || low == 1 || low == 2 || low == 3 || low == 4 || low == 5 || low == 6
                || low == 7 || low == 0xE,
        ensures
            final(self).wf(),
            low == 0 ==> final(self)@ == (Machine {
                v: old(self)@.v.update(x as int, old(self)@.v[y as int]),
                ..old(self)@
            }),
            low == 1 ==> final(self)@ == (Machine {
                v: old(self)@.v.update(x as int, old(self)@.v[x as int] | old(self)@.v[y as int]),
                ..old(self)@
            }),
            low == 2 ==> final(self)@ == (Machine {
                v: old(self)@.v.update(x as int, old(self)@.v[x as int] & old(self)@.v[y as int]),
                ..old(self)@
            }),
            low == 3 ==> final(self)@ == (Machine {
                v: old(self)@.v.update(x as int, old(self)@.v[x as int] ^ old(self)@.v[y as int]),
                ..old(self)@
            }),
            low == 4 ==> final(self)@ == (Machine {
                v: old(self)@.v.update(
                    x as int,
                    ((old(self)@.v[x as int] + old(self)@.v[y as int]) % 256) as u8,
                ).update(
                    15,
                    if old(self)@.v[x as int] + old(self)@.v[y as int] > 255 { 1u8 } else { 0u8 },
                ),
                ..old(self)@
            }),
            low == 4 && x != 15 ==> final(self)@.v[15]
                == if old(self)@.v[x as int] + old(self)@.v[y as int] > 255 { 1u8 } else { 0u8 },
            low == 5 ==> final(self)@ == (Machine {
                v: spec_sub_regs(old(self)@.v, x as int, y as int),
                ..old(self)@
            }),
            low == 6 ==> final(self)@ == (Machine {
                v: spec_shift_right(old(self)@.v, x as int),
                ..old(self)@
            }),
            low == 7 ==> final(self)@ == (Machine {
                v: spec_sub_from(old(self)@.v, x as int, y as int),
                ..old(self)@
            }),
            low == 0xE ==> final(self)@ == (Machine {
                v: spec_shift_left(old(self)@.v, x as int),
                ..old(self)@
            }),
    {
        if low == 0 {
            self.v[x] = self.v[y];
        } else if low == 1 {
            self.v[x] = self.v[x] | self.v[y];
        } else if low == 2 {
            self.v[x] = self.v[x] & self.v[y];
        } else if low == 3 {
            self.v[x] = self.v[x] ^ self.v[y];
        } else if low == 4 {
            let sum: u16 = self.v[x] as u16 + self.v[y] as u16;
            self.v[x] = (sum % 256) as u8;
            self.v[15] = if sum > 255 { 1 } else { 0 };
        } else if low == 5 {
            self.v[15] = if self.v[x] > self.v[y] { 1 } else { 0 };
            let a = self.v[x];
            let b = self.v[y];
            self.v[x] = if a >= b { a - b } else { ((a as u16 + 256) - b as u16) as u8 };
        } else if low == 6 {
            self.v[15] = self.v[x] & 1;
            self.v[x] = self.v[x] / 2;
        } else if low == 7 {
            self.v[15] = if self.v[y] > self.v[x] { 1 } else { 0 };
            let a = self.v[y];
            let b = self.v[x];
            self.v[x] = if a >= b { a - b } else { ((a as u16 + 256) - b as u16) as u8 };
        } else {
            self.v[15] = (self.v[x] >> 7u8) & 1;
            let doubled: u16 = (self.v[x] as u16) * 2;
            self.v[x] = (doubled % 256) as u8;
        }
        proof {
            machine_fields_eq(final(self)@, old(self)@);
        }
    }

    /// LD I, nnn: set the index register.
    fn op_annn(&mut self, nnn: u16)
        requires
            old(self).wf(),
        ensures
            final(self).wf(),
            final(self)@ == (Machine { i: nnn as int, ..old(self)@ }),
    {
        self.i = nnn as usize;
        proof {
            assert(final(self)@ =~= (Machine { i: nnn as int, ..old(self)@ }));
        }
    }

    /// JP V0, nnn: jump to `nnn` plus register 0.
    fn op_bnnn(&mut self, nnn: u16)
        requires
            old(self).wf(),
            nnn < 0x1000,
        ensures
            final(self).wf(),
            final(self)@ == (Machine { pc: nnn + old(self)@.v[0], ..old(self)@ }),
    {
        self.pc = (self.v[0] as usize) + (nnn as usize);
        proof {
            assert(final(self)@ =~= (Machine { pc: nnn + old(self)@.v[0], ..old(self)@ }));
        }
    }

    /// RND Vx, nn: mask the supplied random byte with `nn`. The byte is an
    /// argument so that the masking is verified for every value the random
    /// source can hand back.
    fn op_cxnn(&mut self, x: usize, nn: u8, rnd: u8)
        requires
            old(self).wf(),
            x < 16,
        ensures
            final(self).wf(),
            final(self)@ == (Machine { v: old(self)@.v.update(x as int, rnd & nn), ..old(self)@ }),
    {
        self.v[x] = rnd & nn;
        proof {
            assert(final(self)@ =~= (Machine {
                v: old(self)@.v.update(x as int, rnd & nn),
                ..old(self)@
            }));
        }
    }

    /// LD Vx, DT: read the delay timer into a register.
    fn op_fx07(&mut self, x: usize)
        requires
            old(self).wf(),
            x < 16,
        ensures
            final(self).wf(),
            final(self)@ == (Machine {
                v: old(self)@.v.update(x as int, old(self)@.delay),
                ..old(self)@
            }),
    {
        self.v[x] = self.delay_timer;
        proof {
            assert(final(self)@ =~= (Machine {
                v: old(self)@.v.update(x as int, old(self)@.delay),
                ..old(self)@
            }));
        }
    }

    /// LD Vx, K: scan the pad in ascending order; store the first pressed
    /// key, or wind the program counter back two bytes so the same
    /// instruction is fetched again next step.
    fn op_fx0a(&mut self, x: usize, keypad: &[bool; 16])
        requires
            old(self).wf(),
            x < 16,
            old(self)@.pc >= 2,
        ensures
            final(self).wf(),
            final(self)@ == spec_wait_key(old(self)@, x as int, keypad@),
    {
        let mut k: usize = 0;
        while k < 16
            invariant
                k <= 16,
                x < 16,
                self.wf(),
                self == old(self),
                first_key(keypad@, 0) == first_key(keypad@, k as int),
            decreases 16 - k,
        {
            if keypad[k] {
                self.v[x] = k as u8;
                proof {
                    assert(first_key(keypad@, k as int) == k as int);
                    assert(self@ =~= (Machine {
                        v: old(self)@.v.update(x as int, k as u8),
                        ..old(self)@
                    }));
                }
                return ;
            }
            proof {
                assert(first_key(keypad@, k as int) == first_key(keypad@, k + 1));
            }
            k += 1;
        }
        self.pc = self.pc - 2;
        proof {
            assert(first_key(keypad@, 16) == 16);
            assert(final(self)@ =~= (Machine { pc: old(self)@.pc - 2, ..old(self)@ }));
        }
    }

    /// DRW Vx, Vy, n: XOR an `n`-row sprite, read from memory at the index
    /// register, onto the screen at `(v[x], v[y])`. Both coordinates wrap
    /// around the screen edges. The flag register is reset first and set
    /// to 1 exactly when some lit pixel is turned off.
    fn op_dxyn(&mut self, x: usize, y: usize, n: usize)
        requires
            old(self).wf(),
            x < 16,
            y < 16,
            n <= 15,
            n > 0 ==> old(self)@.i + n <= 4096,
        ensures
            final(self).wf(),
            final(self)@ == spec_draw(old(self)@, x as int, y as int, n as int),
    {
        let vx = self.v[x];
        let vy = self.v[y];
        self.v[15] = 0;
        proof {
            assert(!draw_collision(
                old(self).screen@,
                old(self).memory@,
                self.i as int,
                vx as int,
                vy as int,
                0,
                0,
            ));
            assert forall|idx: int| 0 <= idx < 2048 implies self.screen@[idx] == draw_cell(
                old(self).screen@,
                old(self).memory@,
                self.i as int,
                vx as int,
                vy as int,
                0,
                0,
                idx,
            ) by {}
        }
        let mut row: usize = 0;
        while row < n
            invariant
                row <= n,
                n <= 15,
                x < 16,
                y < 16,
                self.wf(),
                old(self).wf(),
                n > 0 ==> self.i + n <= 4096,
                self.i == old(self).i,
                self.pc == old(self).pc,
                self.memory == old(self).memory,
                self.stack == old(self).stack,
                self.delay_timer == old(self).delay_timer,
                self.sound_timer == old(self).sound_timer,
                vx == old(self)@.v[x as int],
                vy == old(self)@.v[y as int],
                self.v@ == old(self).v@.update(
                    15,
                    if draw_collision(
                        old(self).screen@,
                        old(self).memory@,
                        self.i as int,
                        vx as int,
                        vy as int,
                        row as int,
                        0,
                    ) {
                        1u8
                    } else {
                        0u8
                    },
                ),
                forall|idx: int| 0 <= idx < 2048 ==> self.screen@[idx] == draw_cell(
                    old(self).screen@,
                    old(self).memory@,
                    self.i as int,
                    vx as int,
                    vy as int,
                    row as int,
                    0,
                    idx,
                ),
            decreases n - row,
        {
            let sprite_row = self.memory[self.i + row];
            let py = ((vy as usize) + row) % 32;
            let mut bit: usize = 0;
            while bit < 8
                invariant
                    bit <= 8,
                    row < n,
                    n <= 15,
                    x < 16,
                    y < 16,
                    self.wf(),
                    old(self).wf(),
                    self.i + n <= 4096,
                    self.i == old(self).i,
                    self.pc == old(self).pc,
                    self.memory == old(self).memory,
                    self.stack == old(self).stack,
                    self.delay_timer == old(self).delay_timer,
                    self.sound_timer == old(self).sound_timer,
                    vx == old(self)@.v[x as int],
                    vy == old(self)@.v[y as int],
                    sprite_row == self.memory@[self.i + row],
                    py == ((vy as int) + row) % 32,
                    self.v@ == old(self).v@.update(
                        15,
                        if draw_collision(
                            old(self).screen@,
                            old(self).memory@,
                            self.i as int,
                            vx as int,
                            vy as int,
                            row as int,
                            bit as int,
                        ) {
                            1u8
                        } else {
                            0u8
                        },
                    ),
                    forall|idx: int| 0 <= idx < 2048 ==> self.screen@[idx] == draw_cell(
                        old(self).screen@,
                        old(self).memory@,
                        self.i as int,
                        vx as int,
                        vy as int,
                        row as int,
                        bit as int,
                        idx,
                    ),
                decreases 8 - bit,
            {
                proof {
                    lemma_bit_advance(
                        old(self).screen@,
                        old(self).memory@,
                        self.i as int,
                        vx as int,
                        vy as int,
                        row as int,
                        bit as int,
                    );
                    lemma_sprite_pixel_is_bit(sprite_row, bit as int);
                }
                let px = ((vx as usize) + bit) % 64;
                let color = (sprite_row >> ((7 - bit) as u8)) & 1;
                let idx = py * 64 + px;
                let cell = self.screen[idx];
                proof {
                    lemma_xor_bits(cell, color);
                    assert(color == sprite_pixel(old(self).memory@[self.i + row], bit as int));
                    assert(cell == old(self).screen@[idx as int]);
                }
                if color == 1 && cell == 1 {
                    self.v[15] = 1;
                    proof {
                        assert(self.v@ =~= old(self).v@.update(15, 1u8));
                    }
                }
                self.screen[idx] = cell ^ color;
                bit += 1;
                proof {
                    assert(self.v@ =~= old(self).v@.update(
                        15,
                        if draw_collision(
                            old(self).screen@,
                            old(self).memory@,
                            self.i as int,
                            vx as int,
                            vy as int,
                            row as int,
                            bit as int,
                        ) {
                            1u8
                        } else {
                            0u8
                        },
                    ));
                }
            }
            proof {
                lemma_row_advance(
                    old(self).screen@,
                    old(self).memory@,
                    self.i as int,
                    vx as int,
                    vy as int,
                    row as int,
                );
            }
            row += 1;
        }
        proof {
            assert(final(self)@.screen =~= Seq::new(2048, |idx: int| draw_cell(
                old(self)@.screen,
                old(self)@.mem,
                old(self)@.i,
                old(self)@.v[x as int] as int,
                old(self)@.v[y as int] as int,
                n as int,
                0,
                idx,
            )));
            assert(final(self)@ =~= spec_draw(old(self)@, x as int, y as int, n as int));
        }
    }

    /// LD DT, Vx: set the delay timer from a register.
    fn op_fx15(&mut self, x: usize)
        requires
            old(self).wf(),
            x < 16,
        ensures
            final(self).wf(),
            final(self)@ == (Machine { delay: old(self)@.v[x as int], ..old(self)@ }),
    {
        self.delay_timer = self.v[x];
        proof {
            assert(final(self)@ =~= (Machine { delay: old(self)@.v[x as int], ..old(self)@ }));
        }
    }

    /// LD ST, Vx: set the sound timer from a register.
    fn op_fx18(&mut self, x: usize)
        requires
            old(self).wf(),
            x < 16,
        ensures
            final(self).wf(),
            final(self)@ == (Machine { sound: old(self)@.v[x as int], ..old(self)@ }),
    {
        self.sound_timer = self.v[x];
        proof {
            assert(final(self)@ =~= (Machine { sound: old(self)@.v[x as int], ..old(self)@ }));
        }
    }

    /// ADD I, Vx: grow the index register, reporting in the flag register
    /// whether it left the sprite-addressable range (above 0x0F00).
    fn op_fx1e(&mut self, x: usize)
        requires
            old(self).wf(),
            x < 16,
            old(self)@.i + old(self)@.v[x as int] <= usize::MAX,
        ensures
            final(self).wf(),
            final(self)@ == (Machine {
                i: old(self)@.i + old(self)@.v[x as int],
                v: old(self)@.v.update(
                    15,
                    if old(self)@.i + old(self)@.v[x as int] > 0x0F00 { 1u8 } else { 0u8 },
                ),
                ..old(self)@
            }),
    {
        self.i = self.i + (self.v[x] as usize);
        self.v[15] = if self.i > 0x0F00 { 1 } else { 0 };
        proof {
            assert(final(self)@ =~= (Machine {
                i: old(self)@.i + old(self)@.v[x as int],
                v: old(self)@.v.update(
                    15,
                    if old(self)@.i + old(self)@.v[x as int] > 0x0F00 { 1u8 } else { 0u8 },
                ),
                ..old(self)@
            }));
        }
    }

    /// LD F, Vx: point the index register at the five-byte font glyph for
    /// the register value.
    fn op_fx29(&mut self, x: usize)
        requires
            old(self).wf(),
            x < 16,
        ensures
            final(self).wf(),
            final(self)@ == (Machine { i: old(self)@.v[x as int] * 5, ..old(self)@ }),
    {
        self.i = (self.v[x] as usize) * 5;
        proof {
            assert(final(self)@ =~= (Machine { i: old(self)@.v[x as int] * 5, ..old(self)@ }));
        }
    }

    /// LD B, Vx: store the hundreds, tens and ones decimal digits of the
    /// register value at `memory[i]`, `[i+1]`, `[i+2]`.
    fn op_fx33(&mut self, x: usize)
        requires
            old(self).wf(),
            x < 16,
            old(self)@.i + 3 <= 4096,
            old(self)@.i >= 0x200,
        ensures
            final(self).wf(),
            final(self)@ == (Machine {
                mem: old(self)@.mem.update(old(self)@.i, old(self)@.v[x as int] / 100).update(
                    old(self)@.i + 1,
                    (old(self)@.v[x as int] % 100) / 10,
                ).update(old(self)@.i + 2, old(self)@.v[x as int] % 10),
                ..old(self)@
            }),
    {
        self.memory[self.i] = self.v[x] / 100;
        self.memory[self.i + 1] = (self.v[x] % 100) / 10;
        self.memory[self.i + 2] = self.v[x] % 10;
        proof {
            assert(final(self)@ =~= (Machine {
                mem: old(self)@.mem.update(old(self)@.i, old(self)@.v[x as int] / 100).update(
                    old(self)@.i + 1,
                    (old(self)@.v[x as int] % 100) / 10,
                ).update(old(self)@.i + 2, old(self)@.v[x as int] % 10),
                ..old(self)@
            }));
        }
    }

    /// LD [I], Vx: copy registers 0 through x into memory at the index
    /// register, in ascending order.
    fn op_fx55(&mut self, x: usize)
        requires
            old(self).wf(),
            x < 16,
            old(self)@.i + x + 1 <= 4096,
            old(self)@.i >= 0x200,
        ensures
            final(self).wf(),
            final(self)@ == (Machine { mem: spec_store_regs(old(self)@, x as int), ..old(self)@ }),
    {
        let mut k: usize = 0;
        while k <= x
            invariant
                k <= x + 1,
                x < 16,
                self.i + x + 1 <= 4096,
                self.wf(),
                self.v == old(self).v,
                self.i == old(self).i,
                self.pc == old(self).pc,
                self.screen == old(self).screen,
                self.stack == old(self).stack,
                self.delay_timer == old(self).delay_timer,
                self.sound_timer == old(self).sound_timer,
                forall|a: int| 0 <= a < 4096 && !(self.i <= a < self.i + k) ==> self.memory@[a]
                    == old(self).memory@[a],
                forall|a: int| self.i <= a < self.i + k ==> self.memory@[a] == self.v@[a - self.i],
            decreases x + 1 - k,
        {
            self.memory[self.i + k] = self.v[k];
            k += 1;
        }
        proof {
            assert(final(self)@.mem =~= spec_store_regs(old(self)@, x as int));
            assert(final(self)@ =~= (Machine {
                mem: spec_store_regs(old(self)@, x as int),
                ..old(self)@
            }));
        }
    }

    /// One fetch-decode-execute step, against the pressed-key vector the
    /// driver observed. Fetches the word at the program counter, advances
    /// the counter by two, and applies the decoded instruction; unknown
    /// patterns are no-ops. Returns whether the framebuffer changed (true
    /// exactly for the draw instruction), or the fault that stopped the
    /// step, in which case the machine is left exactly as it was.
    ///
    /// The result is pinned down by [`step_spec`]: some byte from the
    /// random source explains an `Ok` step, and a fault is one for every
    /// such byte. For every instruction but the random one the byte is
    /// irrelevant ([`crate::laws::lemma_step_deterministic`]), so the
    /// outcome is a function of the machine and the keys alone.
    #[verifier::rlimit(100)]
    pub fn execute_instruction(&mut self, keypad: &[bool; 16]) -> (r: Result<bool, Fault>)
        requires
            old(self).wf(),
        ensures
            final(self).wf(),
            (match r {
                Ok(redraw) => {
                    &&& exists|rnd: u8|
                        step_spec(old(self)@, keypad@, rnd) == Ok::<(Machine, bool), Fault>(
                            (final(self)@, redraw),
                        )
                    &&& !step_reads_randomness(old(self)@) ==> forall|rnd: u8|
                        step_spec(old(self)@, keypad@, rnd) == Ok::<(Machine, bool), Fault>(
                            (final(self)@, redraw),
                        )
                },
                Err(f) => {
                    &&& final(self)@ == old(self)@
                    &&& forall|rnd: u8|
                        step_spec(old(self)@, keypad@, rnd) == Err::<(Machine, bool), Fault>(f)
                },
            }),
    {
        if self.pc >= MEMORY_SIZE - 1 {
            return Err(Fault::OutOfBoundsFetch);
        }
        let hi = self.memory[self.pc];
        let lo = self.memory[self.pc + 1];
        let w: u16 = (hi as u16) * 256 + (lo as u16);
        let ins = decode(w);
        let pc0 = self.pc;
        let ghost s = Machine { pc: old(self)@.pc + 2, ..old(self)@ };
        self.pc = self.pc + 2;
        proof {
            assert(self@ =~= s);
            assert(w as int == old(self)@.mem[old(self)@.pc] * 256 + old(self)@.mem[old(self)@.pc
                + 1]);
        }
        match ins {
            Instr::Cls => {
                self.op_00e0();
                proof {
                    assert(step_spec(old(self)@, keypad@, 0u8) == Ok::<(Machine, bool), Fault>(
                        (self@, false),
                    ));
                }
                Ok(false)
            },
            Instr::Ret => {
                if self.stack.len() == 0 {
                    self.pc = pc0;
                    proof {
                        assert(self@ =~= old(self)@);
                    }
                    return Err(Fault::StackUnderflow);
                }
                self.op_00ee();
                proof {
                    assert(step_spec(old(self)@, keypad@, 0u8) == Ok::<(Machine, bool), Fault>(
                        (self@, false),
                    ));
                }
                Ok(false)
            },
            Instr::Jump { nnn } => {
                self.op_1nnn(nnn);
                proof {
                    assert(step_spec(old(self)@, keypad@, 0u8) == Ok::<(Machine, bool), Fault>(
                        (self@, false),
                    ));
                }
                Ok(false)
            },
            Instr::Call { nnn } => {
                self.op_2nnn(nnn);
                proof {
                    assert(step_spec(old(self)@, keypad@, 0u8) == Ok::<(Machine, bool), Fault>(
                        (self@, false),
                    ));
                }
                Ok(false)
            },
            Instr::SkipEqImm { x, nn } => {
                let c = self.v[x as usize] == nn;
                self.skip_if(c);
                proof {
                    assert(step_spec(old(self)@, keypad@, 0u8) == Ok::<(Machine, bool), Fault>(
                        (self@, false),
                    ));
                }
                Ok(false)
            },
            Instr::SkipNeImm { x, nn } => {
                let c = self.v[x as usize] != nn;
                self.skip_if(c);
                proof {
                    assert(step_spec(old(self)@, keypad@, 0u8) == Ok::<(Machine, bool), Fault>(
                        (self@, false),
                    ));
                }
                Ok(false)
            },
            Instr::SkipEqReg { x, y } => {
                let c = self.v[x as usize] == self.v[y as usize];
                self.skip_if(c);
                proof {
                    assert(step_spec(old(self)@, keypad@, 0u8) == Ok::<(Machine, bool), Fault>(
                        (self@, false),
                    ));
                }
                Ok(false)
            },
            Instr::LoadImm { x, nn } => {
                self.op_6xnn(x as usize, nn);
                proof {
                    assert(step_spec(old(self)@, keypad@, 0u8) == Ok::<(Machine, bool), Fault>(
                        (self@, false),
                    ));
                }
                Ok(false)
            },
            Instr::AddImm { x, nn } => {
                self.op_7xnn(x as usize, nn);
                proof {
                    assert(step_spec(old(self)@, keypad@, 0u8) == Ok::<(Machine, bool), Fault>(
                        (self@, false),
                    ));
                }
                Ok(false)
            },
            Instr::Move { x, y } => {
                self.op_alu(0, x as usize, y as usize);
                proof {
                    assert(step_spec(old(self)@, keypad@, 0u8) == Ok::<(Machine, bool), Fault>(
                        (self@, false),
                    ));
                }
                Ok(false)
            },
            Instr::Or { x, y } => {
                self.op_alu(1, x as usize, y as usize);
                proof {
                    assert(step_spec(old(self)@, keypad@, 0u8) == Ok::<(Machine, bool), Fault>(
                        (self@, false),
                    ));
                }
                Ok(false)
            },
            Instr::And { x, y } => {
                self.op_alu(2, x as usize, y as usize);
                proof {
                    assert(step_spec(old(self)@, keypad@, 0u8) == Ok::<(Machine, bool), Fault>(
                        (self@, false),
                    ));
                }
                Ok(false)
            },
            Instr::Xor { x, y } => {
                self.op_alu(3, x as usize, y as usize);
                proof {
                    assert(step_spec(old(self)@, keypad@, 0u8) == Ok::<(Machine, bool), Fault>(
                        (self@, false),
                    ));
                }
                Ok(false)
            },
            Instr::AddReg { x, y } => {
                self.op_alu(4, x as usize, y as usize);
                proof {
                    assert(step_spec(old(self)@, keypad@, 0u8) == Ok::<(Machine, bool), Fault>(
                        (self@, false),
                    ));
                }
                Ok(false)
            },
            Instr::SubReg { x, y } => {
                self.op_alu(5, x as usize, y as usize);
                proof {
                    assert(step_spec(old(self)@, keypad@, 0u8) == Ok::<(Machine, bool), Fault>(
                        (self@, false),
                    ));
                }
                Ok(false)
            },
            Instr::ShiftRight { x } => {
                self.op_alu(6, x as usize, x as usize);
                proof {
                    assert(step_spec(old(self)@, keypad@, 0u8) == Ok::<(Machine, bool), Fault>(
                        (self@, false),
                    ));
                }
                Ok(false)
            },
            Instr::SubFrom { x, y } => {
                self.op_alu(7, x as usize, y as usize);
                proof {
                    assert(step_spec(old(self)@, keypad@, 0u8) == Ok::<(Machine, bool), Fault>(
                        (self@, false),
                    ));
                }
                Ok(false)
            },
            Instr::ShiftLeft { x } => {
                self.op_alu(0xE, x as usize, x as usize);
                proof {
                    assert(step_spec(old(self)@, keypad@, 0u8) == Ok::<(Machine, bool), Fault>(
                        (self@, false),
                    ));
                }
                Ok(false)
            },
            Instr::SkipNeReg { x, y } => {
                let c = self.v[x as usize] != self.v[y as usize];
                self.skip_if(c);
                proof {
                    assert(step_spec(old(self)@, keypad@, 0u8) == Ok::<(Machine, bool), Fault>(
                        (self@, false),
                    ));
                }
                Ok(false)
            },
            Instr::LoadIndex { nnn } => {
                self.op_annn(nnn);
                proof {
                    assert(step_spec(old(self)@, keypad@, 0u8) == Ok::<(Machine, bool), Fault>(
                        (self@, false),
                    ));
                }
                Ok(false)
            },
            Instr::JumpOffset { nnn } => {
                self.op_bnnn(nnn);
                proof {
                    assert(step_spec(old(self)@, keypad@, 0u8) == Ok::<(Machine, bool), Fault>(
                        (self@, false),
                    ));
                }
                Ok(false)
            },
            Instr::Random { x, nn } => {
                let b = random_byte();
                self.op_cxnn(x as usize, nn, b);
                proof {
                    assert(step_spec(old(self)@, keypad@, b) == Ok::<(Machine, bool), Fault>(
                        (self@, false),
                    ));
                }
                Ok(false)
            },
            Instr::Draw { x, y, n } => {
                if n > 0 && self.i > 4096 - (n as usize) {
                    self.pc = pc0;
                    proof {
                        assert(self@ =~= old(self)@);
                    }
                    return Err(Fault::OutOfBoundsAccess);
                }
                self.op_dxyn(x as usize, y as usize, n as usize);
                proof {
                    assert(step_spec(old(self)@, keypad@, 0u8) == Ok::<(Machine, bool), Fault>(
                        (self@, true),
                    ));
                }
                Ok(true)
            },
            Instr::SkipKey { x } => {
                let key = self.v[x as usize];
                if key >= 16 {
                    self.pc = pc0;
                    proof {
                        assert(self@ =~= old(self)@);
                    }
                    return Err(Fault::KeyOutOfRange);
                }
                let c = keypad[key as usize];
                self.skip_if(c);
                proof {
                    assert(step_spec(old(self)@, keypad@, 0u8) == Ok::<(Machine, bool), Fault>(
                        (self@, false),
                    ));
                }
                Ok(false)
            },
            Instr::SkipNoKey { x } => {
                let key = self.v[x as usize];
                if key >= 16 {
                    self.pc = pc0;
                    proof {
                        assert(self@ =~= old(self)@);
                    }
                    return Err(Fault::KeyOutOfRange);
                }
                let c = !keypad[key as usize];
                self.skip_if(c);
                proof {
                    assert(step_spec(old(self)@, keypad@, 0u8) == Ok::<(Machine, bool), Fault>(
                        (self@, false),
                    ));
                }
                Ok(false)
            },
            Instr::ReadDelay { x } => {
                self.op_fx07(x as usize);
                proof {
                    assert(step_spec(old(self)@, keypad@, 0u8) == Ok::<(Machine, bool), Fault>(
                        (self@, false),
                    ));
                }
                Ok(false)
            },
            Instr::WaitKey { x } => {
                self.op_fx0a(x as usize, keypad);
                proof {
                    assert(step_spec(old(self)@, keypad@, 0u8) == Ok::<(Machine, bool), Fault>(
                        (self@, false),
                    ));
                }
                Ok(false)
            },
            Instr::SetDelay { x } => {
                self.op_fx15(x as usize);
                proof {
                    assert(step_spec(old(self)@, keypad@, 0u8) == Ok::<(Machine, bool), Fault>(
                        (self@, false),
                    ));
                }
                Ok(false)
            },
            Instr::SetSound { x } => {
                self.op_fx18(x as usize);
                proof {
                    assert(step_spec(old(self)@, keypad@, 0u8) == Ok::<(Machine, bool), Fault>(
                        (self@, false),
                    ));
                }
                Ok(false)
            },
            Instr::AddIndex { x } => {
                let vx = self.v[x as usize];
                if self.i > usize::MAX - (vx as usize) {
                    self.pc = pc0;
                    proof {
                        assert(self@ =~= old(self)@);
                    }
                    return Err(Fault::OutOfBoundsAccess);
                }
                self.op_fx1e(x as usize);
                proof {
                    assert(step_spec(old(self)@, keypad@, 0u8) == Ok::<(Machine, bool), Fault>(
                        (self@, false),
                    ));
                }
                Ok(false)
            },
            Instr::LoadGlyph { x } => {
                self.op_fx29(x as usize);
                proof {
                    assert(step_spec(old(self)@, keypad@, 0u8) == Ok::<(Machine, bool), Fault>(
                        (self@, false),
                    ));
                }
                Ok(false)
            },
            Instr::StoreBcd { x } => {
                if self.i > 4093 {
                    self.pc = pc0;
                    proof {
                        assert(self@ =~= old(self)@);
                    }
                    return Err(Fault::OutOfBoundsAccess);
                }
                if self.i < 0x200 {
                    self.pc = pc0;
                    proof {
                        assert(self@ =~= old(self)@);
                    }
                    return Err(Fault::ReservedWrite);
                }
                self.op_fx33(x as usize);
                proof {
                    assert(step_spec(old(self)@, keypad@, 0u8) == Ok::<(Machine, bool), Fault>(
                        (self@, false),
                    ));
                }
                Ok(false)
            },
            Instr::StoreRegs { x } => {
                if self.i > 4095 - (x as usize) {
                    self.pc = pc0;
                    proof {
                        assert(self@ =~= old(self)@);
                    }
                    return Err(Fault::OutOfBoundsAccess);
                }
                if self.i < 0x200 {
                    self.pc = pc0;
                    proof {
                        assert(self@ =~= old(self)@);
                    }
                    return Err(Fault::ReservedWrite);
                }
                self.op_fx55(x as usize);
                proof {
                    assert(step_spec(old(self)@, keypad@, 0u8) == Ok::<(Machine, bool), Fault>(
                        (self@, false),
                    ));
                }
                Ok(false)
            },
            Instr::LoadRegs { x } => {
                if self.i > 4095 - (x as usize) {
                    self.pc = pc0;
                    proof {
                        assert(self@ =~= old(self)@);
                    }
                    return Err(Fault::OutOfBoundsAccess);
                }
                self.op_fx65(x as usize);
                proof {
                    assert(step_spec(old(self)@, keypad@, 0u8) == Ok::<(Machine, bool), Fault>(
                        (self@, false),
                    ));
                }
                Ok(false)
            },
            Instr::Unknown => {
                proof {
                    assert(step_spec(old(self)@, keypad@, 0u8) == Ok::<(Machine, bool), Fault>(
                        (self@, false),
                    ));
                }
                Ok(false)
            },
        }
    }

    /// JP nnn: jump to an absolute address.
    fn op_1nnn(&mut self, nnn: u16)
        requires
            old(self).wf(),
        ensures
            final(self).wf(),
            final(self)@ == (Machine { pc: nnn as int, ..old(self)@ }),
    {
        self.pc = nnn as usize;
        proof {
            assert(final(self)@ =~= (Machine { pc: nnn as int, ..old(self)@ }));
        }
    }

    /// LD Vx, [I]: load registers 0 through x from memory at the index
    /// register, in ascending order.
    fn op_fx65(&mut self, x: usize)
        requires
            old(self).wf(),
            x < 16,
            old(self)@.i + x + 1 <= 4096,
        ensures
            final(self).wf(),
            final(self)@ == (Machine { v: spec_load_regs(old(self)@, x as int), ..old(self)@ }),
    {
        let mut k: usize = 0;
        while k <= x
            invariant
                k <= x + 1,
                x < 16,
                self.i + x + 1 <= 4096,
                self.wf(),
                self.memory == old(self).memory,
                self.i == old(self).i,
                self.pc == old(self).pc,
                self.screen == old(self).screen,
                self.stack == old(self).stack,
                self.delay_timer == old(self).delay_timer,
                self.sound_timer == old(self).sound_timer,
                forall|j: int| k <= j < 16 ==> self.v@[j] == old(self).v@[j],
                forall|j: int| 0 <= j < k ==> self.v@[j] == self.memory@[self.i + j],
            decreases x + 1 - k,
        {
            self.v[k] = self.memory[self.i + k];
            k += 1;
        }
        proof {
            assert(final(self)@.v =~= spec_load_regs(old(self)@, x as int));
            assert(final(self)@ =~= (Machine {
                v: spec_load_regs(old(self)@, x as int),
                ..old(self)@
            }));
        }
    }
}

impl Chip8 {
    /// The framebuffer: 2048 cells, row-major, each 0 or 1.
    pub fn screen(&self) -> (r: &Vec<u8>)
        ensures
            r@ == self@.screen,
    {
        &self.screen
    }

    /// One framebuffer cell, by column and row.
    pub fn pixel(&self, col: usize, row: usize) -> (r: u8)
        requires
            self.wf(),
            col < 64,
            row < 32,
        ensures
            r == self@.screen[cell_at(col as int, row as int)],
    {
        self.screen[row * 64 + col]
    }

    /// One general-purpose register.
    pub fn register(&self, x: usize) -> (r: u8)
        requires
            self.wf(),
            x < 16,
        ensures
            r == self@.v[x as int],
    {
        self.v[x]
    }

    /// The program counter.
    pub fn program_counter(&self) -> (r: usize)
        ensures
            r as int == self@.pc,
    {
        self.pc
    }

    /// The index register.
    pub fn index_register(&self) -> (r: usize)
        ensures
            r as int == self@.i,
    {
        self.i
    }

    /// One byte of memory.
    pub fn memory_at(&self, addr: usize) -> (r: u8)
        requires
            self.wf(),
            addr < 4096,
        ensures
            r == self@.mem[addr as int],
    {
        self.memory[addr]
    }

    /// The delay timer.
    pub fn delay_timer(&self) -> (r: u8)
        ensures
            r == self@.delay,
    {
        self.delay_timer
    }

    /// The sound timer.
    pub fn sound_timer(&self) -> (r: u8)
        ensures
            r == self@.sound,
    {
        self.sound_timer
    }

    /// How many return addresses are on the call stack.
    pub fn stack_depth(&self) -> (r: usize)
        ensures
            r as int == self@.stack.len(),
    {
        self.stack.len()
    }
}

/// A well-formed interpreter views as a well-formed abstract machine, so
/// the laws proved over [`Machine`] apply to every reachable state.
pub proof fn lemma_wf_machine(c: &Chip8)
    requires
        c.wf(),
    ensures
        machine_wf(c@),
{
    assert forall|k: int| 0 <= k < c@.stack.len() implies c@.stack[k] >= 0 by {}
}

/// Relies on rand::random::<u8>, which draws a byte from the thread-local
/// generator; nothing is assumed about its value, so every caller is
/// verified for every byte it can hand back.
#[verifier::external_body]
fn random_byte() -> u8 {
    rand::random::<u8>()
}

/// The fields of two machine values shown equal pairwise make the values
/// equal: a convenience for the arithmetic group, whose cases each touch
/// only the register file.
proof fn machine_fields_eq(a: Machine, b: Machine)
    requires
        a.i == b.i,
        a.pc == b.pc,
        a.mem == b.mem,
        a.screen == b.screen,
        a.stack == b.stack,
        a.delay == b.delay,
        a.sound == b.sound,
    ensures
        a == (Machine { v: a.v, ..b }),
{
    assert(a =~= (Machine { v: a.v, ..b }));
}

} // verus!

