//! The instruction set: decoded instruction forms and the decoder.
//!
//! An instruction word is one 16-bit value, fetched high byte first. It is
//! decoded by nibble pattern into one of the variants below; any pattern
//! outside the table decodes to [`Instr::Unknown`], which executes as a
//! no-op (deliberate leniency towards extended instruction sets).
use vstd::prelude::*;

verus! {

/// A decoded instruction. `x` and `y` are register indices (always below
/// 16, being nibbles), `n` a 4-bit immediate, `nn` an 8-bit immediate and
/// `nnn` a 12-bit address.
#[derive(Clone, Copy, PartialEq, Eq, Structural, Debug)]
pub enum Instr {
    /// 00E0: clear the framebuffer.
    Cls,
    /// 00EE: return from a subroutine.
    Ret,
    /// 1nnn: jump to `nnn`.
    Jump { nnn: u16 },
    /// 2nnn: call the subroutine at `nnn`.
    Call { nnn: u16 },
    /// 3xnn: skip the next instruction if `v[x] == nn`.
    SkipEqImm { x: u8, nn: u8 },
    /// 4xnn: skip the next instruction if `v[x] != nn`.
    SkipNeImm { x: u8, nn: u8 },
    /// 5xy0: skip the next instruction if `v[x] == v[y]`.
    SkipEqReg { x: u8, y: u8 },
    /// 6xnn: set `v[x] = nn`.
    LoadImm { x: u8, nn: u8 },
    /// 7xnn: set `v[x] = v[x] + nn` (8-bit wraparound, no flag).
    AddImm { x: u8, nn: u8 },
    /// 8xy0: set `v[x] = v[y]`.
    Move { x: u8, y: u8 },
    /// 8xy1: set `v[x] = v[x] | v[y]`.
    Or { x: u8, y: u8 },
    /// 8xy2: set `v[x] = v[x] & v[y]`.
    And { x: u8, y: u8 },
    /// 8xy3: set `v[x] = v[x] ^ v[y]`.
    Xor { x: u8, y: u8 },
    /// 8xy4: set `v[x] = v[x] + v[y]`, flag = carry.
    AddReg { x: u8, y: u8 },
    /// 8xy5: flag = `v[x] > v[y]`, then `v[x] = v[x] - v[y]` (wraparound).
    SubReg { x: u8, y: u8 },
    /// 8x06: flag = low bit of `v[x]`, then halve `v[x]`.
    ShiftRight { x: u8 },
    /// 8xy7: flag = `v[y] > v[x]`, then `v[x] = v[y] - v[x]` (wraparound).
    SubFrom { x: u8, y: u8 },
    /// 8x0E: flag = high bit of `v[x]`, then double `v[x]`.
    ShiftLeft { x: u8 },
    /// 9xy0: skip the next instruction if `v[x] != v[y]`.
    SkipNeReg { x: u8, y: u8 },
    /// Annn: set the index register to `nnn`.
    LoadIndex { nnn: u16 },
    /// Bnnn: jump to `nnn + v[0]`.
    JumpOffset { nnn: u16 },
    /// Cxnn: set `v[x]` to a random byte masked with `nn`.
    Random { x: u8, nn: u8 },
    /// Dxyn: draw the `n`-row sprite at `memory[i..]` at `(v[x], v[y])`.
    Draw { x: u8, y: u8, n: u8 },
    /// Ex9E: skip the next instruction if key `v[x]` is pressed.
    SkipKey { x: u8 },
    /// ExA1: skip the next instruction if key `v[x]` is not pressed.
    SkipNoKey { x: u8 },
    /// Fx07: set `v[x]` to the delay timer.
    ReadDelay { x: u8 },
    /// Fx0A: wait for a key press, storing the key in `v[x]`.
    WaitKey { x: u8 },
    /// Fx15: set the delay timer to `v[x]`.
    SetDelay { x: u8 },
    /// Fx18: set the sound timer to `v[x]`.
    SetSound { x: u8 },
    /// Fx1E: add `v[x]` to the index register.
    AddIndex { x: u8 },
    /// Fx29: point the index register at the font glyph for `v[x]`.
    LoadGlyph { x: u8 },
    /// Fx33: store the decimal digits of `v[x]` at `memory[i..i+3]`.
    StoreBcd { x: u8 },
    /// Fx55: copy `v[0..=x]` into `memory[i..]`.
    StoreRegs { x: u8 },
    /// Fx65: load `v[0..=x]` from `memory[i..]`.
    LoadRegs { x: u8 },
    /// Any pattern outside the table: executes as a no-op.
    Unknown,
}

/// What a 16-bit instruction word decodes to.
pub open spec fn spec_decode(w: u16) -> Instr {
    let family = w / 0x1000;
    let x = ((w / 0x100) % 0x10) as u8;
    let y = ((w / 0x10) % 0x10) as u8;
    let n = (w % 0x10) as u8;
    let nn = (w % 0x100) as u8;
    let nnn = w % 0x1000;
    if w == 0x00E0 {
        Instr::Cls
    } else if w == 0x00EE {
        Instr::Ret
    } else if family == 0x1 {
        Instr::Jump { nnn }
    } else if family == 0x2 {
        Instr::Call { nnn }
    } else if family == 0x3 {
        Instr::SkipEqImm { x, nn }
    } else if family == 0x4 {
        Instr::SkipNeImm { x, nn }
    } else if family == 0x5 && n == 0 {
        Instr::SkipEqReg { x, y }
    } else if family == 0x6 {
        Instr::LoadImm { x, nn }
    } else if family == 0x7 {
        Instr::AddImm { x, nn }
    } else if family == 0x8 {
        if n == 0x0 {
            Instr::Move { x, y }
        } else if n == 0x1 {
            Instr::Or { x, y }
        } else if n == 0x2 {
            Instr::And { x, y }
        } else if n == 0x3 {
            Instr::Xor { x, y }
        } else if n == 0x4 {
            Instr::AddReg { x, y }
        } else if n == 0x5 {
            Instr::SubReg { x, y }
        } else if n == 0x6 {
            Instr::ShiftRight { x }
        } else if n == 0x7 {
            Instr::SubFrom { x, y }
        } else if n == 0xE {
            Instr::ShiftLeft { x }
        } else {
            Instr::Unknown
        }
    } else if family == 0x9 && n == 0 {
        Instr::SkipNeReg { x, y }
    } else if family == 0xA {
        Instr::LoadIndex { nnn }
    } else if family == 0xB {
        Instr::JumpOffset { nnn }
    } else if family == 0xC {
        Instr::Random { x, nn }
    } else if family == 0xD {
        Instr::Draw { x, y, n }
    } else if family == 0xE && nn == 0x9E {
        Instr::SkipKey { x }
    } else if family == 0xE && nn == 0xA1 {
        Instr::SkipNoKey { x }
    } else if family == 0xF {
        if nn == 0x07 {
            Instr::ReadDelay { x }
        } else if nn == 0x0A {
            Instr::WaitKey { x }
        } else if nn == 0x15 {
            Instr::SetDelay { x }
        } else if nn == 0x18 {
            Instr::SetSound { x }
        } else if nn == 0x1E {
            Instr::AddIndex { x }
        } else if nn == 0x29 {
            Instr::LoadGlyph { x }
        } else if nn == 0x33 {
            Instr::StoreBcd { x }
        } else if nn == 0x55 {
            Instr::StoreRegs { x }
        } else if nn == 0x65 {
            Instr::LoadRegs { x }
        } else {
            Instr::Unknown
        }
    } else {
        Instr::Unknown
    }
}

/// Decode one instruction word by its nibble pattern.
pub fn decode(w: u16) -> (ins: Instr)
    ensures
        ins == spec_decode(w),
{
    let family = w / 0x1000;
    let x = ((w / 0x100) % 0x10) as u8;
    let y = ((w / 0x10) % 0x10) as u8;
    let n = (w % 0x10) as u8;
    let nn = (w % 0x100) as u8;
    let nnn = w % 0x1000;
    if w == 0x00E0 {
        Instr::Cls
    } else if w == 0x00EE {
        Instr::Ret
    } else if family == 0x1 {
        Instr::Jump { nnn }
    } else if family == 0x2 {
        Instr::Call { nnn }
    } else if family == 0x3 {
        Instr::SkipEqImm { x, nn }
    } else if family == 0x4 {
        Instr::SkipNeImm { x, nn }
    } else if family == 0x5 && n == 0 {
        Instr::SkipEqReg { x, y }
    } else if family == 0x6 {
        Instr::LoadImm { x, nn }
    } else if family == 0x7 {
        Instr::AddImm { x, nn }
    } else if family == 0x8 {
        if n == 0x0 {
            Instr::Move { x, y }
        } else if n == 0x1 {
            Instr::Or { x, y }
        } else if n == 0x2 {
            Instr::And { x, y }
        } else if n == 0x3 {
            Instr::Xor { x, y }
        } else if n == 0x4 {
            Instr::AddReg { x, y }
        } else if n == 0x5 {
            Instr::SubReg { x, y }
        } else if n == 0x6 {
            Instr::ShiftRight { x }
        } else if n == 0x7 {
            Instr::SubFrom { x, y }
        } else if n == 0xE {
            Instr::ShiftLeft { x }
        } else {
            Instr::Unknown
        }
    } else if family == 0x9 && n == 0 {
        Instr::SkipNeReg { x, y }
    } else if family == 0xA {
        Instr::LoadIndex { nnn }
    } else if family == 0xB {
        Instr::JumpOffset { nnn }
    } else if family == 0xC {
        Instr::Random { x, nn }
    } else if family == 0xD {
        Instr::Draw { x, y, n }
    } else if family == 0xE && nn == 0x9E {
        Instr::SkipKey { x }
    } else if family == 0xE && nn == 0xA1 {
        Instr::SkipNoKey { x }
    } else if family == 0xF {
        if nn == 0x07 {
            Instr::ReadDelay { x }
        } else if nn == 0x0A {
            Instr::WaitKey { x }
        } else if nn == 0x15 {
            Instr::SetDelay { x }
        } else if nn == 0x18 {
            Instr::SetSound { x }
        } else if nn == 0x1E {
            Instr::AddIndex { x }
        } else if nn == 0x29 {
            Instr::LoadGlyph { x }
        } else if nn == 0x33 {
            Instr::StoreBcd { x }
        } else if nn == 0x55 {
            Instr::StoreRegs { x }
        } else if nn == 0x65 {
            Instr::LoadRegs { x }
        } else {
            Instr::Unknown
        }
    } else {
        Instr::Unknown
    }
}

} // verus!
