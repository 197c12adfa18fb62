//! Decoding of 16-bit instruction words.
use vstd::prelude::*;

verus! {

/// A decoded instruction. Register operands are not part of it: see
/// [`reg_x`] and [`reg_y`].
#[derive(PartialEq, Eq, Structural, Clone, Copy, Debug)]
pub enum Opcode {
    /// 00E0: clear the display.
    ClearScreen,
    /// 00EE: return from a subroutine.
    Return,
    /// 1nnn: jump to nnn.
    JumpToAddress(u16),
    /// 2nnn: call the subroutine at nnn.
    CallAddress(u16),
    /// 3xkk: skip the next instruction if Vx == kk.
    SkipIfRegEqualsByte(u8),
    /// 4xkk: skip the next instruction if Vx != kk.
    SkipIfRegNotEqualsByte(u8),
    /// 5xy0: skip the next instruction if Vx == Vy.
    SkipIfRegEqualsReg,
    /// 6xkk: Vx = kk.
    LoadByteIntoReg(u8),
    /// 7xkk: Vx += kk, wrapping, flag untouched.
    AddByteToReg(u8),
    /// 8xy0: Vx = Vy.
    LoadRegIntoReg,
    /// 8xy1: Vx |= Vy.
    OrRegWithReg,
    /// 8xy2: Vx &= Vy.
    AndRegWithReg,
    /// 8xy3: Vx ^= Vy.
    XorRegWithReg,
    /// 8xy4: Vx += Vy, VF = carry.
    AddRegToReg,
    /// 8xy5: Vx -= Vy, VF = no borrow.
    SubtractRegFromReg,
    /// 8xy6: Vx >>= 1, VF = the bit shifted out.
    ShiftRight,
    /// 8xy7: Vx = Vy - Vx, VF = no borrow.
    SubstractRegFromOtherReg,
    /// 8xyE: Vx <<= 1, VF = the bit shifted out.
    ShiftLeft,
    /// 9xy0: skip the next instruction if Vx != Vy.
    SkipIfRegNotEqualsReg,
    /// Annn: I = nnn.
    LoadIndex(u16),
    /// Bnnn: jump to nnn + V0.
    JumpToAddressPlusV0(u16),
    /// Cxkk: Vx = random byte AND kk.
    RandomByte(u8),
    /// Dxyn: draw the n-byte sprite at I at (Vx, Vy), VF = collision.
    DrawSprite(u8),
    /// Ex9E: skip the next instruction if key Vx is down.
    SkipIfKeyPressed,
    /// ExA1: skip the next instruction if key Vx is up.
    SkipIfKeyNotPressed,
    /// Fx07: Vx = DT.
    LoadDelayTimerIntoReg,
    /// Fx0A: wait for a key press and put the key in Vx.
    LoadKeyIntoReg,
    /// Fx15: DT = Vx.
    LoadRegIntoDelayTimer,
    /// Fx18: ST = Vx.
    LoadRegIntoSoundTimer,
    /// Fx1E: I += Vx, wrapping, flag untouched.
    AddRegToIndex,
    /// Fx29: I = address of the font glyph for Vx.
    LoadFontIntoReg,
    /// Fx33: the decimal digits of Vx at I, I+1, I+2.
    LoadBCDIntoMem,
    /// Fx55: V0..VF to memory at I.
    StoreRegsIntoMem,
    /// Fx65: V0..VF from memory at I.
    LoadRegsFromMem,
    /// Any word that is none of the above.
    Unknown,
}

/// The first register operand: bits 8 to 11.
pub open spec fn reg_x(w: u16) -> u8 {
    ((w & 0x0F00) >> 8) as u8
}

/// The second register operand: bits 4 to 7.
pub open spec fn reg_y(w: u16) -> u8 {
    ((w & 0x00F0) >> 4) as u8
}

/// The operation a word encodes.
pub open spec fn decode(w: u16) -> Opcode {
    let kk = (w & 0x00FF) as u8;
    let n = (w & 0x000F) as u8;
    let nnn = w & 0x0FFF;
    let family = w & 0xF000;
    if family == 0x0000 {
        if kk == 0xE0 {
            Opcode::ClearScreen
        } else if kk == 0xEE {
            Opcode::Return
        } else {
            Opcode::Unknown
        }
    } else if family == 0x1000 {
        Opcode::JumpToAddress(nnn)
    } else if family == 0x2000 {
        Opcode::CallAddress(nnn)
    } else if family == 0x3000 {
        Opcode::SkipIfRegEqualsByte(kk)
    } else if family == 0x4000 {
        Opcode::SkipIfRegNotEqualsByte(kk)
    } else if family == 0x5000 {
        Opcode::SkipIfRegEqualsReg
    } else if family == 0x6000 {
        Opcode::LoadByteIntoReg(kk)
    } else if family == 0x7000 {
        Opcode::AddByteToReg(kk)
    } else if family == 0x8000 {
        if n == 0x0 {
            Opcode::LoadRegIntoReg
        } else if n == 0x1 {
            Opcode::OrRegWithReg
        } else if n == 0x2 {
            Opcode::AndRegWithReg
        } else if n == 0x3 {
            Opcode::XorRegWithReg
        } else if n == 0x4 {
            Opcode::AddRegToReg
        } else if n == 0x5 {
            Opcode::SubtractRegFromReg
        } else if n == 0x6 {
            Opcode::ShiftRight
        } else if n == 0x7 {
            Opcode::SubstractRegFromOtherReg
        } else if n == 0xE {
            Opcode::ShiftLeft
        } else {
            Opcode::Unknown
        }
    } else if family == 0x9000 {
        Opcode::SkipIfRegNotEqualsReg
    } else if family == 0xA000 {
        Opcode::LoadIndex(nnn)
    } else if family == 0xB000 {
        Opcode::JumpToAddressPlusV0(nnn)
    } else if family == 0xC000 {
        Opcode::RandomByte(kk)
    } else if family == 0xD000 {
        Opcode::DrawSprite(n)
    } else if family == 0xE000 {
        if kk == 0x9E {
            Opcode::SkipIfKeyPressed
        } else if kk == 0xA1 {
            Opcode::SkipIfKeyNotPressed
        } else {
            Opcode::Unknown
        }
    } else {
        if kk == 0x07 {
            Opcode::LoadDelayTimerIntoReg
        } else if kk == 0x0A {
            Opcode::LoadKeyIntoReg
        } else if kk == 0x15 {
            Opcode::LoadRegIntoDelayTimer
        } else if kk == 0x18 {
            Opcode::LoadRegIntoSoundTimer
        } else if kk == 0x1E {
            Opcode::AddRegToIndex
        } else if kk == 0x29 {
            Opcode::LoadFontIntoReg
        } else if kk == 0x33 {
            Opcode::LoadBCDIntoMem
        } else if kk == 0x55 {
            Opcode::StoreRegsIntoMem
        } else if kk == 0x65 {
            Opcode::LoadRegsFromMem
        } else {
            Opcode::Unknown
        }
    }
}

/// Splits a word into its operation and its two register operands, which are
/// extracted whether the operation uses them or not.
pub fn parse_opcode(opcode: u16) -> (r: (Opcode, u8, u8))
    ensures
        r.0 == decode(opcode),
        r.1 == reg_x(opcode),
        r.2 == reg_y(opcode),
        r.1 < 16,
        r.2 < 16,
{
    let reg_x = ((opcode & 0x0F00) >> 8) as u8;
    let reg_y = ((opcode & 0x00F0) >> 4) as u8;
    let k = (opcode & 0x00FF) as u8;
    let n = (opcode & 0x000F) as u8;
    let addr = opcode & 0x0FFF;
    proof {
        assert((opcode & 0x0F00) >> 8 < 16) by (bit_vector);
        assert((opcode & 0x00F0) >> 4 < 16) by (bit_vector);
        assert(opcode & 0xF000 == 0x0000 || opcode & 0xF000 == 0x1000 || opcode & 0xF000 == 0x2000
            || opcode & 0xF000 == 0x3000 || opcode & 0xF000 == 0x4000 || opcode & 0xF000 == 0x5000
            || opcode & 0xF000 == 0x6000 || opcode & 0xF000 == 0x7000 || opcode & 0xF000 == 0x8000
            || opcode & 0xF000 == 0x9000 || opcode & 0xF000 == 0xA000 || opcode & 0xF000 == 0xB000
            || opcode & 0xF000 == 0xC000 || opcode & 0xF000 == 0xD000 || opcode & 0xF000 == 0xE000
            || opcode & 0xF000 == 0xF000) by (bit_vector);
    }
    let parsed = match opcode & 0xF000 {
        0x0000 => match k {
            0xE0 => Opcode::ClearScreen,
            0xEE => Opcode::Return,
            _ => Opcode::Unknown,
        },
        0x1000 => Opcode::JumpToAddress(addr),
        0x2000 => Opcode::CallAddress(addr),
        0x3000 => Opcode::SkipIfRegEqualsByte(k),
        0x4000 => Opcode::SkipIfRegNotEqualsByte(k),
        0x5000 => Opcode::SkipIfRegEqualsReg,
        0x6000 => Opcode::LoadByteIntoReg(k),
        0x7000 => Opcode::AddByteToReg(k),
        0x8000 => match n {
            0x0 => Opcode::LoadRegIntoReg,
            0x1 => Opcode::OrRegWithReg,
            0x2 => Opcode::AndRegWithReg,
            0x3 => Opcode::XorRegWithReg,
            0x4 => Opcode::AddRegToReg,
            0x5 => Opcode::SubtractRegFromReg,
            0x6 => Opcode::ShiftRight,
            0x7 => Opcode::SubstractRegFromOtherReg,
            0xE => Opcode::ShiftLeft,
            _ => Opcode::Unknown,
        },
        0x9000 => Opcode::SkipIfRegNotEqualsReg,
        0xA000 => Opcode::LoadIndex(addr),
        0xB000 => Opcode::JumpToAddressPlusV0(addr),
        0xC000 => Opcode::RandomByte(k),
        0xD000 => Opcode::DrawSprite(n),
        0xE000 => match k {
            0x9E => Opcode::SkipIfKeyPressed,
            0xA1 => Opcode::SkipIfKeyNotPressed,
            _ => Opcode::Unknown,
        },
        _ => match k {
            0x07 => Opcode::LoadDelayTimerIntoReg,
            0x0A => Opcode::LoadKeyIntoReg,
            0x15 => Opcode::LoadRegIntoDelayTimer,
            0x18 => Opcode::LoadRegIntoSoundTimer,
            0x1E => Opcode::AddRegToIndex,
            0x29 => Opcode::LoadFontIntoReg,
            0x33 => Opcode::LoadBCDIntoMem,
            0x55 => Opcode::StoreRegsIntoMem,
            0x65 => Opcode::LoadRegsFromMem,
            _ => Opcode::Unknown,
        },
    };
    (parsed, reg_x, reg_y)
}

} // verus!
