//! The instruction set, the opcode decoder as a pure function, and the error
//! kinds the engine can report.

use vstd::prelude::*;

verus! {

/// Every instruction the machine understands. Register operands are nibble
/// indices into `V0..VF`; `nnn` operands are 12-bit addresses.
#[derive(Clone, Copy, Debug, PartialEq, Eq, Structural)]
pub enum Instruction {
    /// `00E0`: blank the framebuffer.
    Clear,
    /// `00EE`: pop the call stack into the program counter.
    Return,
    /// `1nnn`: jump to `nnn`.
    Jump(u16),
    /// `2nnn`: push the program counter, jump to `nnn`.
    Call(u16),
    /// `3xnn`: skip the next instruction if `Vx == nn`.
    SkipEq(u8, u8),
    /// `4xnn`: skip the next instruction if `Vx != nn`.
    SkipNe(u8, u8),
    /// `5xy0`: skip the next instruction if `Vx == Vy`.
    SkipEqReg(u8, u8),
    /// `9xy0`: skip the next instruction if `Vx != Vy`.
    SkipNeReg(u8, u8),
    /// `6xnn`: set `Vx = nn`.
    SetVal(u8, u8),
    /// `7xnn`: add `nn` to `Vx`, wrapping, flags untouched.
    Add(u8, u8),
    /// `8xy0`: set `Vx = Vy`.
    SetRegister(u8, u8),
    /// `8xy1`: set `Vx = Vx | Vy`.
    Or(u8, u8),
    /// `8xy2`: set `Vx = Vx & Vy`.
    And(u8, u8),
    /// `8xy3`: set `Vx = Vx ^ Vy`.
    Xor(u8, u8),
    /// `8xy4`: set `Vx = Vx + Vy` wrapping; `VF` becomes the carry.
    AddRegister(u8, u8),
    /// `8xy5`: `VF = (Vx >= Vy)`, then `Vx = Vx - Vy` wrapping.
    Subtract(u8, u8),
    /// `8xy7`: `VF = (Vy >= Vx)`, then `Vx = Vy - Vx` wrapping.
    SubtractInv(u8, u8),
    /// `8xy6`: set `Vx = Vy >> 1`; `VF` becomes the shifted-out low bit.
    RShift(u8, u8),
    /// `8xyE`: set `Vx = Vy << 1` wrapping; `VF` becomes the shifted-out high bit.
    LShift(u8, u8),
    /// `Annn`: set the index register to `nnn`.
    SetIndex(u16),
    /// `Bnnn`: jump to `nnn + V0`.
    JumpOffset(u16),
    /// `Cxnn`: set `Vx` to a random byte masked with `nn`.
    Random(u8, u8),
    /// `Dxyn`: XOR-draw the `n`-row sprite at `I` at `(Vx, Vy)`.
    Draw(u8, u8, u8),
    /// `Ex9E`: skip the next instruction if key `Vx & 0xF` is pressed.
    SkipIfKey(u8),
    /// `ExA1`: skip the next instruction if key `Vx & 0xF` is not pressed.
    SkipIfNotKey(u8),
    /// `Fx07`: set `Vx` to the delay timer.
    GetDelayTimer(u8),
    /// `Fx15`: set the delay timer to `Vx`.
    SetDelayTimer(u8),
    /// `Fx18`: set the sound timer to `Vx`.
    SetSoundTimer(u8),
    /// `Fx1E`: add `Vx` to the index register, wrapping at 16 bits.
    AddToIndex(u8),
    /// `Fx0A`: wait for a key press, then store the lowest pressed key in `Vx`.
    GetKey(u8),
    /// `Fx29`: point the index register at the font glyph for `Vx`.
    GetFontCharacter(u8),
    /// `Fx33`: store the decimal digits of `Vx` at `I`, `I+1`, `I+2`.
    BinaryToDecimal(u8),
    /// `Fx55`: copy `V0..=Vx` into memory starting at `I`.
    StoreMemory(u8),
    /// `Fx65`: copy memory starting at `I` into `V0..=Vx`.
    LoadMemory(u8),
}

/// What `step_cycle` and `run` can fail with, and what loading can reject.
#[derive(Clone, Copy, Debug, PartialEq, Eq, Structural)]
pub enum Chip8Error {
    /// The program image does not fit below the end of memory.
    RomLoadError,
    /// The fetched opcode matches no instruction; carries the raw opcode.
    UnknownOpcode(u16),
    /// A `Call` was attempted with 16 return addresses already stacked.
    CallStackOverflow,
    /// A `Return` was attempted with an empty call stack.
    CallStackUnderflow,
}

/// Operand bounds that decoding guarantees: register indices and nibble
/// counts below 16, addresses below 4096.
pub open spec fn instr_wf(ins: Instruction) -> bool {
    match ins {
        Instruction::Clear => true,
        Instruction::Return => true,
        Instruction::Jump(nnn) => nnn < 4096,
        Instruction::Call(nnn) => nnn < 4096,
        Instruction::SkipEq(x, nn) => x < 16,
        Instruction::SkipNe(x, nn) => x < 16,
        Instruction::SkipEqReg(x, y) => x < 16 && y < 16,
        Instruction::SkipNeReg(x, y) => x < 16 && y < 16,
        Instruction::SetVal(x, nn) => x < 16,
        Instruction::Add(x, nn) => x < 16,
        Instruction::SetRegister(x, y) => x < 16 && y < 16,
        Instruction::Or(x, y) => x < 16 && y < 16,
        Instruction::And(x, y) => x < 16 && y < 16,
        Instruction::Xor(x, y) => x < 16 && y < 16,
        Instruction::AddRegister(x, y) => x < 16 && y < 16,
        Instruction::Subtract(x, y) => x < 16 && y < 16,
        Instruction::SubtractInv(x, y) => x < 16 && y < 16,
        Instruction::RShift(x, y) => x < 16 && y < 16,
        Instruction::LShift(x, y) => x < 16 && y < 16,
        Instruction::SetIndex(nnn) => nnn < 4096,
        Instruction::JumpOffset(nnn) => nnn < 4096,
        Instruction::Random(x, nn) => x < 16,
        Instruction::Draw(x, y, n) => x < 16 && y < 16 && n < 16,
        Instruction::SkipIfKey(x) => x < 16,
        Instruction::SkipIfNotKey(x) => x < 16,
        Instruction::GetDelayTimer(x) => x < 16,
        Instruction::SetDelayTimer(x) => x < 16,
        Instruction::SetSoundTimer(x) => x < 16,
        Instruction::AddToIndex(x) => x < 16,
        Instruction::GetKey(x) => x < 16,
        Instruction::GetFontCharacter(x) => x < 16,
        Instruction::BinaryToDecimal(x) => x < 16,
        Instruction::StoreMemory(x) => x < 16,
        Instruction::LoadMemory(x) => x < 16,
    }
}

/// The opcode grammar. Nibbles of the big-endian word `op` are, high to low,
/// `op/4096`, `x`, `y`, `n`; `nn` is the low byte and `nnn` the low 12 bits.
/// `None` marks a word outside the grammar.
pub open spec fn spec_decode(op: u16) -> Option<Instruction> {
    let x = ((op / 256) % 16) as u8;
    let y = ((op / 16) % 16) as u8;
    let n = (op % 16) as u8;
    let nn = (op % 256) as u8;
    let nnn = op % 4096;
    if op / 4096 == 0 {
        if nn == 0xE0 {
            Some(Instruction::Clear)
        } else if nn == 0xEE {
            Some(Instruction::Return)
        } else {
            None
        }
    } else if op / 4096 == 1 {
        Some(Instruction::Jump(nnn))
    } else if op / 4096 == 2 {
        Some(Instruction::Call(nnn))
    } else if op / 4096 == 3 {
        Some(Instruction::SkipEq(x, nn))
    } else if op / 4096 == 4 {
        Some(Instruction::SkipNe(x, nn))
    } else if op / 4096 == 5 {
        Some(Instruction::SkipEqReg(x, y))
    } else if op / 4096 == 6 {
        Some(Instruction::SetVal(x, nn))
    } else if op / 4096 == 7 {
        Some(Instruction::Add(x, nn))
    } else if op / 4096 == 8 {
        if n == 0 {
            Some(Instruction::SetRegister(x, y))
        } else if n == 1 {
            Some(Instruction::Or(x, y))
        } else if n == 2 {
            Some(Instruction::And(x, y))
        } else if n == 3 {
            Some(Instruction::Xor(x, y))
        } else if n == 4 {
            Some(Instruction::AddRegister(x, y))
        } else if n == 5 {
            Some(Instruction::Subtract(x, y))
        } else if n == 6 {
            Some(Instruction::RShift(x, y))
        } else if n == 7 {
            Some(Instruction::SubtractInv(x, y))
        } else if n == 0xE {
            Some(Instruction::LShift(x, y))
        } else {
            None
        }
    } else if op / 4096 == 9 {
        Some(Instruction::SkipNeReg(x, y))
    } else if op / 4096 == 0xA {
        Some(Instruction::SetIndex(nnn))
    } else if op / 4096 == 0xB {
        Some(Instruction::JumpOffset(nnn))
    } else if op / 4096 == 0xC {
        Some(Instruction::Random(x, nn))
    } else if op / 4096 == 0xD {
        Some(Instruction::Draw(x, y, n))
    } else if op / 4096 == 0xE {
        if nn == 0x9E {
            Some(Instruction::SkipIfKey(x))
        } else if nn == 0xA1 {
            Some(Instruction::SkipIfNotKey(x))
        } else {
            None
        }
    } else {
        if nn == 0x07 {
            Some(Instruction::GetDelayTimer(x))
        } else if nn == 0x15 {
            Some(Instruction::SetDelayTimer(x))
        } else if nn == 0x18 {
            Some(Instruction::SetSoundTimer(x))
        } else if nn == 0x0A {
            Some(Instruction::GetKey(x))
        } else if nn == 0x29 {
            Some(Instruction::GetFontCharacter(x))
        } else if nn == 0x33 {
            Some(Instruction::BinaryToDecimal(x))
        } else if nn == 0x1E {
            Some(Instruction::AddToIndex(x))
        } else if nn == 0x55 {
            Some(Instruction::StoreMemory(x))
        } else if nn == 0x65 {
            Some(Instruction::LoadMemory(x))
        } else {
            None
        }
    }
}

/// Maps an opcode to its instruction, or to `UnknownOpcode` when the word is
/// outside the grammar.
pub fn decode(op: u16) -> (r: Result<Instruction, Chip8Error>)
    ensures
        (match spec_decode(op) {
            Some(ins) => r == Ok::<Instruction, Chip8Error>(ins),
            None => r == Err::<Instruction, Chip8Error>(Chip8Error::UnknownOpcode(op)),
        }),
        r matches Ok(ins) ==> instr_wf(ins),
{
    let x = ((op / 256) % 16) as u8;
    let y = ((op / 16) % 16) as u8;
    let n = (op % 16) as u8;
    let nn = (op % 256) as u8;
    let nnn = op % 4096;
    match op / 4096 {
        0x0 => match nn {
            0xE0 => Ok(Instruction::Clear),
            0xEE => Ok(Instruction::Return),
            _ => Err(Chip8Error::UnknownOpcode(op)),
        },
        0x1 => Ok(Instruction::Jump(nnn)),
        0x2 => Ok(Instruction::Call(nnn)),
        0x3 => Ok(Instruction::SkipEq(x, nn)),
        0x4 => Ok(Instruction::SkipNe(x, nn)),
        0x5 => Ok(Instruction::SkipEqReg(x, y)),
        0x6 => Ok(Instruction::SetVal(x, nn)),
        0x7 => Ok(Instruction::Add(x, nn)),
        0x8 => match n {
            0 => Ok(Instruction::SetRegister(x, y)),
            1 => Ok(Instruction::Or(x, y)),
            2 => Ok(Instruction::And(x, y)),
            3 => Ok(Instruction::Xor(x, y)),
            4 => Ok(Instruction::AddRegister(x, y)),
            5 => Ok(Instruction::Subtract(x, y)),
            6 => Ok(Instruction::RShift(x, y)),
            7 => Ok(Instruction::SubtractInv(x, y)),
            0xE => Ok(Instruction::LShift(x, y)),
            _ => Err(Chip8Error::UnknownOpcode(op)),
        },
        0x9 => Ok(Instruction::SkipNeReg(x, y)),
        0xA => Ok(Instruction::SetIndex(nnn)),
        0xB => Ok(Instruction::JumpOffset(nnn)),
        0xC => Ok(Instruction::Random(x, nn)),
        0xD => Ok(Instruction::Draw(x, y, n)),
        0xE => match nn {
            0x9E => Ok(Instruction::SkipIfKey(x)),
            0xA1 => Ok(Instruction::SkipIfNotKey(x)),
            _ => Err(Chip8Error::UnknownOpcode(op)),
        },
        _ => match nn {
            0x07 => Ok(Instruction::GetDelayTimer(x)),
            0x15 => Ok(Instruction::SetDelayTimer(x)),
            0x18 => Ok(Instruction::SetSoundTimer(x)),
            0x0A => Ok(Instruction::GetKey(x)),
            0x29 => Ok(Instruction::GetFontCharacter(x)),
            0x33 => Ok(Instruction::BinaryToDecimal(x)),
            0x1E => Ok(Instruction::AddToIndex(x)),
            0x55 => Ok(Instruction::StoreMemory(x)),
            0x65 => Ok(Instruction::LoadMemory(x)),
            _ => Err(Chip8Error::UnknownOpcode(op)),
        },
    }
}

} // verus!
