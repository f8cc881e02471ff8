//! The execution engine: fetch, decode, execute, and the cycle-stepping API.
//!
//! Every transition is specified by a pure function over [`MachineState`];
//! the executable engine is proved to implement it. The one source of
//! nondeterminism, the random byte of `Cxnn`, enters [`Chip8::step_cycle`] as
//! an argument, so that transition is deterministic and fully pinned down;
//! [`Chip8::run`] draws the bytes from the thread's generator.

use vstd::prelude::*;

use crate::instr::{Chip8Error, Instruction, instr_wf, spec_decode, decode};
use crate::state::{
    Chip8, MachineState, wf_state, DISPLAY_CELLS, DISPLAY_WIDTH, DISPLAY_HEIGHT, FONT_START,
    MEMORY_SIZE, NUM_KEYS, STACK_LIMIT,
};

verus! {

/// `a` reduced to 16 bits.
pub open spec fn wrap16(a: int) -> u16 {
    (a % 0x10000) as u16
}

/// `a` reduced to 8 bits.
pub open spec fn wrap8(a: int) -> u8 {
    (a % 256) as u8
}

/// True when bit `k` of `b` is set, bit 0 being the least significant.
pub open spec fn bit_of(b: u8, k: int) -> bool {
    if k == 0 {
        b % 2 == 1
    } else if k == 1 {
        b / 2 % 2 == 1
    } else if k == 2 {
        b / 4 % 2 == 1
    } else if k == 3 {
        b / 8 % 2 == 1
    } else if k == 4 {
        b / 16 % 2 == 1
    } else if k == 5 {
        b / 32 % 2 == 1
    } else if k == 6 {
        b / 64 % 2 == 1
    } else if k == 7 {
        b / 128 % 2 == 1
    } else {
        false
    }
}

/// The pressed key with the lowest index at or above `k`, if any.
pub open spec fn first_pressed_from(keys: Seq<bool>, k: int) -> Option<u8>
    decreases NUM_KEYS - k,
{
    if k < 0 || k >= NUM_KEYS {
        None
    } else if keys[k] {
        Some(k as u8)
    } else {
        first_pressed_from(keys, k + 1)
    }
}

/// The pressed key with the lowest index, if any key is pressed.
pub open spec fn lowest_pressed_key(keys: Seq<bool>) -> Option<u8> {
    first_pressed_from(keys, 0)
}

/// The sprite bit that a draw of `rows` rows at origin `(x0, y0)` aims at
/// screen cell `(sx, sy)`: bit `sx - x0` from the left of sprite row
/// `sy - y0`. False for cells the sprite does not cover; cells past the
/// right or bottom edge are nobody's target, which is the clipping rule.
pub open spec fn sprite_bit(
    mem: Seq<u8>,
    i: u16,
    x0: int,
    y0: int,
    rows: int,
    sx: int,
    sy: int,
) -> bool {
    &&& x0 <= sx < x0 + 8
    &&& y0 <= sy < y0 + rows
    &&& bit_of(mem[(i + (sy - y0)) % (MEMORY_SIZE as int)], 7 - (sx - x0))
}

/// The framebuffer after a draw: every covered cell is XOR-toggled with its
/// sprite bit.
pub open spec fn draw_display(
    d: Seq<bool>,
    mem: Seq<u8>,
    i: u16,
    x0: int,
    y0: int,
    rows: int,
) -> Seq<bool> {
    Seq::new(
        d.len(),
        |p: int| d[p] ^ sprite_bit(mem, i, x0, y0, rows, p % (DISPLAY_WIDTH as int), p / (
        DISPLAY_WIDTH as int)),
    )
}

/// True when a draw over `d` would toggle some cell that is already lit.
pub open spec fn collides_at(
    d: Seq<bool>,
    mem: Seq<u8>,
    i: u16,
    x0: int,
    y0: int,
    rows: int,
    p: int,
) -> bool {
    &&& 0 <= p < d.len()
    &&& d[p]
    &&& sprite_bit(mem, i, x0, y0, rows, p % (DISPLAY_WIDTH as int), p / (DISPLAY_WIDTH as int))
}

/// True when a draw over `d` hits at least one lit cell (the collision flag).
pub open spec fn draw_collision(
    d: Seq<bool>,
    mem: Seq<u8>,
    i: u16,
    x0: int,
    y0: int,
    rows: int,
) -> bool {
    exists|p: int| collides_at(d, mem, i, x0, y0, rows, p)
}

/// Memory after registers `V0..V(count-1)` are stored at `I`, low register
/// first, addresses reduced to 12 bits.
pub open spec fn store_regs(mem: Seq<u8>, i: u16, v: Seq<u8>, count: nat) -> Seq<u8>
    decreases count,
{
    if count == 0 {
        mem
    } else {
        store_regs(mem, i, v, (count - 1) as nat).update(
            (i + count - 1) % (MEMORY_SIZE as int),
            v[count - 1],
        )
    }
}

/// Registers after memory at `I` is copied into `V0..V(count-1)`, low
/// register first, addresses reduced to 12 bits.
pub open spec fn load_regs(v: Seq<u8>, mem: Seq<u8>, i: u16, count: nat) -> Seq<u8>
    decreases count,
{
    if count == 0 {
        v
    } else {
        load_regs(v, mem, i, (count - 1) as nat).update(
            count - 1,
            mem[(i + count - 1) % (MEMORY_SIZE as int)],
        )
    }
}

/// The effect of one instruction on the machine, or the error it stops with.
/// `rnd` is the byte the `Random` instruction masks; every other instruction
/// ignores it. An instruction that fails changes nothing. Opaque: proofs
/// about a particular instruction reveal it.
#[verifier::opaque]
pub open spec fn spec_execute(s: MachineState, ins: Instruction, rnd: u8) -> Result<
    MachineState,
    Chip8Error,
> {
    match ins {
        Instruction::Clear => Ok(
            MachineState {
                display: Seq::new(DISPLAY_CELLS as nat, |p: int| false),
                dirty: true,
                ..s
            },
        ),
        Instruction::Return => if s.stack.len() == 0 {
            Err(Chip8Error::CallStackUnderflow)
        } else {
            Ok(MachineState { pc: s.stack.last(), stack: s.stack.drop_last(), ..s })
        },
        Instruction::Jump(nnn) => Ok(MachineState { pc: nnn, ..s }),
        Instruction::Call(nnn) => if s.stack.len() >= STACK_LIMIT {
            Err(Chip8Error::CallStackOverflow)
        } else {
            Ok(MachineState { stack: s.stack.push(s.pc), pc: nnn, ..s })
        },
        Instruction::SkipEq(x, nn) => Ok(
            MachineState {
                pc: if s.v[x as int] == nn {
                    wrap16(s.pc + 2)
                } else {
                    s.pc
                },
                ..s
            },
        ),
        Instruction::SkipNe(x, nn) => Ok(
            MachineState {
                pc: if s.v[x as int] != nn {
                    wrap16(s.pc + 2)
                } else {
                    s.pc
                },
                ..s
            },
        ),
        Instruction::SkipEqReg(x, y) => Ok(
            MachineState {
                pc: if s.v[x as int] == s.v[y as int] {
                    wrap16(s.pc + 2)
                } else {
                    s.pc
                },
                ..s
            },
        ),
        Instruction::SkipNeReg(x, y) => Ok(
            MachineState {
                pc: if s.v[x as int] != s.v[y as int] {
                    wrap16(s.pc + 2)
                } else {
                    s.pc
                },
                ..s
            },
        ),
        Instruction::SetVal(x, nn) => Ok(MachineState { v: s.v.update(x as int, nn), ..s }),
        Instruction::Add(x, nn) => Ok(
            MachineState { v: s.v.update(x as int, wrap8(s.v[x as int] + nn)), ..s },
        ),
        Instruction::SetRegister(x, y) => Ok(
            MachineState { v: s.v.update(x as int, s.v[y as int]), ..s },
        ),
        Instruction::Or(x, y) => Ok(
            MachineState { v: s.v.update(x as int, s.v[x as int] | s.v[y as int]), ..s },
        ),
        Instruction::And(x, y) => Ok(
            MachineState { v: s.v.update(x as int, s.v[x as int] & s.v[y as int]), ..s },
        ),
        Instruction::Xor(x, y) => Ok(
            MachineState { v: s.v.update(x as int, s.v[x as int] ^ s.v[y as int]), ..s },
        ),
        Instruction::AddRegister(x, y) => {
            let sum = s.v[x as int] + s.v[y as int];
            Ok(
                MachineState {
                    v: s.v.update(x as int, wrap8(sum)).update(
                        15,
                        if sum > 255 {
                            1u8
                        } else {
                            0u8
                        },
                    ),
                    ..s
                },
            )
        },
        Instruction::Subtract(x, y) => {
            let v1 = s.v.update(
                15,
                if s.v[x as int] >= s.v[y as int] {
                    1u8
                } else {
                    0u8
                },
            );
            Ok(
                MachineState {
                    v: v1.update(x as int, wrap8(v1[x as int] + 256 - v1[y as int])),
                    ..s
                },
            )
        },
        Instruction::SubtractInv(x, y) => {
            let v1 = s.v.update(
                15,
                if s.v[y as int] >= s.v[x as int] {
                    1u8
                } else {
                    0u8
                },
            );
            Ok(
                MachineState {
                    v: v1.update(x as int, wrap8(v1[y as int] + 256 - v1[x as int])),
                    ..s
                },
            )
        },
        Instruction::RShift(x, y) => {
            let vy = s.v[y as int];
            Ok(MachineState { v: s.v.update(x as int, vy / 2).update(15, vy % 2), ..s })
        },
        Instruction::LShift(x, y) => {
            let vy = s.v[y as int];
            Ok(MachineState { v: s.v.update(x as int, wrap8(vy * 2)).update(15, vy / 128), ..s })
        },
        Instruction::SetIndex(nnn) => Ok(MachineState { index: nnn, ..s }),
        Instruction::JumpOffset(nnn) => Ok(MachineState { pc: wrap16(nnn + s.v[0]), ..s }),
        Instruction::Random(x, nn) => Ok(MachineState { v: s.v.update(x as int, rnd & nn), ..s }),
        Instruction::Draw(x, y, n) => {
            let x0 = (s.v[x as int] % (DISPLAY_WIDTH as u8)) as int;
            let y0 = (s.v[y as int] % (DISPLAY_HEIGHT as u8)) as int;
            let coll = draw_collision(s.display, s.memory, s.index, x0, y0, n as int);
            Ok(
                MachineState {
                    display: draw_display(s.display, s.memory, s.index, x0, y0, n as int),
                    v: s.v.update(
                        15,
                        if coll {
                            1u8
                        } else {
                            0u8
                        },
                    ),
                    dirty: true,
                    ..s
                },
            )
        },
        Instruction::SkipIfKey(x) => Ok(
            MachineState {
                pc: if s.keys[(s.v[x as int] % 16) as int] {
                    wrap16(s.pc + 2)
                } else {
                    s.pc
                },
                ..s
            },
        ),
        Instruction::SkipIfNotKey(x) => Ok(
            MachineState {
                pc: if !s.keys[(s.v[x as int] % 16) as int] {
                    wrap16(s.pc + 2)
                } else {
                    s.pc
                },
                ..s
            },
        ),
        Instruction::GetDelayTimer(x) => Ok(MachineState { v: s.v.update(x as int, s.delay), ..s }),
        Instruction::SetDelayTimer(x) => Ok(MachineState { delay: s.v[x as int], ..s }),
        Instruction::SetSoundTimer(x) => Ok(MachineState { sound: s.v[x as int], ..s }),
        Instruction::AddToIndex(x) => Ok(
            MachineState { index: wrap16(s.index + s.v[x as int]), ..s },
        ),
        Instruction::GetKey(x) => match lowest_pressed_key(s.keys) {
            Some(k) => Ok(
                MachineState { v: s.v.update(x as int, k), waiting_for_key: None, ..s },
            ),
            None => Ok(MachineState { pc: wrap16(s.pc - 2), waiting_for_key: Some(x), ..s }),
        },
        Instruction::GetFontCharacter(x) => Ok(
            MachineState { index: (FONT_START + s.v[x as int] * 5) as u16, ..s },
        ),
        Instruction::BinaryToDecimal(x) => {
            let val = s.v[x as int];
            Ok(
                MachineState {
                    memory: s.memory.update(s.index as int % (MEMORY_SIZE as int), val / 100).update(
                        (s.index + 1) % (MEMORY_SIZE as int),
                        val / 10 % 10,
                    ).update((s.index + 2) % (MEMORY_SIZE as int), val % 10),
                    ..s
                },
            )
        },
        Instruction::StoreMemory(x) => Ok(
            MachineState { memory: store_regs(s.memory, s.index, s.v, (x + 1) as nat), ..s },
        ),
        Instruction::LoadMemory(x) => Ok(
            MachineState { v: load_regs(s.v, s.memory, s.index, (x + 1) as nat), ..s },
        ),
    }
}

/// The opcode fetched at the program counter: two bytes, big-endian, each
/// address reduced to 12 bits.
pub open spec fn spec_fetch_opcode(s: MachineState) -> u16 {
    (s.memory[s.pc as int % (MEMORY_SIZE as int)] * 256 + s.memory[(s.pc + 1) % (
    MEMORY_SIZE as int)]) as u16
}

/// The machine after a fetch: the program counter two past where it was,
/// wrapping at 16 bits.
pub open spec fn spec_fetch_state(s: MachineState) -> MachineState {
    MachineState { pc: wrap16(s.pc + 2), ..s }
}

/// What one cycle leaves behind: the machine, and the error it stopped with
/// if the opcode was unknown or a stack bound was violated.
pub ghost struct StepOutcome {
    pub state: MachineState,
    pub error: Option<Chip8Error>,
}

/// One full cycle: fetch, decode, execute. A decode or execute failure
/// leaves the post-fetch machine and reports the error.
pub open spec fn spec_cycle(s: MachineState, rnd: u8) -> StepOutcome {
    let op = spec_fetch_opcode(s);
    let s1 = spec_fetch_state(s);
    match spec_decode(op) {
        None => StepOutcome { state: s1, error: Some(Chip8Error::UnknownOpcode(op)) },
        Some(ins) => match spec_execute(s1, ins, rnd) {
            Ok(s2) => StepOutcome { state: s2, error: None },
            Err(e) => StepOutcome { state: s1, error: Some(e) },
        },
    }
}

/// Up to `ticks` cycles, the `t`-th cycle masking with `rnds[t]`: stops
/// early at the first error, or as soon as a cycle ends in a key wait.
pub open spec fn spec_run(s: MachineState, ticks: nat, rnds: Seq<u8>) -> StepOutcome
    decreases ticks,
{
    if ticks == 0 {
        StepOutcome { state: s, error: None }
    } else {
        let o = spec_cycle(s, rnds[0]);
        if o.error is Some {
            o
        } else if o.state.waiting_for_key is Some {
            o
        } else {
            spec_run(o.state, (ticks - 1) as nat, rnds.drop_first())
        }
    }
}

impl Chip8 {
    /// Reads the two-byte opcode at the program counter (each byte's address
    /// reduced to 12 bits) and advances the counter, wrapping at 16 bits.
    fn fetch(&mut self) -> (op: u16)
        requires
            old(self).wf(),
        ensures
            final(self).wf(),
            op == spec_fetch_opcode(old(self)@),
            final(self)@ == spec_fetch_state(old(self)@),
    {
        let p = self.pc() as usize;
        let hi = self.mem_byte(p % MEMORY_SIZE);
        let lo = self.mem_byte((p + 1) % MEMORY_SIZE);
        self.set_pc(((p + 2) % 0x10000) as u16);
        (hi as u16) * 256 + (lo as u16)
    }

    /// The pressed key with the lowest index, scanning `0x0` upward.
    fn lowest_pressed(&self) -> (r: Option<u8>)
        requires
            self.wf(),
        ensures
            r == lowest_pressed_key(self@.keys),
    {
        let mut k: usize = 0;
        while k < NUM_KEYS
            invariant
                self.wf(),
                k <= NUM_KEYS,
                lowest_pressed_key(self@.keys) == first_pressed_from(self@.keys, k as int),
            decreases NUM_KEYS - k,
        {
            if self.key_pressed(k) {
                return Some(k as u8);
            }
            k = k + 1;
        }
        None
    }

    /// Bit `k` of `b`, bit 0 the least significant.
    fn byte_bit(b: u8, k: u8) -> (r: bool)
        requires
            k < 8,
        ensures
            r == bit_of(b, k as int),
    {
        match k {
            0 => b % 2 == 1,
            1 => b / 2 % 2 == 1,
            2 => b / 4 % 2 == 1,
            3 => b / 8 % 2 == 1,
            4 => b / 16 % 2 == 1,
            5 => b / 32 % 2 == 1,
            6 => b / 64 % 2 == 1,
            _ => b / 128 % 2 == 1,
        }
    }

    /// Runs one decoded instruction. On `Err` the machine is unchanged; the
    /// program counter already points past the instruction (fetch moved it).
    fn execute(&mut self, ins: Instruction, rnd: u8) -> (r: Result<(), Chip8Error>)
        requires
            old(self).wf(),
            instr_wf(ins),
        ensures
            final(self).wf(),
            (match spec_execute(old(self)@, ins, rnd) {
                Ok(s2) => r == Ok::<(), Chip8Error>(()) && final(self)@ == s2,
                Err(e) => r == Err::<(), Chip8Error>(e) && final(self)@ == old(self)@,
            }),
    {
        proof {
            reveal(spec_execute);
        }
        match ins {
            Instruction::Clear => {
                self.clear_display();
                self.mark_dirty();
                Ok(())
            },
            Instruction::Return => {
                if self.stack_depth() == 0 {
                    return Err(Chip8Error::CallStackUnderflow);
                }
                let addr = self.pop_return_addr();
                self.set_pc(addr);
                Ok(())
            },
            Instruction::Jump(nnn) => {
                self.set_pc(nnn);
                Ok(())
            },
            Instruction::Call(nnn) => {
                if self.stack_depth() >= STACK_LIMIT {
                    return Err(Chip8Error::CallStackOverflow);
                }
                let here = self.pc();
                self.push_return_addr(here);
                self.set_pc(nnn);
                Ok(())
            },
            Instruction::SkipEq(x, nn) => {
                if self.register(x as usize) == nn {
                    self.bump_pc();
                }
                Ok(())
            },
            Instruction::SkipNe(x, nn) => {
                if self.register(x as usize) != nn {
                    self.bump_pc();
                }
                Ok(())
            },
            Instruction::SkipEqReg(x, y) => {
                if self.register(x as usize) == self.register(y as usize) {
                    self.bump_pc();
                }
                Ok(())
            },
            Instruction::SkipNeReg(x, y) => {
                if self.register(x as usize) != self.register(y as usize) {
                    self.bump_pc();
                }
                Ok(())
            },
            Instruction::SetVal(x, nn) => {
                self.set_reg(x as usize, nn);
                Ok(())
            },
            Instruction::Add(x, nn) => {
                let sum = self.register(x as usize) as u16 + nn as u16;
                self.set_reg(x as usize, (sum % 256) as u8);
                Ok(())
            },
            Instruction::SetRegister(x, y) => {
                let vy = self.register(y as usize);
                self.set_reg(x as usize, vy);
                Ok(())
            },
            Instruction::Or(x, y) => {
                let val = self.register(x as usize) | self.register(y as usize);
                self.set_reg(x as usize, val);
                Ok(())
            },
            Instruction::And(x, y) => {
                let val = self.register(x as usize) & self.register(y as usize);
                self.set_reg(x as usize, val);
                Ok(())
            },
            Instruction::Xor(x, y) => {
                let val = self.register(x as usize) ^ self.register(y as usize);
                self.set_reg(x as usize, val);
                Ok(())
            },
            Instruction::AddRegister(x, y) => {
                let sum = self.register(x as usize) as u16 + self.register(y as usize) as u16;
                self.set_reg(x as usize, (sum % 256) as u8);
                self.set_reg(15, if sum > 255 { 1 } else { 0 });
                Ok(())
            },
            Instruction::Subtract(x, y) => {
                let flag: u8 = if self.register(x as usize) >= self.register(y as usize) {
                    1
                } else {
                    0
                };
                self.set_reg(15, flag);
                let a = self.register(x as usize) as u16;
                let b = self.register(y as usize) as u16;
                self.set_reg(x as usize, ((a + 256 - b) % 256) as u8);
                Ok(())
            },
            Instruction::SubtractInv(x, y) => {
                let flag: u8 = if self.register(y as usize) >= self.register(x as usize) {
                    1
                } else {
                    0
                };
                self.set_reg(15, flag);
                let a = self.register(x as usize) as u16;
                let b = self.register(y as usize) as u16;
                self.set_reg(x as usize, ((b + 256 - a) % 256) as u8);
                Ok(())
            },
            Instruction::RShift(x, y) => {
                let vy = self.register(y as usize);
                self.set_reg(x as usize, vy / 2);
                self.set_reg(15, vy % 2);
                Ok(())
            },
            Instruction::LShift(x, y) => {
                let vy = self.register(y as usize);
                self.set_reg(x as usize, ((vy as u16 * 2) % 256) as u8);
                self.set_reg(15, vy / 128);
                Ok(())
            },
            Instruction::SetIndex(nnn) => {
                self.set_index(nnn);
                Ok(())
            },
            Instruction::JumpOffset(nnn) => {
                let target = (nnn as u32 + self.register(0) as u32) % 0x10000;
                self.set_pc(target as u16);
                Ok(())
            },
            Instruction::Random(x, nn) => {
                self.set_reg(x as usize, rnd & nn);
                Ok(())
            },
            Instruction::Draw(x, y, n) => {
                self.exec_draw(x, y, n);
                Ok(())
            },
            Instruction::SkipIfKey(x) => {
                let key = (self.register(x as usize) % 16) as usize;
                if self.key_pressed(key) {
                    self.bump_pc();
                }
                Ok(())
            },
            Instruction::SkipIfNotKey(x) => {
                let key = (self.register(x as usize) % 16) as usize;
                if !self.key_pressed(key) {
                    self.bump_pc();
                }
                Ok(())
            },
            Instruction::GetDelayTimer(x) => {
                let t = self.delay_timer();
                self.set_reg(x as usize, t);
                Ok(())
            },
            Instruction::SetDelayTimer(x) => {
                let t = self.register(x as usize);
                self.set_delay(t);
                Ok(())
            },
            Instruction::SetSoundTimer(x) => {
                let t = self.register(x as usize);
                self.set_sound(t);
                Ok(())
            },
            Instruction::AddToIndex(x) => {
                let ni = (self.index_register() as u32 + self.register(x as usize) as u32)
                    % 0x10000;
                self.set_index(ni as u16);
                Ok(())
            },
            Instruction::GetKey(x) => {
                match self.lowest_pressed() {
                    Some(k) => {
                        self.set_reg(x as usize, k);
                        self.set_waiting(None);
                    },
                    None => {
                        self.set_waiting(Some(x));
                        let back = (self.pc() as u32 + 0x10000 - 2) % 0x10000;
                        self.set_pc(back as u16);
                        proof {
                            vstd::arithmetic::div_mod::lemma_mod_add_multiples_vanish(
                                old(self)@.pc - 2,
                                0x10000,
                            );
                        }
                    },
                }
                Ok(())
            },
            Instruction::GetFontCharacter(x) => {
                let glyph = FONT_START as u16 + self.register(x as usize) as u16 * 5;
                self.set_index(glyph);
                Ok(())
            },
            Instruction::BinaryToDecimal(x) => {
                let val = self.register(x as usize);
                let i0 = self.index_register() as usize;
                self.set_mem_byte(i0 % MEMORY_SIZE, val / 100);
                self.set_mem_byte((i0 + 1) % MEMORY_SIZE, val / 10 % 10);
                self.set_mem_byte((i0 + 2) % MEMORY_SIZE, val % 10);
                Ok(())
            },
            Instruction::StoreMemory(x) => {
                self.exec_store(x);
                Ok(())
            },
            Instruction::LoadMemory(x) => {
                self.exec_load(x);
                Ok(())
            },
        }
    }

    /// Advances the program counter over one instruction (a skip), wrapping
    /// at 16 bits.
    fn bump_pc(&mut self)
        requires
            old(self).wf(),
        ensures
            final(self).wf(),
            final(self)@ == (MachineState { pc: wrap16(old(self)@.pc + 2), ..old(self)@ }),
    {
        let next = (self.pc() as u32 + 2) % 0x10000;
        self.set_pc(next as u16);
    }

    /// Copies `V0..=Vx` into memory starting at `I`, addresses reduced to
    /// 12 bits.
    fn exec_store(&mut self, x: u8)
        requires
            old(self).wf(),
            x < 16,
        ensures
            final(self).wf(),
            final(self)@ == (MachineState {
                memory: store_regs(old(self)@.memory, old(self)@.index, old(self)@.v, (x + 1) as nat),
                ..old(self)@
            }),
    {
        let mut j: usize = 0;
        while j <= x as usize
            invariant
                self.wf(),
                x < 16,
                j <= x + 1,
                self@ == (MachineState {
                    memory: store_regs(old(self)@.memory, old(self)@.index, old(self)@.v, j as nat),
                    ..old(self)@
                }),
            decreases x + 1 - j,
        {
            let addr = (self.index_register() as usize + j) % MEMORY_SIZE;
            let vj = self.register(j);
            self.set_mem_byte(addr, vj);
            j = j + 1;
        }
    }

    /// Copies memory starting at `I` into `V0..=Vx`, addresses reduced to
    /// 12 bits.
    fn exec_load(&mut self, x: u8)
        requires
            old(self).wf(),
            x < 16,
        ensures
            final(self).wf(),
            final(self)@ == (MachineState {
                v: load_regs(old(self)@.v, old(self)@.memory, old(self)@.index, (x + 1) as nat),
                ..old(self)@
            }),
    {
        let mut j: usize = 0;
        while j <= x as usize
            invariant
                self.wf(),
                x < 16,
                j <= x + 1,
                self@ == (MachineState {
                    v: load_regs(old(self)@.v, old(self)@.memory, old(self)@.index, j as nat),
                    ..old(self)@
                }),
            decreases x + 1 - j,
        {
            let addr = (self.index_register() as usize + j) % MEMORY_SIZE;
            let byte = self.mem_byte(addr);
            self.set_reg(j, byte);
            j = j + 1;
        }
    }

    /// XOR-draws the `n`-row sprite at `I` at origin `(Vx mod 64, Vy mod 32)`,
    /// clipping at the screen edges; `VF` becomes the collision flag and the
    /// framebuffer is marked dirty.
    fn exec_draw(&mut self, x: u8, y: u8, n: u8)
        requires
            old(self).wf(),
            x < 16,
            y < 16,
            n < 16,
        ensures
            final(self).wf(),
            final(self)@ == ({
                let s = old(self)@;
                let x0 = (s.v[x as int] % (DISPLAY_WIDTH as u8)) as int;
                let y0 = (s.v[y as int] % (DISPLAY_HEIGHT as u8)) as int;
                let coll = draw_collision(s.display, s.memory, s.index, x0, y0, n as int);
                MachineState {
                    display: draw_display(s.display, s.memory, s.index, x0, y0, n as int),
                    v: s.v.update(
                        15,
                        if coll {
                            1u8
                        } else {
                            0u8
                        },
                    ),
                    dirty: true,
                    ..s
                }
            }),
    {
        let x0 = self.register(x as usize) % (DISPLAY_WIDTH as u8);
        let y0 = self.register(y as usize) % (DISPLAY_HEIGHT as u8);
        self.set_reg(15, 0);
        let ghost s = old(self)@;
        let ghost gx0 = x0 as int;
        let ghost gy0 = y0 as int;
        let mut row: u8 = 0;
        while row < n
            invariant
                self.wf(),
                x0 < DISPLAY_WIDTH,
                y0 < DISPLAY_HEIGHT,
                row <= n,
                n < 16,
                wf_state(s),
                gx0 == x0 as int,
                gy0 == y0 as int,
                self@ == (MachineState {
                    display: partial_display(s.display, s.memory, s.index, gx0, gy0, n as int,
                    row as int, 0),
                    v: s.v.update(
                        15,
                        if partial_collision(s.display, s.memory, s.index, gx0, gy0, n as int,
                        row as int, 0) {
                            1u8
                        } else {
                            0u8
                        },
                    ),
                    ..s
                }),
            decreases n - row,
        {
            let addr = (self.index_register() as usize + row as usize) % MEMORY_SIZE;
            let sprite_byte = self.mem_byte(addr);
            let mut col: u8 = 0;
            while col < 8
                invariant
                    self.wf(),
                    x0 < DISPLAY_WIDTH,
                    y0 < DISPLAY_HEIGHT,
                    row < n,
                    n < 16,
                    col <= 8,
                    wf_state(s),
                    gx0 == x0 as int,
                    gy0 == y0 as int,
                    sprite_byte == s.memory[(s.index + row) % (MEMORY_SIZE as int)],
                    self@ == (MachineState {
                        display: partial_display(s.display, s.memory, s.index, gx0, gy0, n as int,
                        row as int, col as int),
                        v: s.v.update(
                            15,
                            if partial_collision(s.display, s.memory, s.index, gx0, gy0, n as int,
                            row as int, col as int) {
                                1u8
                            } else {
                                0u8
                            },
                        ),
                        ..s
                    }),
                decreases 8 - col,
            {
                let sx = x0 as usize + col as usize;
                let sy = y0 as usize + row as usize;
                if sx < DISPLAY_WIDTH && sy < DISPLAY_HEIGHT {
                    let bit = Self::byte_bit(sprite_byte, 7 - col);
                    if bit {
                        let p = sy * DISPLAY_WIDTH + sx;
                        proof {
                            lemma_cell_coords(sx as int, sy as int);
                        }
                        let lit = self.display_cell(p);
                        if lit {
                            self.set_reg(15, 1);
                        }
                        self.set_display_cell(p, !lit);
                    }
                }
                proof {
                    lemma_draw_step(
                        s,
                        gx0,
                        gy0,
                        n as int,
                        row as int,
                        col as int,
                    );
                    assert(self@.display =~= partial_display(s.display, s.memory, s.index, gx0,
                    gy0, n as int, row as int, col as int + 1));
                    assert(self@.v =~= s.v.update(
                        15,
                        if partial_collision(s.display, s.memory, s.index, gx0, gy0, n as int,
                        row as int, col as int + 1) {
                            1u8
                        } else {
                            0u8
                        },
                    ));
                }
                col = col + 1;
            }
            proof {
                assert(partial_display(s.display, s.memory, s.index, gx0, gy0, n as int,
                row as int + 1, 0) =~= partial_display(s.display, s.memory, s.index, gx0, gy0,
                n as int, row as int, 8));
                lemma_partial_collision_row_wrap(s, gx0, gy0, n as int, row as int);
            }
            row = row + 1;
        }
        self.mark_dirty();
        proof {
            assert(partial_display(s.display, s.memory, s.index, gx0, gy0, n as int, n as int, 0)
                =~= draw_display(s.display, s.memory, s.index, gx0, gy0, n as int));
            lemma_partial_collision_full(s, gx0, gy0, n as int);
            assert(self@ =~= ({
                let coll = draw_collision(s.display, s.memory, s.index, gx0, gy0, n as int);
                MachineState {
                    display: draw_display(s.display, s.memory, s.index, gx0, gy0, n as int),
                    v: s.v.update(
                        15,
                        if coll {
                            1u8
                        } else {
                            0u8
                        },
                    ),
                    dirty: true,
                    ..s
                }
            }));
        }
    }
}

/// True when the drawn random bytes `rnds` explain a `run` call: started at
/// `s0` with a budget of `ticks` cycles, the machine ends as `s1` and the
/// call returns `r`.
pub open spec fn run_outcome_matches(
    s0: MachineState,
    ticks: nat,
    rnds: Seq<u8>,
    s1: MachineState,
    r: Result<(), Chip8Error>,
) -> bool {
    &&& rnds.len() == ticks
    &&& ({
        let o = spec_run(s0, ticks, rnds);
        &&& s1 == o.state
        &&& (match o.error {
            None => r == Ok::<(), Chip8Error>(()),
            Some(e) => r == Err::<(), Chip8Error>(e),
        })
    })
}

/// A uniformly random byte for the `Cxnn` instruction.
///
/// Relies on `rand::random`, which samples the standard uniform
/// distribution from the thread-local generator; nothing is assumed of the
/// value, so callers hold for every byte that can come back.
#[verifier::external_body]
fn random_byte() -> u8 {
    rand::random::<u8>()
}

impl Chip8 {
    /// One deterministic cycle: fetch, decode, execute, with `rnd` as the
    /// byte a `Random` instruction masks. On `Err` the machine is left
    /// exactly as the fetch left it.
    pub fn step_cycle(&mut self, rnd: u8) -> (r: Result<(), Chip8Error>)
        requires
            old(self).wf(),
        ensures
            final(self).wf(),
            final(self)@ == spec_cycle(old(self)@, rnd).state,
            (match spec_cycle(old(self)@, rnd).error {
                None => r == Ok::<(), Chip8Error>(()),
                Some(e) => r == Err::<(), Chip8Error>(e),
            }),
    {
        let op = self.fetch();
        match decode(op) {
            Err(e) => Err(e),
            Ok(ins) => self.execute(ins, rnd),
        }
    }

    /// Up to `ticks` cycles, drawing each `Random` mask from the thread's
    /// generator. Stops at the first unknown opcode or stack fault with its
    /// error, and stops early the moment a cycle ends waiting on a key. The
    /// witness `rnds` carries the bytes that were drawn.
    pub fn run(&mut self, ticks: usize) -> (r: Result<(), Chip8Error>)
        requires
            old(self).wf(),
        ensures
            final(self).wf(),
            exists|rnds: Seq<u8>|
                #[trigger] run_outcome_matches(old(self)@, ticks as nat, rnds, final(self)@, r),
    {
        let ghost s0 = self@;
        let ghost mut rnds: Seq<u8> = Seq::empty();
        let mut t: usize = 0;
        while t < ticks
            invariant
                self.wf(),
                s0 == old(self)@,
                t <= ticks,
                rnds.len() == t,
                spec_run(s0, t as nat, rnds) == (StepOutcome { state: self@, error: None }),
                t > 0 ==> self@.waiting_for_key is None,
            decreases ticks - t,
        {
            let rnd = random_byte();
            proof {
                lemma_run_snoc(s0, t as nat, rnds, rnd);
            }
            let ghost pre = self@;
            let res = self.step_cycle(rnd);
            proof {
                rnds = rnds.push(rnd);
            }
            t = t + 1;
            match res {
                Err(e) => {
                    proof {
                        let rnds2 = rnds + Seq::new((ticks - t) as nat, |i: int| 0u8);
                        assert(rnds2.subrange(0, t as int) =~= rnds);
                        lemma_run_stopped_extension(s0, t as nat, ticks as nat, rnds, rnds2);
                        assert(run_outcome_matches(s0, ticks as nat, rnds2, self@, Err(e)));
                    }
                    return Err(e);
                },
                Ok(_) => {},
            }
            let waiting = match self.waiting_register() {
                Some(_) => true,
                None => false,
            };
            if waiting {
                proof {
                    let rnds2 = rnds + Seq::new((ticks - t) as nat, |i: int| 0u8);
                    assert(rnds2.subrange(0, t as int) =~= rnds);
                    lemma_run_stopped_extension(s0, t as nat, ticks as nat, rnds, rnds2);
                    assert(run_outcome_matches(s0, ticks as nat, rnds2, self@, Ok(())));
                }
                return Ok(());
            }
        }
        proof {
            assert(run_outcome_matches(s0, ticks as nat, rnds, self@, Ok(())));
        }
        Ok(())
    }
}

/// Running one more cycle after `t` cycles that neither failed nor ended in
/// a key wait is that cycle, run from where they left off.
proof fn lemma_run_snoc(s: MachineState, t: nat, rnds: Seq<u8>, r: u8)
    requires
        rnds.len() == t,
        spec_run(s, t, rnds).error is None,
        t > 0 ==> spec_run(s, t, rnds).state.waiting_for_key is None,
    ensures
        spec_run(s, t + 1, rnds.push(r)) == spec_cycle(spec_run(s, t, rnds).state, r),
    decreases t,
{
    if t == 0 {
        let o = spec_cycle(s, r);
        assert(rnds.push(r)[0] == r);
        if o.error is None && o.state.waiting_for_key is None {
            assert(spec_run(o.state, 0, rnds.push(r).drop_first()) == (StepOutcome {
                state: o.state,
                error: None,
            }));
            assert(o == (StepOutcome { state: o.state, error: None }));
        }
    } else {
        let c1 = spec_cycle(s, rnds[0]);
        assert(rnds.push(r)[0] == rnds[0]);
        assert(rnds.push(r).drop_first() =~= rnds.drop_first().push(r));
        lemma_run_snoc(c1.state, (t - 1) as nat, rnds.drop_first(), r);
    }
}

/// Once a run has stopped, on an error or on a key wait, granting it a
/// larger cycle budget changes nothing.
proof fn lemma_run_stopped_extension(
    s: MachineState,
    t: nat,
    ticks: nat,
    rnds: Seq<u8>,
    rnds2: Seq<u8>,
)
    requires
        1 <= t <= ticks,
        rnds.len() == t,
        rnds2.len() == ticks,
        rnds2.subrange(0, t as int) == rnds,
        spec_run(s, t, rnds).error is Some || spec_run(s, t, rnds).state.waiting_for_key is Some,
    ensures
        spec_run(s, ticks, rnds2) == spec_run(s, t, rnds),
    decreases t,
{
    assert(rnds2[0] == rnds[0]) by {
        assert(rnds2.subrange(0, t as int)[0] == rnds2[0]);
    };
    let c1 = spec_cycle(s, rnds[0]);
    if c1.error is Some || c1.state.waiting_for_key is Some {
    } else {
        if t == 1 {
            assert(spec_run(c1.state, 0, rnds.drop_first()) == (StepOutcome {
                state: c1.state,
                error: None,
            }));
        }
        assert(t > 1);
        assert(rnds2.drop_first().subrange(0, t - 1) =~= rnds.drop_first()) by {
            assert forall|j: int| 0 <= j < t - 1 implies rnds2.drop_first().subrange(0, t - 1)[j]
                == rnds.drop_first()[j] by {
                assert(rnds2.subrange(0, t as int)[j + 1] == rnds2[j + 1]);
            };
        };
        lemma_run_stopped_extension(
            c1.state,
            (t - 1) as nat,
            (ticks - 1) as nat,
            rnds.drop_first(),
            rnds2.drop_first(),
        );
    }
}

/// The sprite bit aimed at `(sx, sy)`, restricted to the part of the sprite
/// already processed: rows before `row`, plus columns before `col` of `row`.
pub open spec fn processed_bit(
    mem: Seq<u8>,
    i: u16,
    x0: int,
    y0: int,
    rows: int,
    row: int,
    col: int,
    sx: int,
    sy: int,
) -> bool {
    &&& sprite_bit(mem, i, x0, y0, rows, sx, sy)
    &&& (sy - y0 < row || (sy - y0 == row && sx - x0 < col))
}

/// The framebuffer part-way through a draw: cells covered by the processed
/// part of the sprite are already toggled, the rest untouched.
pub open spec fn partial_display(
    d: Seq<bool>,
    mem: Seq<u8>,
    i: u16,
    x0: int,
    y0: int,
    rows: int,
    row: int,
    col: int,
) -> Seq<bool> {
    Seq::new(
        d.len(),
        |p: int| d[p] ^ processed_bit(mem, i, x0, y0, rows, row, col, p % (DISPLAY_WIDTH as int),
        p / (DISPLAY_WIDTH as int)),
    )
}

/// A collision within the processed part of the sprite, at cell `p`.
pub open spec fn partial_collides_at(
    d: Seq<bool>,
    mem: Seq<u8>,
    i: u16,
    x0: int,
    y0: int,
    rows: int,
    row: int,
    col: int,
    p: int,
) -> bool {
    &&& 0 <= p < d.len()
    &&& d[p]
    &&& processed_bit(mem, i, x0, y0, rows, row, col, p % (DISPLAY_WIDTH as int), p / (
    DISPLAY_WIDTH as int))
}

/// Whether the processed part of the sprite has hit a lit cell.
pub open spec fn partial_collision(
    d: Seq<bool>,
    mem: Seq<u8>,
    i: u16,
    x0: int,
    y0: int,
    rows: int,
    row: int,
    col: int,
) -> bool {
    exists|p: int| partial_collides_at(d, mem, i, x0, y0, rows, row, col, p)
}

/// Row-major index arithmetic: the cell `sy * 64 + sx` decomposes back into
/// `(sx, sy)`.
proof fn lemma_cell_coords(sx: int, sy: int)
    requires
        0 <= sx < DISPLAY_WIDTH,
        0 <= sy < DISPLAY_HEIGHT,
    ensures
        0 <= sy * (DISPLAY_WIDTH as int) + sx < DISPLAY_CELLS,
        (sy * (DISPLAY_WIDTH as int) + sx) % (DISPLAY_WIDTH as int) == sx,
        (sy * (DISPLAY_WIDTH as int) + sx) / (DISPLAY_WIDTH as int) == sy,
{
    let w = DISPLAY_WIDTH as int;
    assert(sy * w + sx < DISPLAY_CELLS) by (nonlinear_arith)
        requires 0 <= sx < 64, 0 <= sy < 32, w == 64,
    ;
    assert((sy * w + sx) % w == sx && (sy * w + sx) / w == sy) by (nonlinear_arith)
        requires 0 <= sx < 64, 0 <= sy < 32, w == 64,
    ;
}

/// Processing one more sprite column extends the processed region by at most
/// the one cell `(x0 + col, y0 + row)`; every other cell's processed bit is
/// unchanged, and a collision in the larger region is a collision in the
/// smaller one or at that cell.
proof fn lemma_draw_step(s: MachineState, x0: int, y0: int, rows: int, row: int, col: int)
    requires
        wf_state(s),
        0 <= x0 < DISPLAY_WIDTH,
        0 <= y0 < DISPLAY_HEIGHT,
        0 <= row < rows,
        0 <= col < 8,
    ensures
        forall|sx: int, sy: int|
            !(sx == x0 + col && sy == y0 + row) ==> #[trigger] processed_bit(s.memory, s.index, x0,
            y0, rows, row, col + 1, sx, sy) == processed_bit(s.memory, s.index, x0, y0, rows, row,
            col, sx, sy),
        (x0 + col < DISPLAY_WIDTH && y0 + row < DISPLAY_HEIGHT) ==> (partial_collision(s.display,
        s.memory, s.index, x0, y0, rows, row, col + 1) == (partial_collision(s.display, s.memory,
        s.index, x0, y0, rows, row, col) || (s.display[(y0 + row) * (DISPLAY_WIDTH as int) + (x0 +
        col)] && sprite_bit(s.memory, s.index, x0, y0, rows, x0 + col, y0 + row)))),
        !(x0 + col < DISPLAY_WIDTH && y0 + row < DISPLAY_HEIGHT) ==> (partial_collision(s.display,
        s.memory, s.index, x0, y0, rows, row, col + 1) == partial_collision(s.display, s.memory,
        s.index, x0, y0, rows, row, col)),
{
    let w = DISPLAY_WIDTH as int;
    let d = s.display;
    let mem = s.memory;
    let i = s.index;
    let c1 = col + 1;
    let cx = x0 + col;
    let cy = y0 + row;
    if cx < DISPLAY_WIDTH && cy < DISPLAY_HEIGHT {
        let q = cy * w + cx;
        lemma_cell_coords(cx, cy);
        if partial_collision(d, mem, i, x0, y0, rows, row, c1) {
            let p = choose|p: int| partial_collides_at(d, mem, i, x0, y0, rows, row, c1, p);
            if p == q {
                if !(d[q] && sprite_bit(mem, i, x0, y0, rows, cx, cy)) {
                    assert(partial_collides_at(d, mem, i, x0, y0, rows, row, col, p));
                }
            } else {
                assert(!(p % w == cx && p / w == cy)) by {
                    if p % w == cx && p / w == cy {
                        vstd::arithmetic::div_mod::lemma_fundamental_div_mod(p, w);
                    }
                };
                assert(partial_collides_at(d, mem, i, x0, y0, rows, row, col, p));
            }
        }
        if partial_collision(d, mem, i, x0, y0, rows, row, col) {
            let p = choose|p: int| partial_collides_at(d, mem, i, x0, y0, rows, row, col, p);
            assert(partial_collides_at(d, mem, i, x0, y0, rows, row, c1, p));
        }
        if d[q] && sprite_bit(mem, i, x0, y0, rows, cx, cy) {
            assert(partial_collides_at(d, mem, i, x0, y0, rows, row, c1, q));
        }
    } else {
        // The new cell is clipped: no framebuffer cell corresponds to it.
        assert forall|p: int| partial_collides_at(d, mem, i, x0, y0, rows, row, c1, p)
            implies partial_collides_at(d, mem, i, x0, y0, rows, row, col, p) by {
            if p % w == cx && p / w == cy {
                vstd::arithmetic::div_mod::lemma_fundamental_div_mod(p, w);
            }
        };
        assert forall|p: int| partial_collides_at(d, mem, i, x0, y0, rows, row, col, p)
            implies partial_collides_at(d, mem, i, x0, y0, rows, row, c1, p) by {};
    }
}

/// Finishing a row's eight columns is the same processed region as standing
/// at the start of the next row.
proof fn lemma_partial_collision_row_wrap(s: MachineState, x0: int, y0: int, rows: int, row: int)
    requires
        wf_state(s),
    ensures
        partial_collision(s.display, s.memory, s.index, x0, y0, rows, row + 1, 0)
            == partial_collision(s.display, s.memory, s.index, x0, y0, rows, row, 8),
{
    let d = s.display;
    let mem = s.memory;
    let i = s.index;
    let r1 = row + 1;
    if partial_collision(d, mem, i, x0, y0, rows, r1, 0) {
        let p = choose|p: int| partial_collides_at(d, mem, i, x0, y0, rows, r1, 0, p);
        assert(partial_collides_at(d, mem, i, x0, y0, rows, row, 8, p));
    }
    if partial_collision(d, mem, i, x0, y0, rows, row, 8) {
        let p = choose|p: int| partial_collides_at(d, mem, i, x0, y0, rows, row, 8, p);
        assert(partial_collides_at(d, mem, i, x0, y0, rows, r1, 0, p));
    }
}

/// Having processed all `rows` rows is the full draw.
proof fn lemma_partial_collision_full(s: MachineState, x0: int, y0: int, rows: int)
    requires
        wf_state(s),
    ensures
        partial_collision(s.display, s.memory, s.index, x0, y0, rows, rows, 0) == draw_collision(
            s.display,
            s.memory,
            s.index,
            x0,
            y0,
            rows,
        ),
{
    let d = s.display;
    let mem = s.memory;
    let i = s.index;
    if partial_collision(d, mem, i, x0, y0, rows, rows, 0) {
        let p = choose|p: int| partial_collides_at(d, mem, i, x0, y0, rows, rows, 0, p);
        assert(collides_at(d, mem, i, x0, y0, rows, p));
    }
    if draw_collision(d, mem, i, x0, y0, rows) {
        let p = choose|p: int| collides_at(d, mem, i, x0, y0, rows, p);
        assert(partial_collides_at(d, mem, i, x0, y0, rows, rows, 0, p));
    }
}

} // verus!
