//! The machine state: memory, registers, call stack, timers, framebuffer and
//! keypad, together with the mathematical model ([`MachineState`]) that every
//! contract in this crate speaks of.

use vstd::prelude::*;

use crate::instr::Chip8Error;

verus! {

/// Bytes of addressable memory.
pub const MEMORY_SIZE: usize = 4096;
/// Framebuffer width in pixels.
pub const DISPLAY_WIDTH: usize = 64;
/// Framebuffer height in pixels.
pub const DISPLAY_HEIGHT: usize = 32;
/// Number of cells in the (row-major) framebuffer.
pub const DISPLAY_CELLS: usize = 2048;
/// First address of the built-in font table.
pub const FONT_START: usize = 0x050;
/// Length of the built-in font table: 16 glyphs of 5 bytes each.
pub const FONT_BYTES: usize = 80;
/// Address at which a program image is loaded and at which it starts.
pub const ROM_START: usize = 0x200;
/// Maximum number of return addresses the call stack holds.
pub const STACK_LIMIT: usize = 16;
/// Number of general-purpose registers (`V0` through `VF`).
pub const NUM_REGISTERS: usize = 16;
/// Number of keys on the keypad.
pub const NUM_KEYS: usize = 16;

/// The abstract machine: each field of [`Chip8`] as a mathematical value.
/// The framebuffer is row-major, pixel `(x, y)` at index `y * 64 + x`.
#[verifier::ext_equal]
pub ghost struct MachineState {
    pub memory: Seq<u8>,
    pub pc: u16,
    pub index: u16,
    pub stack: Seq<u16>,
    pub delay: u8,
    pub sound: u8,
    pub v: Seq<u8>,
    pub display: Seq<bool>,
    pub dirty: bool,
    pub keys: Seq<bool>,
    pub waiting_for_key: Option<u8>,
}

/// Shape every reachable machine keeps: fixed sizes, a bounded call stack,
/// and a register index behind any pending key wait.
pub open spec fn wf_state(s: MachineState) -> bool {
    &&& s.memory.len() == MEMORY_SIZE
    &&& s.v.len() == NUM_REGISTERS
    &&& s.stack.len() <= STACK_LIMIT
    &&& s.display.len() == DISPLAY_CELLS
    &&& s.keys.len() == NUM_KEYS
    &&& (s.waiting_for_key matches Some(x) ==> x < 16)
}

/// The built-in font table: 16 glyphs (digits 0 through F), 5 bytes each.
pub open spec fn font_table() -> Seq<u8> {
    seq![
        0xF0u8, 0x90, 0x90, 0x90, 0xF0, // 0
        0x20, 0x60, 0x20, 0x20, 0x70, // 1
        0xF0, 0x10, 0xF0, 0x80, 0xF0, // 2
        0xF0, 0x10, 0xF0, 0x10, 0xF0, // 3
        0x90, 0x90, 0xF0, 0x10, 0x10, // 4
        0xF0, 0x80, 0xF0, 0x10, 0xF0, // 5
        0xF0, 0x80, 0xF0, 0x90, 0xF0, // 6
        0xF0, 0x10, 0x20, 0x40, 0x40, // 7
        0xF0, 0x90, 0xF0, 0x90, 0xF0, // 8
        0xF0, 0x90, 0xF0, 0x10, 0xF0, // 9
        0xF0, 0x90, 0xF0, 0x90, 0x90, // A
        0xE0, 0x90, 0xE0, 0x90, 0xE0, // B
        0xF0, 0x80, 0x80, 0x80, 0xF0, // C
        0xE0, 0x90, 0x90, 0x90, 0xE0, // D
        0xF0, 0x80, 0xF0, 0x80, 0xF0, // E
        0xF0, 0x80, 0xF0, 0x80, 0x80, // F
    ]
}

/// Memory right after construction: all zero but for the font table.
pub open spec fn initial_memory() -> Seq<u8> {
    Seq::new(
        MEMORY_SIZE as nat,
        |a: int|
            if FONT_START <= a < FONT_START + FONT_BYTES {
                font_table()[a - FONT_START]
            } else {
                0u8
            },
    )
}

/// Memory after a program image `rom` is copied in at `ROM_START`.
pub open spec fn loaded_memory(mem: Seq<u8>, rom: Seq<u8>) -> Seq<u8> {
    Seq::new(
        mem.len(),
        |a: int|
            if ROM_START <= a < ROM_START + rom.len() {
                rom[a - ROM_START]
            } else {
                mem[a]
            },
    )
}

/// One 60 Hz tick of a countdown timer: decrement, floored at zero.
pub open spec fn ticked(t: u8) -> u8 {
    if t > 0 {
        (t - 1) as u8
    } else {
        0u8
    }
}

/// The non-zero memory cells below `upto`, in address order, as
/// `(address, value)` pairs.
pub open spec fn nonzero_cells(mem: Seq<u8>, upto: int) -> Seq<(u16, u8)>
    decreases upto,
{
    if upto <= 0 {
        Seq::empty()
    } else if mem[upto - 1] != 0 {
        nonzero_cells(mem, upto - 1) + seq![((upto - 1) as u16, mem[upto - 1])]
    } else {
        nonzero_cells(mem, upto - 1)
    }
}

/// The machine right after construction: font installed, everything else
/// zeroed, framebuffer blank but marked dirty so a renderer draws it once.
pub open spec fn initial_state() -> MachineState {
    MachineState {
        memory: initial_memory(),
        pc: 0u16,
        index: 0u16,
        stack: Seq::empty(),
        delay: 0u8,
        sound: 0u8,
        v: Seq::new(NUM_REGISTERS as nat, |i: int| 0u8),
        display: Seq::new(DISPLAY_CELLS as nat, |i: int| false),
        dirty: true,
        keys: Seq::new(NUM_KEYS as nat, |i: int| false),
        waiting_for_key: None,
    }
}

/// A CHIP-8 machine: 4096 bytes of memory, sixteen 8-bit registers, a
/// 16-entry call stack, two 60 Hz countdown timers, a 64 by 32 monochrome
/// framebuffer and a 16-key keypad snapshot.
pub struct Chip8 {
    memory: Vec<u8>,
    program_counter: u16,
    index: u16,
    stack: Vec<u16>,
    delay: u8,
    sound: u8,
    v: Vec<u8>,
    display: Vec<bool>,
    update_display: bool,
    keyboard: Vec<bool>,
    waiting_for_key: Option<u8>,
}

impl View for Chip8 {
    type V = MachineState;

    closed spec fn view(&self) -> MachineState {
        MachineState {
            memory: self.memory@,
            pc: self.program_counter,
            index: self.index,
            stack: self.stack@,
            delay: self.delay,
            sound: self.sound,
            v: self.v@,
            display: self.display@,
            dirty: self.update_display,
            keys: self.keyboard@,
            waiting_for_key: self.waiting_for_key,
        }
    }
}

/// A vector of `n` copies of `val`.
fn filled<T: Copy>(n: usize, val: T) -> (r: Vec<T>)
    ensures
        r@ == Seq::new(n as nat, |i: int| val),
{
    let mut r: Vec<T> = Vec::new();
    let mut i: usize = 0;
    while i < n
        invariant
            i <= n,
            r@ == Seq::new(i as nat, |j: int| val),
        decreases n - i,
    {
        r.push(val);
        i = i + 1;
        proof {
            assert(r@ =~= Seq::new(i as nat, |j: int| val));
        }
    }
    r
}

/// The font table as a vector, in glyph order.
fn font_bytes() -> (r: Vec<u8>)
    ensures
        r@ == font_table(),
{
    let r: Vec<u8> = vec![
        0xF0u8, 0x90, 0x90, 0x90, 0xF0, // 0
        0x20, 0x60, 0x20, 0x20, 0x70, // 1
        0xF0, 0x10, 0xF0, 0x80, 0xF0, // 2
        0xF0, 0x10, 0xF0, 0x10, 0xF0, // 3
        0x90, 0x90, 0xF0, 0x10, 0x10, // 4
        0xF0, 0x80, 0xF0, 0x10, 0xF0, // 5
        0xF0, 0x80, 0xF0, 0x90, 0xF0, // 6
        0xF0, 0x10, 0x20, 0x40, 0x40, // 7
        0xF0, 0x90, 0xF0, 0x90, 0xF0, // 8
        0xF0, 0x90, 0xF0, 0x10, 0xF0, // 9
        0xF0, 0x90, 0xF0, 0x90, 0x90, // A
        0xE0, 0x90, 0xE0, 0x90, 0xE0, // B
        0xF0, 0x80, 0x80, 0x80, 0xF0, // C
        0xE0, 0x90, 0x90, 0x90, 0xE0, // D
        0xF0, 0x80, 0xF0, 0x80, 0xF0, // E
        0xF0, 0x80, 0xF0, 0x80, 0x80, // F
    ];
    proof {
        assert(r@ =~= font_table());
    }
    r
}

impl Chip8 {
    /// Well-formedness of the machine, stated over its model.
    pub open spec fn wf(&self) -> bool {
        wf_state(self@)
    }

    /// A fresh machine: font installed at `FONT_START`, all other state zero,
    /// blank framebuffer marked dirty.
    pub fn new() -> (c: Chip8)
        ensures
            c.wf(),
            c@ == initial_state(),
    {
        let mut memory = filled::<u8>(MEMORY_SIZE, 0);
        let font = font_bytes();
        let mut k: usize = 0;
        while k < FONT_BYTES
            invariant
                k <= FONT_BYTES,
                font@ == font_table(),
                memory@.len() == MEMORY_SIZE,
                forall|a: int|
                    0 <= a < MEMORY_SIZE && !(FONT_START <= a < FONT_START + k) ==> memory@[a]
                        == 0u8,
                forall|a: int|
                    FONT_START <= a < FONT_START + k ==> memory@[a] == font_table()[a - FONT_START],
            decreases FONT_BYTES - k,
    {
            memory.set(FONT_START + k, font[k]);
            k = k + 1;
        }
        let c = Chip8 {
            memory,
            program_counter: 0,
            index: 0,
            stack: Vec::new(),
            delay: 0,
            sound: 0,
            v: filled::<u8>(NUM_REGISTERS, 0),
            display: filled::<bool>(DISPLAY_CELLS, false),
            update_display: true,
            keyboard: filled::<bool>(NUM_KEYS, false),
            waiting_for_key: None,
        };
        proof {
            assert(c@.memory =~= initial_memory());
            assert(c@ =~= initial_state());
        }
        c
    }

    /// Copies a program image into memory at `ROM_START` and points the
    /// program counter there. Rejects an image that does not fit below the
    /// end of memory, leaving the machine untouched.
    pub fn load_rom(&mut self, rom: &Vec<u8>) -> (r: Result<(), Chip8Error>)
        requires
            old(self).wf(),
        ensures
            final(self).wf(),
            rom@.len() <= MEMORY_SIZE - ROM_START ==> r == Ok::<(), Chip8Error>(()) && final(self)@
                == (MachineState {
                memory: loaded_memory(old(self)@.memory, rom@),
                pc: ROM_START as u16,
                ..old(self)@
            }),
            rom@.len() > MEMORY_SIZE - ROM_START ==> r == Err::<(), Chip8Error>(
                Chip8Error::RomLoadError,
            ) && final(self)@ == old(self)@,
    {
        if rom.len() > MEMORY_SIZE - ROM_START {
            return Err(Chip8Error::RomLoadError);
        }
        let mut j: usize = 0;
        while j < rom.len()
            invariant
                old(self).wf(),
                rom@.len() <= MEMORY_SIZE - ROM_START,
                j <= rom@.len(),
                self.memory@.len() == MEMORY_SIZE,
                forall|a: int|
                    ROM_START <= a < ROM_START + j ==> self.memory@[a] == rom@[a - ROM_START],
                forall|a: int|
                    0 <= a < MEMORY_SIZE && !(ROM_START <= a < ROM_START + j) ==> self.memory@[a]
                        == old(self)@.memory[a],
                self.program_counter == old(self).program_counter,
                self.index == old(self).index,
                self.stack@ == old(self).stack@,
                self.delay == old(self).delay,
                self.sound == old(self).sound,
                self.v@ == old(self).v@,
                self.display@ == old(self).display@,
                self.update_display == old(self).update_display,
                self.keyboard@ == old(self).keyboard@,
                self.waiting_for_key == old(self).waiting_for_key,
            decreases rom@.len() - j,
        {
            self.memory.set(ROM_START + j, rom[j]);
            j = j + 1;
        }
        self.program_counter = ROM_START as u16;
        proof {
            assert(self@.memory =~= loaded_memory(old(self)@.memory, rom@));
            assert(self@ =~= (MachineState {
                memory: loaded_memory(old(self)@.memory, rom@),
                pc: ROM_START as u16,
                ..old(self)@
            }));
        }
        Ok(())
    }

    /// One 60 Hz tick: each timer counts down by one, floored at zero.
    pub fn tick_timers(&mut self)
        requires
            old(self).wf(),
        ensures
            final(self).wf(),
            final(self)@ == (MachineState {
                delay: ticked(old(self)@.delay),
                sound: ticked(old(self)@.sound),
                ..old(self)@
            }),
    {
        if self.delay > 0 {
            self.delay = self.delay - 1;
        }
        if self.sound > 0 {
            self.sound = self.sound - 1;
        }
    }

    /// Reads and clears the dirty flag: true when the framebuffer changed
    /// since the last call.
    pub fn should_update_display(&mut self) -> (r: bool)
        requires
            old(self).wf(),
        ensures
            final(self).wf(),
            r == old(self)@.dirty,
            final(self)@ == (MachineState { dirty: false, ..old(self)@ }),
    {
        let r = self.update_display;
        self.update_display = false;
        r
    }

    /// Records one key of the keypad snapshot as pressed or released.
    pub fn set_key(&mut self, k: usize, pressed: bool)
        requires
            old(self).wf(),
            k < NUM_KEYS,
        ensures
            final(self).wf(),
            final(self)@ == (MachineState {
                keys: old(self)@.keys.update(k as int, pressed),
                ..old(self)@
            }),
    {
        self.keyboard.set(k, pressed);
    }

    /// Releases every key of the keypad snapshot.
    pub fn clear_all_keys(&mut self)
        requires
            old(self).wf(),
        ensures
            final(self).wf(),
            final(self)@ == (MachineState {
                keys: Seq::new(NUM_KEYS as nat, |i: int| false),
                ..old(self)@
            }),
    {
        self.keyboard = filled::<bool>(NUM_KEYS, false);
    }

    /// The framebuffer as a row-major vector of pixels, `(x, y)` at
    /// `y * DISPLAY_WIDTH + x`.
    pub fn framebuffer_snapshot(&self) -> (r: Vec<bool>)
        requires
            self.wf(),
        ensures
            r@ == self@.display,
    {
        let mut r: Vec<bool> = Vec::new();
        let mut p: usize = 0;
        while p < DISPLAY_CELLS
            invariant
                self.wf(),
                p <= DISPLAY_CELLS,
                r@ == self@.display.subrange(0, p as int),
            decreases DISPLAY_CELLS - p,
        {
            r.push(self.display[p]);
            p = p + 1;
            proof {
                assert(r@ =~= self@.display.subrange(0, p as int));
            }
        }
        proof {
            assert(self@.display.subrange(0, DISPLAY_CELLS as int) =~= self@.display);
        }
        r
    }

    /// Every non-zero memory cell with its address, in address order.
    pub fn dump_nonzero_memory(&self) -> (r: Vec<(u16, u8)>)
        requires
            self.wf(),
        ensures
            r@ == nonzero_cells(self@.memory, MEMORY_SIZE as int),
    {
        let mut r: Vec<(u16, u8)> = Vec::new();
        let mut a: usize = 0;
        while a < MEMORY_SIZE
            invariant
                self.wf(),
                a <= MEMORY_SIZE,
                r@ == nonzero_cells(self@.memory, a as int),
            decreases MEMORY_SIZE - a,
        {
            let byte = self.memory[a];
            if byte != 0 {
                r.push((a as u16, byte));
                proof {
                    assert(r@ =~= nonzero_cells(self@.memory, a as int) + seq![
                        (a as u16, self@.memory[a as int]),
                    ]);
                }
            }
            a = a + 1;
        }
        r
    }

    /// The value of register `Vx`.
    pub fn register(&self, x: usize) -> (r: u8)
        requires
            self.wf(),
            x < NUM_REGISTERS,
        ensures
            r == self@.v[x as int],
    {
        self.v[x]
    }

    /// The program counter.
    pub fn pc(&self) -> (r: u16)
        ensures
            r == self@.pc,
    {
        self.program_counter
    }

    /// The index register `I`.
    pub fn index_register(&self) -> (r: u16)
        ensures
            r == self@.index,
    {
        self.index
    }

    /// The delay timer.
    pub fn delay_timer(&self) -> (r: u8)
        ensures
            r == self@.delay,
    {
        self.delay
    }

    /// The sound timer.
    pub fn sound_timer(&self) -> (r: u8)
        ensures
            r == self@.sound,
    {
        self.sound
    }

    /// How many return addresses the call stack holds.
    pub fn stack_depth(&self) -> (r: usize)
        ensures
            r == self@.stack.len(),
    {
        self.stack.len()
    }

    /// The register a pending key wait will fill, if one is pending.
    pub fn waiting_register(&self) -> (r: Option<u8>)
        ensures
            r == self@.waiting_for_key,
    {
        self.waiting_for_key
    }

    /// The pixel at column `x`, row `y`.
    pub fn pixel(&self, x: usize, y: usize) -> (r: bool)
        requires
            self.wf(),
            x < DISPLAY_WIDTH,
            y < DISPLAY_HEIGHT,
        ensures
            r == self@.display[y * DISPLAY_WIDTH + x],
    {
        self.display[y * DISPLAY_WIDTH + x]
    }

    /// One byte of memory.
    pub fn mem_byte(&self, addr: usize) -> (r: u8)
        requires
            self.wf(),
            addr < MEMORY_SIZE,
        ensures
            r == self@.memory[addr as int],
    {
        self.memory[addr]
    }

    /// Whether key `k` is pressed in the keypad snapshot.
    pub(crate) fn key_pressed(&self, k: usize) -> (r: bool)
        requires
            self.wf(),
            k < NUM_KEYS,
        ensures
            r == self@.keys[k as int],
    {
        self.keyboard[k]
    }

    /// Writes register `Vx`.
    pub(crate) fn set_reg(&mut self, x: usize, val: u8)
        requires
            old(self).wf(),
            x < NUM_REGISTERS,
        ensures
            final(self).wf(),
            final(self)@ == (MachineState {
                v: old(self)@.v.update(x as int, val),
                ..old(self)@
            }),
    {
        self.v.set(x, val);
    }

    /// Writes the program counter.
    pub(crate) fn set_pc(&mut self, pc: u16)
        requires
            old(self).wf(),
        ensures
            final(self).wf(),
            final(self)@ == (MachineState { pc: pc, ..old(self)@ }),
    {
        self.program_counter = pc;
    }

    /// Writes the index register.
    pub(crate) fn set_index(&mut self, i: u16)
        requires
            old(self).wf(),
        ensures
            final(self).wf(),
            final(self)@ == (MachineState { index: i, ..old(self)@ }),
    {
        self.index = i;
    }

    /// Writes one byte of memory.
    pub(crate) fn set_mem_byte(&mut self, addr: usize, val: u8)
        requires
            old(self).wf(),
            addr < MEMORY_SIZE,
        ensures
            final(self).wf(),
            final(self)@ == (MachineState {
                memory: old(self)@.memory.update(addr as int, val),
                ..old(self)@
            }),
    {
        self.memory.set(addr, val);
    }

    /// Writes one framebuffer cell (row-major index).
    pub(crate) fn set_display_cell(&mut self, p: usize, on: bool)
        requires
            old(self).wf(),
            p < DISPLAY_CELLS,
        ensures
            final(self).wf(),
            final(self)@ == (MachineState {
                display: old(self)@.display.update(p as int, on),
                ..old(self)@
            }),
    {
        self.display.set(p, on);
    }

    /// One framebuffer cell (row-major index).
    pub(crate) fn display_cell(&self, p: usize) -> (r: bool)
        requires
            self.wf(),
            p < DISPLAY_CELLS,
        ensures
            r == self@.display[p as int],
    {
        self.display[p]
    }

    /// Blanks the framebuffer.
    pub(crate) fn clear_display(&mut self)
        requires
            old(self).wf(),
        ensures
            final(self).wf(),
            final(self)@ == (MachineState {
                display: Seq::new(DISPLAY_CELLS as nat, |p: int| false),
                ..old(self)@
            }),
    {
        self.display = filled::<bool>(DISPLAY_CELLS, false);
    }

    /// Raises the dirty flag.
    pub(crate) fn mark_dirty(&mut self)
        requires
            old(self).wf(),
        ensures
            final(self).wf(),
            final(self)@ == (MachineState { dirty: true, ..old(self)@ }),
    {
        self.update_display = true;
    }

    /// Writes the delay timer.
    pub(crate) fn set_delay(&mut self, t: u8)
        requires
            old(self).wf(),
        ensures
            final(self).wf(),
            final(self)@ == (MachineState { delay: t, ..old(self)@ }),
    {
        self.delay = t;
    }

    /// Writes the sound timer.
    pub(crate) fn set_sound(&mut self, t: u8)
        requires
            old(self).wf(),
        ensures
            final(self).wf(),
            final(self)@ == (MachineState { sound: t, ..old(self)@ }),
    {
        self.sound = t;
    }

    /// Pushes a return address onto the call stack.
    pub(crate) fn push_return_addr(&mut self, addr: u16)
        requires
            old(self).wf(),
            old(self)@.stack.len() < STACK_LIMIT,
        ensures
            final(self).wf(),
            final(self)@ == (MachineState { stack: old(self)@.stack.push(addr), ..old(self)@ }),
    {
        self.stack.push(addr);
    }

    /// Pops the newest return address off the call stack.
    pub(crate) fn pop_return_addr(&mut self) -> (r: u16)
        requires
            old(self).wf(),
            old(self)@.stack.len() > 0,
        ensures
            final(self).wf(),
            r == old(self)@.stack.last(),
            final(self)@ == (MachineState { stack: old(self)@.stack.drop_last(), ..old(self)@ }),
    {
        let r = self.stack.pop();
        proof {
            assert(self.stack@ =~= old(self)@.stack.drop_last());
        }
        match r {
            Some(addr) => addr,
            None => 0,  // unreachable: the stack is non-empty
        }
    }

    /// Records or clears the pending key wait.
    pub(crate) fn set_waiting(&mut self, w: Option<u8>)
        requires
            old(self).wf(),
            w matches Some(x) ==> x < 16,
        ensures
            final(self).wf(),
            final(self)@ == (MachineState { waiting_for_key: w, ..old(self)@ }),
    {
        self.waiting_for_key = w;
    }
}

} // verus!
