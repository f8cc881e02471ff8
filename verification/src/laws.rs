//! Instruction-set identities: the flag conventions and round-trip laws the
//! hardware promises, proved once and for all over the engine's transition
//! function.

use vstd::prelude::*;

use crate::instr::{Instruction, spec_decode};
use crate::state::{MachineState, wf_state, NUM_KEYS, STACK_LIMIT};
use crate::cpu::{
    spec_execute, spec_cycle, spec_run, spec_fetch_opcode, wrap16, wrap8, draw_collision,
    lowest_pressed_key, first_pressed_from,
};
use vstd::arithmetic::div_mod::{
    lemma_small_mod, lemma_mod_add_multiples_vanish, lemma_mod_sub_multiples_vanish,
};

verus! {

/// The wraparound law: adding `nn` to a register and then adding its
/// two's complement `(256 - nn) % 256` restores the machine exactly.
pub proof fn lemma_add_then_complement_restores(s: MachineState, x: u8, nn: u8)
    requires
        wf_state(s),
        x < 16,
    ensures
        spec_execute(s, Instruction::Add(x, nn), 0) is Ok,
        ({
            let comp = ((256 - nn) % 256) as u8;
            let s1 = spec_execute(s, Instruction::Add(x, nn), 0)->Ok_0;
            &&& spec_execute(s1, Instruction::Add(x, comp), 0) is Ok
            &&& spec_execute(s1, Instruction::Add(x, comp), 0)->Ok_0 == s
        }),
{
    reveal(spec_execute);
    let comp = ((256 - nn) % 256) as u8;
    let s1 = spec_execute(s, Instruction::Add(x, nn), 0)->Ok_0;
    let a = s.v[x as int] as int;
    let n = nn as int;
    assert(wrap8(wrap8(a + n) + comp) == a) by {
        if n == 0 {
            lemma_small_mod(a as nat, 256);
        } else {
            assert(comp == 256 - n);
            if a + n < 256 {
                lemma_small_mod((a + n) as nat, 256);
                lemma_mod_add_multiples_vanish(a, 256);
                lemma_small_mod(a as nat, 256);
            } else {
                lemma_mod_sub_multiples_vanish(a + n, 256);
                lemma_small_mod((a + n - 256) as nat, 256);
                lemma_small_mod(a as nat, 256);
            }
        }
    };
    assert(s1.v.update(x as int, wrap8(s1.v[x as int] + comp)) =~= s.v);
    assert(spec_execute(s1, Instruction::Add(x, comp), 0)->Ok_0 =~= s);
}

/// `AddRegister` raises the carry flag exactly when the unsigned sum of the
/// two pre-operation registers exceeds 255, whatever the wrapped result.
pub proof fn lemma_add_register_carry(s: MachineState, x: u8, y: u8)
    requires
        wf_state(s),
        x < 16,
        y < 16,
    ensures
        spec_execute(s, Instruction::AddRegister(x, y), 0) is Ok,
        ({
            let s1 = spec_execute(s, Instruction::AddRegister(x, y), 0)->Ok_0;
            s1.v[15] == if s.v[x as int] + s.v[y as int] > 255 {
                1u8
            } else {
                0u8
            }
        }),
{
    reveal(spec_execute);
}

/// `Subtract` raises `VF` exactly when the pre-operation `Vx` is at least
/// the pre-operation `Vy`, independent of the wrapped difference. Does not
/// hold for `x == 15`, where the difference itself overwrites the flag.
pub proof fn lemma_subtract_borrow(s: MachineState, x: u8, y: u8)
    requires
        wf_state(s),
        x < 16,
        y < 16,
        x != 15,
    ensures
        spec_execute(s, Instruction::Subtract(x, y), 0) is Ok,
        ({
            let s1 = spec_execute(s, Instruction::Subtract(x, y), 0)->Ok_0;
            s1.v[15] == if s.v[x as int] >= s.v[y as int] {
                1u8
            } else {
                0u8
            }
        }),
{
    reveal(spec_execute);
}

/// The XOR double-draw identity: drawing the same sprite twice at the same
/// coordinates restores the framebuffer, and the second draw's `VF` records
/// exactly whether any sprite bit overlapped a pixel the first draw left
/// lit. Needs `x != 15` and `y != 15`: the first draw overwrites `VF`, so a
/// coordinate taken from it would move.
pub proof fn lemma_draw_twice_restores(s: MachineState, x: u8, y: u8, n: u8)
    requires
        wf_state(s),
        x < 16,
        y < 16,
        x != 15,
        y != 15,
        n < 16,
    ensures
        spec_execute(s, Instruction::Draw(x, y, n), 0) is Ok,
        ({
            let s1 = spec_execute(s, Instruction::Draw(x, y, n), 0)->Ok_0;
            let s2 = spec_execute(s1, Instruction::Draw(x, y, n), 0)->Ok_0;
            let x0 = (s.v[x as int] % 64) as int;
            let y0 = (s.v[y as int] % 32) as int;
            &&& spec_execute(s1, Instruction::Draw(x, y, n), 0) is Ok
            &&& s2.display == s.display
            &&& s2.v[15] == (if draw_collision(s1.display, s.memory, s.index, x0, y0, n as int) {
                1u8
            } else {
                0u8
            })
        }),
{
    reveal(spec_execute);
    let s1 = spec_execute(s, Instruction::Draw(x, y, n), 0)->Ok_0;
    let s2 = spec_execute(s1, Instruction::Draw(x, y, n), 0)->Ok_0;
    let x0 = (s.v[x as int] % 64) as int;
    let y0 = (s.v[y as int] % 32) as int;
    assert(s1.v[x as int] == s.v[x as int]);
    assert(s1.v[y as int] == s.v[y as int]);
    assert(s2.display =~= s.display);
}

/// `Call` then `Return`, with the stack otherwise untouched in between,
/// restores the program counter to the instruction after the call. Here `s`
/// is the machine just after the `Call` opcode was fetched, so `s.pc` is
/// that address; `mid` is any later machine whose stack the subroutine left
/// alone.
pub proof fn lemma_call_then_return(s: MachineState, nnn: u16, mid: MachineState)
    requires
        wf_state(s),
        wf_state(mid),
        nnn < 4096,
        s.stack.len() < STACK_LIMIT,
        mid.stack == spec_execute(s, Instruction::Call(nnn), 0)->Ok_0.stack,
    ensures
        spec_execute(s, Instruction::Call(nnn), 0) is Ok,
        spec_execute(s, Instruction::Call(nnn), 0)->Ok_0.pc == nnn,
        spec_execute(mid, Instruction::Return, 0) is Ok,
        spec_execute(mid, Instruction::Return, 0)->Ok_0.pc == s.pc,
        spec_execute(mid, Instruction::Return, 0)->Ok_0.stack == s.stack,
{
    reveal(spec_execute);
    assert(mid.stack == s.stack.push(s.pc));
    assert(mid.stack.len() == s.stack.len() + 1);
    assert(mid.stack.last() == s.pc);
    assert(mid.stack.drop_last() =~= s.stack);
}

/// No key pressed anywhere below `k` or above: the scan finds nothing.
proof fn lemma_scan_finds_nothing(keys: Seq<bool>, k: int)
    requires
        keys.len() == NUM_KEYS,
        forall|j: int| 0 <= j < NUM_KEYS ==> !keys[j],
    ensures
        first_pressed_from(keys, k) is None,
    decreases NUM_KEYS - k,
{
    if 0 <= k < NUM_KEYS {
        lemma_scan_finds_nothing(keys, k + 1);
    }
}

/// What the key scan returns is the pressed key of lowest index.
pub proof fn lemma_lowest_pressed_is_lowest(keys: Seq<bool>, k: u8)
    requires
        keys.len() == NUM_KEYS,
        lowest_pressed_key(keys) == Some(k),
    ensures
        k < 16,
        keys[k as int],
        forall|j: int| 0 <= j < k ==> !keys[j],
{
    lemma_scan_prefix_unpressed(keys, 0, k);
}

/// The scan from `from` that answers `k` saw no pressed key in between.
proof fn lemma_scan_prefix_unpressed(keys: Seq<bool>, from: int, k: u8)
    requires
        keys.len() == NUM_KEYS,
        0 <= from,
        first_pressed_from(keys, from) == Some(k),
    ensures
        from <= k < 16,
        keys[k as int],
        forall|j: int| from <= j < k ==> !keys[j],
    decreases NUM_KEYS - from,
{
    if from < NUM_KEYS && !keys[from] {
        lemma_scan_prefix_unpressed(keys, from + 1, k);
    }
}

/// A cycle that fetches the key-wait instruction while no key is pressed
/// changes nothing but the pending-wait marker: in particular the program
/// counter ends exactly where it started.
pub proof fn lemma_key_wait_holds_pc(s: MachineState, x: u8, rnd: u8)
    requires
        wf_state(s),
        spec_decode(spec_fetch_opcode(s)) == Some(Instruction::GetKey(x)),
        x < 16,
        forall|j: int| 0 <= j < NUM_KEYS ==> !s.keys[j],
    ensures
        spec_cycle(s, rnd).error is None,
        spec_cycle(s, rnd).state == (MachineState { waiting_for_key: Some(x), ..s }),
{
    reveal(spec_execute);
    lemma_scan_finds_nothing(s.keys, 0);
    lemma_pc_advance_then_back(s.pc);
    assert(spec_cycle(s, rnd).state =~= (MachineState { waiting_for_key: Some(x), ..s }));
}

/// While the machine waits at the key-wait instruction with no key pressed,
/// further cycles leave it exactly as it is.
pub proof fn lemma_key_wait_fixpoint(s: MachineState, x: u8, rnd: u8)
    requires
        wf_state(s),
        spec_decode(spec_fetch_opcode(s)) == Some(Instruction::GetKey(x)),
        x < 16,
        s.waiting_for_key == Some(x),
        forall|j: int| 0 <= j < NUM_KEYS ==> !s.keys[j],
    ensures
        spec_cycle(s, rnd).error is None,
        spec_cycle(s, rnd).state == s,
{
    lemma_key_wait_holds_pc(s, x, rnd);
    assert((MachineState { waiting_for_key: Some(x), ..s }) =~= s);
}

/// The moment some key is pressed, one cycle at the key-wait instruction
/// resolves the wait: the lowest-indexed pressed key lands in the register
/// and the program counter advances past the instruction.
pub proof fn lemma_key_wait_resumes(s: MachineState, x: u8, rnd: u8, k: u8)
    requires
        wf_state(s),
        spec_decode(spec_fetch_opcode(s)) == Some(Instruction::GetKey(x)),
        x < 16,
        lowest_pressed_key(s.keys) == Some(k),
    ensures
        spec_cycle(s, rnd).error is None,
        spec_cycle(s, rnd).state == (MachineState {
            pc: wrap16(s.pc + 2),
            v: s.v.update(x as int, k),
            waiting_for_key: None,
            ..s
        }),
{
    reveal(spec_execute);
    assert(spec_cycle(s, rnd).state =~= (MachineState {
        pc: wrap16(s.pc + 2),
        v: s.v.update(x as int, k),
        waiting_for_key: None,
        ..s
    }));
}

/// A whole `run` batch arriving at the key-wait instruction with no key
/// pressed stops after one cycle, the machine unchanged but for the wait
/// marker: whatever the cycle budget, the program counter never moves.
pub proof fn lemma_run_blocks_on_key_wait(s: MachineState, x: u8, ticks: nat, rnds: Seq<u8>)
    requires
        wf_state(s),
        spec_decode(spec_fetch_opcode(s)) == Some(Instruction::GetKey(x)),
        x < 16,
        forall|j: int| 0 <= j < NUM_KEYS ==> !s.keys[j],
        ticks >= 1,
        rnds.len() == ticks,
    ensures
        spec_run(s, ticks, rnds).error is None,
        spec_run(s, ticks, rnds).state == (MachineState { waiting_for_key: Some(x), ..s }),
{
    lemma_key_wait_holds_pc(s, x, rnds[0]);
}

/// Moving the program counter two ahead, 16-bit wrapping, and then two back
/// lands where it started.
proof fn lemma_pc_advance_then_back(pc: u16)
    ensures
        wrap16(wrap16(pc + 2) - 2) == pc,
{
    let m = 0x10000;
    if pc + 2 < m {
        lemma_small_mod((pc + 2) as nat, m as nat);
        lemma_small_mod(pc as nat, m as nat);
    } else {
        lemma_mod_sub_multiples_vanish(pc + 2, m);
        lemma_small_mod((pc + 2 - m) as nat, m as nat);
        lemma_mod_add_multiples_vanish(pc - 2, m);
        lemma_small_mod(pc as nat, m as nat);
    }
}

} // verus!
