//! Instruction semantics, cycle by cycle: arithmetic and flags, jumps and
//! skips, the call stack, memory block moves, and the error cases.

use chip8::instr::Chip8Error;
use chip8::state::Chip8;

/// Builds a machine with the given instruction words loaded at 0x200.
fn machine_with(words: &[u16]) -> Chip8 {
    let mut c = Chip8::new();
    let mut bytes: Vec<u8> = Vec::new();
    for w in words {
        bytes.push((w >> 8) as u8);
        bytes.push((w & 0xFF) as u8);
    }
    c.load_rom(&bytes).unwrap();
    c
}

#[test]
fn set_then_add_immediate() {
    // "60 2A" sets V0 = 0x2A; "70 01" yields V0 = 0x2B.
    let mut c = machine_with(&[0x602A, 0x7001]);
    c.step_cycle(0).unwrap();
    assert_eq!(c.register(0), 0x2A);
    c.step_cycle(0).unwrap();
    assert_eq!(c.register(0), 0x2B);
}

#[test]
fn add_immediate_wraps_without_touching_flag() {
    // V0 = 200, add 100: wraps to 44; VF stays 0.
    let mut c = machine_with(&[0x60C8, 0x7064]);
    c.run(2).unwrap();
    assert_eq!(c.register(0), 44);
    assert_eq!(c.register(0xF), 0);
}

#[test]
fn add_then_complement_restores_register() {
    // The wraparound law on concrete values: V3 = 200, +100, +156 = 200.
    let mut c = machine_with(&[0x63C8, 0x7364, 0x739C]);
    c.run(3).unwrap();
    assert_eq!(c.register(3), 200);
}

#[test]
fn add_register_sets_carry_on_overflow() {
    // V0 = 0xFF, V1 = 0x01, V0 += V1: result 0, carry 1.
    let mut c = machine_with(&[0x60FF, 0x6101, 0x8014]);
    c.run(3).unwrap();
    assert_eq!(c.register(0), 0);
    assert_eq!(c.register(0xF), 1);
}

#[test]
fn add_register_clears_carry_without_overflow() {
    let mut c = machine_with(&[0x6020, 0x6130, 0x8014]);
    c.run(3).unwrap();
    assert_eq!(c.register(0), 0x50);
    assert_eq!(c.register(0xF), 0);
}

#[test]
fn subtract_sets_flag_when_minuend_not_smaller() {
    // V0 = 5, V1 = 3: VF = 1, V0 = 2.
    let mut c = machine_with(&[0x6005, 0x6103, 0x8015]);
    c.run(3).unwrap();
    assert_eq!(c.register(0), 2);
    assert_eq!(c.register(0xF), 1);
}

#[test]
fn subtract_clears_flag_and_wraps_on_borrow() {
    // V0 = 3, V1 = 5: VF = 0, V0 = 254.
    let mut c = machine_with(&[0x6003, 0x6105, 0x8015]);
    c.run(3).unwrap();
    assert_eq!(c.register(0), 254);
    assert_eq!(c.register(0xF), 0);
}

#[test]
fn subtract_flag_on_equal_operands() {
    let mut c = machine_with(&[0x6007, 0x6107, 0x8015]);
    c.run(3).unwrap();
    assert_eq!(c.register(0), 0);
    assert_eq!(c.register(0xF), 1);
}

#[test]
fn subtract_inverted_takes_other_direction() {
    // V0 = 3, V1 = 5: V0 = V1 - V0 = 2, VF = 1.
    let mut c = machine_with(&[0x6003, 0x6105, 0x8017]);
    c.run(3).unwrap();
    assert_eq!(c.register(0), 2);
    assert_eq!(c.register(0xF), 1);
}

#[test]
fn bitwise_or_and_xor() {
    let mut c = machine_with(&[0x60F0, 0x610F, 0x8011]);
    c.run(3).unwrap();
    assert_eq!(c.register(0), 0xFF);

    let mut c2 = machine_with(&[0x60CC, 0x61AA, 0x8012]);
    c2.run(3).unwrap();
    assert_eq!(c2.register(0), 0x88);

    let mut c3 = machine_with(&[0x60CC, 0x61AA, 0x8013]);
    c3.run(3).unwrap();
    assert_eq!(c3.register(0), 0x66);
}

#[test]
fn copy_register() {
    let mut c = machine_with(&[0x6177, 0x8010]);
    c.run(2).unwrap();
    assert_eq!(c.register(0), 0x77);
}

#[test]
fn right_shift_reads_source_register() {
    // V1 = 5: V0 = V1 >> 1 = 2, VF = old low bit = 1.
    let mut c = machine_with(&[0x6105, 0x8016]);
    c.run(2).unwrap();
    assert_eq!(c.register(0), 2);
    assert_eq!(c.register(1), 5);
    assert_eq!(c.register(0xF), 1);
}

#[test]
fn left_shift_reads_source_register() {
    // V1 = 0x81: V0 = V1 << 1 = 2 (wrapped), VF = old high bit = 1.
    let mut c = machine_with(&[0x6181, 0x801E]);
    c.run(2).unwrap();
    assert_eq!(c.register(0), 2);
    assert_eq!(c.register(0xF), 1);
}

#[test]
fn jump_sets_pc() {
    let mut c = machine_with(&[0x1234]);
    c.run(1).unwrap();
    assert_eq!(c.pc(), 0x234);
}

#[test]
fn jump_offset_adds_v0() {
    let mut c = machine_with(&[0x6005, 0xB300]);
    c.run(2).unwrap();
    assert_eq!(c.pc(), 0x305);
}

#[test]
fn skip_if_equal_immediate() {
    let mut c = machine_with(&[0x6007, 0x3007]);
    c.run(2).unwrap();
    assert_eq!(c.pc(), 0x206);

    let mut c2 = machine_with(&[0x6007, 0x3008]);
    c2.run(2).unwrap();
    assert_eq!(c2.pc(), 0x204);
}

#[test]
fn skip_if_not_equal_immediate() {
    let mut c = machine_with(&[0x6007, 0x4008]);
    c.run(2).unwrap();
    assert_eq!(c.pc(), 0x206);

    let mut c2 = machine_with(&[0x6007, 0x4007]);
    c2.run(2).unwrap();
    assert_eq!(c2.pc(), 0x204);
}

#[test]
fn skip_on_register_compare() {
    let mut c = machine_with(&[0x6009, 0x6109, 0x5010]);
    c.run(3).unwrap();
    assert_eq!(c.pc(), 0x208);

    let mut c2 = machine_with(&[0x6009, 0x6108, 0x9010]);
    c2.run(3).unwrap();
    assert_eq!(c2.pc(), 0x208);

    let mut c3 = machine_with(&[0x6009, 0x6108, 0x5010]);
    c3.run(3).unwrap();
    assert_eq!(c3.pc(), 0x206);
}

#[test]
fn call_then_return_restores_pc() {
    // 0x200: call 0x208; 0x208: return. After the call, pc is 0x208 and one
    // return address is stacked; the return brings pc to 0x202, the address
    // right after the call's two bytes.
    let mut c = machine_with(&[0x2208, 0x0000, 0x0000, 0x0000, 0x00EE]);
    c.step_cycle(0).unwrap();
    assert_eq!(c.pc(), 0x208);
    assert_eq!(c.stack_depth(), 1);
    c.step_cycle(0).unwrap();
    assert_eq!(c.pc(), 0x202);
    assert_eq!(c.stack_depth(), 0);
}

#[test]
fn return_on_empty_stack_fails() {
    let mut c = machine_with(&[0x00EE]);
    assert_eq!(c.run(1), Err(Chip8Error::CallStackUnderflow));
    // The failed instruction mutated nothing beyond the fetch.
    assert_eq!(c.stack_depth(), 0);
    assert_eq!(c.pc(), 0x202);
}

#[test]
fn seventeenth_nested_call_overflows_stack() {
    // 0x200 calls itself forever; the 17th push must fail.
    let mut c = machine_with(&[0x2200]);
    c.run(16).unwrap();
    assert_eq!(c.stack_depth(), 16);
    assert_eq!(c.run(1), Err(Chip8Error::CallStackOverflow));
    assert_eq!(c.stack_depth(), 16);
}

#[test]
fn unknown_opcode_reports_raw_word() {
    let mut c = machine_with(&[0xFFFF]);
    assert_eq!(c.run(1), Err(Chip8Error::UnknownOpcode(0xFFFF)));

    let mut c2 = machine_with(&[0x0123]);
    assert_eq!(c2.run(1), Err(Chip8Error::UnknownOpcode(0x0123)));

    let mut c3 = machine_with(&[0x8008]);
    assert_eq!(c3.run(1), Err(Chip8Error::UnknownOpcode(0x8008)));
}

#[test]
fn run_stops_at_first_error() {
    // Three fine instructions, then garbage: the error surfaces, the good
    // prefix ran.
    let mut c = machine_with(&[0x6001, 0x6102, 0x6203, 0xFFFF]);
    assert_eq!(c.run(10), Err(Chip8Error::UnknownOpcode(0xFFFF)));
    assert_eq!(c.register(0), 1);
    assert_eq!(c.register(1), 2);
    assert_eq!(c.register(2), 3);
}

#[test]
fn set_index_and_add_to_index() {
    let mut c = machine_with(&[0xA123, 0x6005, 0xF01E]);
    c.run(1).unwrap();
    assert_eq!(c.index_register(), 0x123);
    c.run(2).unwrap();
    assert_eq!(c.index_register(), 0x128);
}

#[test]
fn get_delay_timer_into_register() {
    let mut c = machine_with(&[0x6009, 0xF015, 0xF107]);
    c.run(3).unwrap();
    assert_eq!(c.register(1), 9);
}

#[test]
fn font_character_locates_glyph() {
    // V0 = 7: I = 0x050 + 7 * 5 = 0x073.
    let mut c = machine_with(&[0x6007, 0xF029]);
    c.run(2).unwrap();
    assert_eq!(c.index_register(), 0x073);
}

#[test]
fn binary_to_decimal_digits() {
    // V0 = 234 decomposes to 2, 3, 4 at I, I+1, I+2.
    let mut c = machine_with(&[0x60EA, 0xA300, 0xF033]);
    c.run(3).unwrap();
    assert_eq!(c.mem_byte(0x300), 2);
    assert_eq!(c.mem_byte(0x301), 3);
    assert_eq!(c.mem_byte(0x302), 4);
}

#[test]
fn store_and_load_registers() {
    // Store V0..=V2 at 0x300, zero the registers, load them back.
    let mut c = machine_with(&[
        0x600A, 0x610B, 0x620C, 0xA300, 0xF255, 0x6000, 0x6100, 0x6200, 0xF265,
    ]);
    c.run(5).unwrap();
    assert_eq!(c.mem_byte(0x300), 0x0A);
    assert_eq!(c.mem_byte(0x301), 0x0B);
    assert_eq!(c.mem_byte(0x302), 0x0C);
    // The index register is left where it was.
    assert_eq!(c.index_register(), 0x300);
    c.run(4).unwrap();
    assert_eq!(c.register(0), 0x0A);
    assert_eq!(c.register(1), 0x0B);
    assert_eq!(c.register(2), 0x0C);
}

#[test]
fn random_masked_with_zero_is_zero() {
    // Cx00 masks the random byte with 0: deterministic result 0, whatever
    // the generator produced.
    let mut c = machine_with(&[0x6077, 0xC000]);
    c.run(2).unwrap();
    assert_eq!(c.register(0), 0);
}

#[test]
fn random_respects_mask_bits() {
    let mut c = machine_with(&[0xC00F]);
    c.run(1).unwrap();
    assert!(c.register(0) <= 0x0F);
}

#[test]
fn step_cycle_takes_the_random_byte() {
    // The cycle API is deterministic: the caller supplies the byte Cxnn
    // masks, so the result is pinned.
    let mut c = machine_with(&[0xC0FF, 0xC1F0]);
    c.step_cycle(0xAB).unwrap();
    assert_eq!(c.register(0), 0xAB);
    c.step_cycle(0xAB).unwrap();
    assert_eq!(c.register(1), 0xA0);
}
