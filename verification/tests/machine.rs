//! Machine construction, ROM loading, timers, the dirty flag, and the
//! diagnostic read-backs.

use chip8::instr::Chip8Error;
use chip8::state::Chip8;

/// Builds a machine with the given instruction words loaded at 0x200.
fn machine_with(words: &[u16]) -> Chip8 {
    let mut c = Chip8::new();
    let mut bytes: Vec<u8> = Vec::new();
    for w in words {
        bytes.push((w >> 8) as u8);
        bytes.push((w & 0xFF) as u8);
    }
    c.load_rom(&bytes).unwrap();
    c
}

#[test]
fn font_glyph_zero_present_after_create() {
    let c = Chip8::new();
    let expected = [0xF0u8, 0x90, 0x90, 0x90, 0xF0];
    for (k, want) in expected.iter().enumerate() {
        assert_eq!(c.mem_byte(0x050 + k), *want);
    }
}

#[test]
fn full_font_table_present_after_create() {
    let c = Chip8::new();
    let font: [u8; 80] = [
        0xF0, 0x90, 0x90, 0x90, 0xF0, 0x20, 0x60, 0x20, 0x20, 0x70, 0xF0, 0x10, 0xF0, 0x80, 0xF0,
        0xF0, 0x10, 0xF0, 0x10, 0xF0, 0x90, 0x90, 0xF0, 0x10, 0x10, 0xF0, 0x80, 0xF0, 0x10, 0xF0,
        0xF0, 0x80, 0xF0, 0x90, 0xF0, 0xF0, 0x10, 0x20, 0x40, 0x40, 0xF0, 0x90, 0xF0, 0x90, 0xF0,
        0xF0, 0x90, 0xF0, 0x10, 0xF0, 0xF0, 0x90, 0xF0, 0x90, 0x90, 0xE0, 0x90, 0xE0, 0x90, 0xE0,
        0xF0, 0x80, 0x80, 0x80, 0xF0, 0xE0, 0x90, 0x90, 0x90, 0xE0, 0xF0, 0x80, 0xF0, 0x80, 0xF0,
        0xF0, 0x80, 0xF0, 0x80, 0x80,
    ];
    for (k, want) in font.iter().enumerate() {
        assert_eq!(c.mem_byte(0x050 + k), *want);
    }
}

#[test]
fn fresh_machine_is_zeroed() {
    let c = Chip8::new();
    assert_eq!(c.pc(), 0);
    assert_eq!(c.index_register(), 0);
    assert_eq!(c.delay_timer(), 0);
    assert_eq!(c.sound_timer(), 0);
    assert_eq!(c.stack_depth(), 0);
    assert_eq!(c.waiting_register(), None);
    for x in 0..16 {
        assert_eq!(c.register(x), 0);
    }
    let fb = c.framebuffer_snapshot();
    assert_eq!(fb.len(), 64 * 32);
    assert!(fb.iter().all(|p| !p));
}

#[test]
fn load_rom_sets_pc_and_copies_bytes() {
    let mut c = Chip8::new();
    let rom = vec![0xAB, 0xCD, 0xEF];
    assert!(c.load_rom(&rom).is_ok());
    assert_eq!(c.pc(), 0x200);
    assert_eq!(c.mem_byte(0x200), 0xAB);
    assert_eq!(c.mem_byte(0x201), 0xCD);
    assert_eq!(c.mem_byte(0x202), 0xEF);
    assert_eq!(c.mem_byte(0x203), 0x00);
}

#[test]
fn load_rom_rejects_oversized_image() {
    let mut c = Chip8::new();
    let rom = vec![0u8; 4096 - 0x200 + 1];
    assert_eq!(c.load_rom(&rom), Err(Chip8Error::RomLoadError));
    // The machine is untouched by the failed load.
    assert_eq!(c.pc(), 0);
    assert_eq!(c.mem_byte(0x200), 0);
}

#[test]
fn load_rom_accepts_image_of_maximum_size() {
    let mut c = Chip8::new();
    let rom = vec![0x77u8; 4096 - 0x200];
    assert_eq!(c.load_rom(&rom), Ok(()));
    assert_eq!(c.mem_byte(0x200), 0x77);
    assert_eq!(c.mem_byte(4095), 0x77);
}

#[test]
fn tick_timers_decrements_and_floors_at_zero() {
    // 0x6002: V0 = 2; 0xF015: delay = V0; 0xF018: sound = V0.
    let mut c = machine_with(&[0x6002, 0xF015, 0xF018]);
    c.run(3).unwrap();
    assert_eq!(c.delay_timer(), 2);
    assert_eq!(c.sound_timer(), 2);
    c.tick_timers();
    assert_eq!(c.delay_timer(), 1);
    assert_eq!(c.sound_timer(), 1);
    c.tick_timers();
    c.tick_timers();
    c.tick_timers();
    assert_eq!(c.delay_timer(), 0);
    assert_eq!(c.sound_timer(), 0);
}

#[test]
fn dirty_flag_reads_once_and_clears() {
    let mut c = Chip8::new();
    // A fresh machine asks for one initial render.
    assert!(c.should_update_display());
    assert!(!c.should_update_display());
}

#[test]
fn clear_screen_marks_dirty() {
    let mut c = machine_with(&[0x00E0]);
    assert!(c.should_update_display());
    assert!(!c.should_update_display());
    c.run(1).unwrap();
    assert!(c.should_update_display());
}

#[test]
fn dump_nonzero_memory_lists_font_and_rom() {
    let c = Chip8::new();
    let cells = c.dump_nonzero_memory();
    // The font table is the only non-zero content: 80 bytes, all non-zero.
    assert_eq!(cells.len(), 80);
    assert_eq!(cells[0], (0x050, 0xF0));
    assert_eq!(cells[79], (0x09F, 0x80));

    let mut c2 = Chip8::new();
    c2.load_rom(&vec![0x12, 0x34]).unwrap();
    let cells2 = c2.dump_nonzero_memory();
    assert_eq!(cells2.len(), 82);
    assert!(cells2.contains(&(0x200, 0x12)));
    assert!(cells2.contains(&(0x201, 0x34)));
}

#[test]
fn keypad_set_and_clear() {
    let mut c = machine_with(&[0x6005, 0xE09E]);
    c.set_key(5, true);
    c.run(2).unwrap();
    // Key 5 pressed: the skip is taken, pc = 0x202 + 2 + 2.
    assert_eq!(c.pc(), 0x206);

    let mut c2 = machine_with(&[0x6005, 0xE09E]);
    c2.set_key(5, true);
    c2.clear_all_keys();
    c2.run(2).unwrap();
    // Key released again: no skip.
    assert_eq!(c2.pc(), 0x204);
}
