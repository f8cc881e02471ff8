//! Sprite drawing with its XOR, collision, wrap and clip rules, and the
//! key-wait state machine.

use chip8::state::Chip8;

/// Builds a machine with the given instruction words loaded at 0x200.
fn machine_with(words: &[u16]) -> Chip8 {
    let mut c = Chip8::new();
    let mut bytes: Vec<u8> = Vec::new();
    for w in words {
        bytes.push((w >> 8) as u8);
        bytes.push((w & 0xFF) as u8);
    }
    c.load_rom(&bytes).unwrap();
    c
}

#[test]
fn clear_screen_scenario() {
    // A program of the single word 0x00E0: after one cycle the framebuffer
    // is all off and the dirty flag is raised.
    let mut c = machine_with(&[0x00E0]);
    assert!(c.should_update_display());
    assert!(!c.should_update_display());
    c.run(1).unwrap();
    let fb = c.framebuffer_snapshot();
    assert_eq!(fb.len(), 64 * 32);
    assert!(fb.iter().all(|p| !p));
    assert!(c.should_update_display());
}

#[test]
fn draw_renders_font_glyph() {
    // Draw the 5-row glyph for 0 (at 0x050) at the origin. Row 0 of the
    // glyph is 0xF0: leftmost four pixels on.
    let mut c = machine_with(&[0x6000, 0xA050, 0xD005]);
    c.run(3).unwrap();
    for x in 0..4 {
        assert!(c.pixel(x, 0));
    }
    for x in 4..9 {
        assert!(!c.pixel(x, 0));
    }
    // Row 1 is 0x90: pixels 0 and 3.
    assert!(c.pixel(0, 1));
    assert!(!c.pixel(1, 1));
    assert!(!c.pixel(2, 1));
    assert!(c.pixel(3, 1));
    // No collision on a blank screen.
    assert_eq!(c.register(0xF), 0);
}

#[test]
fn draw_twice_restores_screen_and_reports_collision() {
    // The XOR double-draw identity on a concrete sprite.
    let mut c = machine_with(&[0x6000, 0xA050, 0xD005, 0xD005]);
    c.run(3).unwrap();
    assert!(c.pixel(0, 0));
    c.run(1).unwrap();
    let fb = c.framebuffer_snapshot();
    assert!(fb.iter().all(|p| !p));
    assert_eq!(c.register(0xF), 1);
}

#[test]
fn draw_marks_dirty_even_without_visible_change() {
    // A sprite of one all-zero row toggles nothing, yet the draw still
    // raises the dirty flag.
    let mut c = machine_with(&[0x6000, 0xA300, 0xD001]);
    assert!(c.should_update_display());
    c.run(3).unwrap();
    assert!(c.should_update_display());
    assert_eq!(c.register(0xF), 0);
}

#[test]
fn draw_wraps_start_coordinates_once() {
    // V0 = 66 wraps to column 2; V1 = 33 wraps to row 1.
    let mut c = machine_with(&[0x6042, 0x6121, 0xA050, 0xD011]);
    c.run(4).unwrap();
    assert!(c.pixel(2, 1));
    assert!(c.pixel(5, 1));
    assert!(!c.pixel(6, 1));
}

#[test]
fn draw_clips_at_right_edge() {
    // Start at column 62: only the sprite's two leftmost bits land on the
    // screen, the rest are clipped, not wrapped.
    let mut c = machine_with(&[0x603E, 0x6100, 0xA050, 0xD011]);
    c.run(4).unwrap();
    assert!(c.pixel(62, 0));
    assert!(c.pixel(63, 0));
    for x in 0..8 {
        assert!(!c.pixel(x, 0));
    }
}

#[test]
fn draw_clips_at_bottom_edge() {
    // Start at row 30 with a 5-row glyph: rows 30 and 31 appear, the rest
    // fall off the screen.
    let mut c = machine_with(&[0x6000, 0x611E, 0xA050, 0xD015]);
    c.run(4).unwrap();
    assert!(c.pixel(0, 30));
    assert!(c.pixel(0, 31));
    for y in 0..4 {
        assert!(!c.pixel(0, y));
    }
}

#[test]
fn draw_collision_only_on_overlap() {
    // Two draws of the same glyph at different columns: no shared pixel,
    // so no collision on the second draw.
    let mut c = machine_with(&[0x6000, 0x6108, 0xA050, 0xD005, 0xD105]);
    c.run(5).unwrap();
    assert_eq!(c.register(0xF), 0);
    assert!(c.pixel(0, 0));
    assert!(c.pixel(8, 0));
}

#[test]
fn skip_if_key_uses_low_nibble_of_register() {
    // V0 = 0x15: the tested key is 5.
    let mut c = machine_with(&[0x6015, 0xE09E]);
    c.set_key(5, true);
    c.run(2).unwrap();
    assert_eq!(c.pc(), 0x206);
}

#[test]
fn skip_if_not_key_skips_when_released() {
    let mut c = machine_with(&[0x6005, 0xE0A1]);
    c.run(2).unwrap();
    assert_eq!(c.pc(), 0x206);

    let mut c2 = machine_with(&[0x6005, 0xE0A1]);
    c2.set_key(5, true);
    c2.run(2).unwrap();
    assert_eq!(c2.pc(), 0x204);
}

#[test]
fn key_wait_holds_pc_until_key_appears() {
    // Fx0A with no key pressed: the program counter never moves, however
    // often the machine is stepped, and the wait is recorded.
    let mut c = machine_with(&[0xF30A, 0x6107]);
    c.run(5).unwrap();
    assert_eq!(c.pc(), 0x200);
    assert_eq!(c.waiting_register(), Some(3));
    c.run(3).unwrap();
    assert_eq!(c.pc(), 0x200);

    // A key appears: exactly one more cycle resolves the wait with the
    // lowest pressed key and advances past the instruction.
    c.set_key(0xA, true);
    c.set_key(0x4, true);
    c.run(1).unwrap();
    assert_eq!(c.register(3), 0x4);
    assert_eq!(c.waiting_register(), None);
    assert_eq!(c.pc(), 0x202);

    // Execution then continues normally.
    c.run(1).unwrap();
    assert_eq!(c.register(1), 7);
}

#[test]
fn key_wait_resolves_immediately_when_key_already_down() {
    let mut c = machine_with(&[0xF00A]);
    c.set_key(9, true);
    c.run(1).unwrap();
    assert_eq!(c.register(0), 9);
    assert_eq!(c.waiting_register(), None);
    assert_eq!(c.pc(), 0x202);
}

#[test]
fn run_halts_batch_on_key_wait() {
    // The wait is the sole early exit of a batch: the instruction after
    // Fx0A must not run in the same call, even with budget left.
    let mut c = machine_with(&[0xF00A, 0x6107]);
    c.run(10).unwrap();
    assert_eq!(c.register(1), 0);
    assert_eq!(c.waiting_register(), Some(0));
}
