//! Display behaviour: XOR blitting, collisions, wrap versus clip, clear,
//! and the block-for-key busy wait scenario.

use chip8::Chip8;
use chip8::Quirks;

fn quirks_off() -> Quirks {
    Quirks {
        vf_reset: false,
        memory: false,
        display_wait: false,
        clipping: false,
        shifting: false,
        jumping: false,
    }
}

fn machine(program: Vec<u8>) -> Chip8 {
    Chip8::new(program, quirks_off()).unwrap()
}

fn run(c: &mut Chip8, steps: usize) {
    for _ in 0..steps {
        c.step().unwrap();
    }
}

fn pixel(c: &Chip8, x: usize, y: usize) -> bool {
    c.display[y * 64 + x]
}

#[test]
fn draw_renders_zero_glyph_at_position() {
    // Clear screen; V0 = 0x0A; V1 = 0x05; I = 0x000; draw the five-row
    // sprite at (10, 5): the "0" glyph from the font area.
    let mut c = machine(vec![0x00, 0xE0, 0x60, 0x0A, 0x61, 0x05, 0xA0, 0x00, 0xD0, 0x15]);
    run(&mut c, 5);
    let glyph: [u8; 5] = [0xF0, 0x90, 0x90, 0x90, 0xF0];
    for (dy, row) in glyph.iter().enumerate() {
        for dx in 0..8 {
            let lit = (row >> (7 - dx)) & 1 == 1;
            assert_eq!(
                pixel(&c, 10 + dx, 5 + dy),
                lit,
                "glyph pixel at ({}, {})",
                10 + dx,
                5 + dy
            );
        }
    }
    // Nothing outside the glyph is lit.
    let lit_count = c.display.iter().filter(|&&p| p).count();
    assert_eq!(lit_count, glyph.iter().map(|r| r.count_ones() as usize).sum::<usize>());
    assert_eq!(c.registers[0xF], 0, "no prior pixels, so no collision");
    assert!(c.display_update);
}

#[test]
fn add_immediate_scenario_wraps_and_spares_vf() {
    // V0 = 5; add 255: after two steps V0 = (5 + 255) % 256 = 4, and the
    // immediate add never touches VF.
    let mut c = machine(vec![0x60, 0x05, 0x70, 0xFF]);
    run(&mut c, 2);
    assert_eq!(c.registers[0], 4);
    assert_eq!(c.registers[0xF], 0);
}

#[test]
fn draw_twice_restores_display_and_reports_collision() {
    // Draw the "0" glyph at (10, 5) twice: the second draw collides
    // everywhere and erases everything.
    let mut c = machine(vec![
        0x60, 0x0A, 0x61, 0x05, 0xA0, 0x00, 0xD0, 0x15, 0xD0, 0x15,
    ]);
    run(&mut c, 4);
    assert!(c.display.iter().any(|&p| p));
    assert_eq!(c.registers[0xF], 0);
    run(&mut c, 1);
    assert!(c.display.iter().all(|&p| !p), "double XOR restores the grid");
    assert_eq!(c.registers[0xF], 1, "the second draw collides with the first");
}

#[test]
fn clear_after_draws_empties_grid() {
    // Draw two sprites, then CLS: the grid returns to all-false.
    let mut c = machine(vec![
        0x60, 0x0A, 0x61, 0x05, 0xA0, 0x00, 0xD0, 0x15, 0xD1, 0x03, 0x00, 0xE0,
    ]);
    run(&mut c, 5);
    assert!(c.display.iter().any(|&p| p));
    run(&mut c, 1);
    assert!(c.display.iter().all(|&p| !p));
    assert!(c.display_update);
}

#[test]
fn draw_coordinates_wrap_modulo_display_size() {
    // V0 = 64 + 10 = 74 behaves as x = 10; V1 = 32 + 5 = 37 as y = 5.
    let mut c = machine(vec![0x60, 0x4A, 0x61, 0x25, 0xA0, 0x00, 0xD0, 0x15]);
    run(&mut c, 4);
    assert!(pixel(&c, 10, 5));
    assert!(pixel(&c, 13, 5));
    assert!(!pixel(&c, 11, 6), "the second glyph row 0x90 leaves (11, 6) dark");
}

#[test]
fn draw_wraps_columns_without_clipping_quirk() {
    // x = 62: the glyph row 0xF0 covers columns 62, 63, 0, 1.
    let mut c = machine(vec![0x60, 0x3E, 0x61, 0x05, 0xA0, 0x00, 0xD0, 0x15]);
    run(&mut c, 4);
    assert!(pixel(&c, 62, 5));
    assert!(pixel(&c, 63, 5));
    assert!(pixel(&c, 0, 5));
    assert!(pixel(&c, 1, 5));
    assert!(!pixel(&c, 2, 5));
}

#[test]
fn draw_clips_columns_with_clipping_quirk() {
    let mut q = quirks_off();
    q.clipping = true;
    let mut c = Chip8::new(
        vec![0x60, 0x3E, 0x61, 0x05, 0xA0, 0x00, 0xD0, 0x15],
        q,
    )
    .unwrap();
    run(&mut c, 4);
    assert!(pixel(&c, 62, 5));
    assert!(pixel(&c, 63, 5));
    assert!(!pixel(&c, 0, 5), "clipped, not wrapped");
    assert!(!pixel(&c, 1, 5));
}

#[test]
fn draw_wraps_rows_without_clipping_quirk() {
    // y = 30: rows land on 30, 31, 0, 1, 2.
    let mut c = machine(vec![0x60, 0x0A, 0x61, 0x1E, 0xA0, 0x00, 0xD0, 0x15]);
    run(&mut c, 4);
    assert!(pixel(&c, 10, 30));
    assert!(pixel(&c, 10, 0), "the third glyph row wraps to the top");
    let mut q = quirks_off();
    q.clipping = true;
    let mut c = Chip8::new(
        vec![0x60, 0x0A, 0x61, 0x1E, 0xA0, 0x00, 0xD0, 0x15],
        q,
    )
    .unwrap();
    run(&mut c, 4);
    assert!(pixel(&c, 10, 30));
    assert!(!pixel(&c, 10, 0), "clipped rows are dropped");
}

#[test]
fn draw_without_set_pixels_keeps_dirty_flag_false() {
    // I points at zeroed memory: the sprite has no set pixels.
    let mut c = machine(vec![0xA3, 0x00, 0xD0, 0x15]);
    run(&mut c, 2);
    assert!(!c.display_update);
    assert_eq!(c.registers[0xF], 0);
}

#[test]
fn block_for_key_busy_waits_until_pressed() {
    let mut c = machine(vec![0xF5, 0x0A]);
    // No key pressed: the program counter never advances.
    for _ in 0..10 {
        c.step().unwrap();
        assert_eq!(c.pc, 0x200);
    }
    // A key appears: its index lands in V5, its latch is released, and the
    // program counter advances normally.
    c.keyboard[7] = true;
    c.step().unwrap();
    assert_eq!(c.pc, 0x202);
    assert_eq!(c.registers[5], 7);
    assert!(!c.keyboard[7], "the same press is not observed twice");
}

#[test]
fn block_for_key_takes_smallest_pressed_index() {
    let mut c = machine(vec![0xF5, 0x0A]);
    c.keyboard[9] = true;
    c.keyboard[3] = true;
    c.step().unwrap();
    assert_eq!(c.registers[5], 3);
    assert!(!c.keyboard[3]);
    assert!(c.keyboard[9], "only the observed key is released");
}
