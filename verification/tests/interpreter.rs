//! Machine-level behaviour: construction, loading, reset, timers, the key
//! latch, the call stack discipline, drawing and the wait-for-key state.

use chip8_core::Chip8;
use chip8_core::Chip8Error;
use chip8_core::MAX_ROM_LEN;
use chip8_core::SCREEN_SIZE;
use chip8_core::SCREEN_WIDTH;

fn boot(rom: &[u8]) -> Chip8 {
    let mut c = Chip8::new();
    c.load(rom).unwrap();
    c
}

fn run(c: &mut Chip8, ticks: usize) {
    for _ in 0..ticks {
        c.tick().unwrap();
    }
}

const FONT_FIRST_ROW: u8 = 0xF0;

#[test]
fn new_machine_starts_clean() {
    let c = Chip8::new();
    assert_eq!(c.get_pc(), 0x200);
    assert_eq!(c.get_index_register(), 0);
    assert_eq!(c.stack_depth(), 0);
    assert_eq!(c.get_delay_timer(), 0);
    assert_eq!(c.get_sound_timer(), 0);
    assert!(!c.is_waiting_for_key());
    assert!(c.get_display().iter().all(|p| !*p));
    for r in 0..16 {
        assert_eq!(c.get_register(r), 0);
    }
    // The font is burned in at address 0: glyph 0 starts with 0xF0.
    assert_eq!(c.read_memory(0), FONT_FIRST_ROW);
    assert_eq!(c.read_memory(79), 0x80);
    assert_eq!(c.read_memory(80), 0);
}

#[test]
fn load_places_rom_at_start_address() {
    let c = boot(&[0xAB, 0xCD, 0xEF]);
    assert_eq!(c.read_memory(0x200), 0xAB);
    assert_eq!(c.read_memory(0x201), 0xCD);
    assert_eq!(c.read_memory(0x202), 0xEF);
    assert_eq!(c.read_memory(0x203), 0x00);
}

#[test]
fn empty_rom_loads_and_changes_nothing() {
    let mut c = Chip8::new();
    assert_eq!(c.load(&[]), Ok(()));
    assert_eq!(c.read_memory(0x200), 0);
    assert_eq!(c.read_memory(0), 0xF0);
    assert_eq!(c.get_pc(), 0x200);
}

#[test]
fn load_rejects_oversized_rom() {
    let mut c = Chip8::new();
    let rom = vec![0x55u8; MAX_ROM_LEN + 1];
    assert_eq!(c.load(&rom), Err(Chip8Error::OutOfRangeRomLoad));
    assert_eq!(c.read_memory(0x200), 0);
    let rom = vec![0x55u8; MAX_ROM_LEN];
    assert_eq!(c.load(&rom), Ok(()));
    assert_eq!(c.read_memory(0xFFF), 0x55);
}

#[test]
fn load_then_reset_leaves_font_only_memory() {
    // Round trip: the ROM bytes are present after the load and gone after
    // the reset, while the font survives.
    let mut c = boot(&[0x12, 0x34, 0x56]);
    assert_eq!(c.read_memory(0x200), 0x12);
    c.reset();
    for addr in 0x200..0x210 {
        assert_eq!(c.read_memory(addr), 0);
    }
    assert_eq!(c.read_memory(0), FONT_FIRST_ROW);
    assert_eq!(c.get_pc(), 0x200);
}

#[test]
fn reset_restores_every_component() {
    let mut c = boot(&[0x61, 0x07, 0xA1, 0x23, 0x22, 0x08, 0x00, 0x00, 0x61, 0x09]);
    run(&mut c, 3);
    assert_eq!(c.stack_depth(), 1);
    c.keypress(4, true).unwrap();
    c.reset();
    assert_eq!(c.get_pc(), 0x200);
    assert_eq!(c.get_register(1), 0);
    assert_eq!(c.get_index_register(), 0);
    assert_eq!(c.stack_depth(), 0);
    // A released key latch: the wait instruction now blocks.
    let rom = [0xF1, 0x0A];
    c.load(&rom).unwrap();
    c.tick().unwrap();
    assert!(c.is_waiting_for_key());
}

#[test]
fn keypress_rejects_out_of_range_index() {
    let mut c = Chip8::new();
    assert_eq!(c.keypress(16, true), Err(Chip8Error::InvalidKeyIndex));
    assert_eq!(c.keypress(15, true), Ok(()));
}

#[test]
fn timer_floor_never_underflows() {
    // Delay timer at 3; five timer ticks: zero from the third on.
    let mut c = boot(&[0x61, 0x03, 0xF1, 0x15]);
    run(&mut c, 2);
    assert_eq!(c.get_delay_timer(), 3);
    let mut seen = Vec::new();
    for _ in 0..5 {
        c.tick_timer();
        seen.push(c.get_delay_timer());
    }
    assert_eq!(seen, vec![2, 1, 0, 0, 0]);
}

#[test]
fn sound_timer_beeps_on_reaching_zero() {
    let mut c = boot(&[0x61, 0x02, 0xF1, 0x18]);
    run(&mut c, 2);
    assert!(!c.tick_timer());
    assert!(c.tick_timer());
    assert!(!c.tick_timer());
    assert_eq!(c.get_sound_timer(), 0);
}

#[test]
fn sixteen_nested_calls_then_overflow() {
    // Every call targets the same address, so each tick pushes one frame.
    let mut c = boot(&[0x22, 0x00]);
    for depth in 1..=16 {
        c.tick().unwrap();
        assert_eq!(c.stack_depth(), depth);
    }
    assert_eq!(c.tick(), Err(Chip8Error::StackOverflow));
    assert_eq!(c.stack_depth(), 16);
    assert_eq!(c.get_pc(), 0x200);
}

#[test]
fn sixteen_returns_restore_the_caller_then_underflow() {
    // Sixteen 4-byte blocks: a call to the next block, then a return.  The
    // calls nest 16 deep; the returns unwind to just past the first call,
    // and one return more underflows.
    let mut rom = Vec::new();
    for k in 0..16u16 {
        let target = 0x200 + 4 * (k + 1);
        rom.push(0x20 | (target >> 8) as u8);
        rom.push((target & 0xFF) as u8);
        rom.push(0x00);
        rom.push(0xEE);
    }
    rom.push(0x00);
    rom.push(0xEE);
    let mut c = boot(&rom);
    run(&mut c, 16);
    assert_eq!(c.stack_depth(), 16);
    assert_eq!(c.get_pc(), 0x240);
    run(&mut c, 16);
    assert_eq!(c.stack_depth(), 0);
    assert_eq!(c.get_pc(), 0x202);
    assert_eq!(c.tick(), Err(Chip8Error::StackUnderflow));
    assert_eq!(c.get_pc(), 0x202);
}

#[test]
fn draw_lights_pixels_and_clear_screen_darkens_all() {
    // Draw glyph 0 at the origin, then clear the screen.
    let mut c = boot(&[0xA0, 0x00, 0xD1, 0x25, 0x00, 0xE0]);
    run(&mut c, 2);
    let d = c.get_display();
    assert_eq!(d.len(), SCREEN_SIZE);
    // Glyph 0's first row is 0xF0: four lit pixels, then four dark.
    for x in 0..4 {
        assert!(d[x]);
    }
    for x in 4..8 {
        assert!(!d[x]);
    }
    assert_eq!(c.get_register(15), 0);
    c.tick().unwrap();
    assert!(c.get_display().iter().all(|p| !*p));
}

#[test]
fn drawing_twice_restores_the_display_and_collides() {
    let mut c = boot(&[0xA0, 0x00, 0xD1, 0x25, 0xD1, 0x25]);
    run(&mut c, 2);
    assert_eq!(c.get_register(15), 0);
    assert!(c.get_display()[0]);
    c.tick().unwrap();
    assert_eq!(c.get_register(15), 1);
    assert!(c.get_display().iter().all(|p| !*p));
}

#[test]
fn draw_wraps_both_coordinates() {
    // V1 = 62, V2 = 31: a one-row sprite hangs over both edges.
    let mut c = boot(&[0x61, 0x3E, 0x62, 0x1F, 0xA2, 0x08, 0xD1, 0x21, 0xFF]);
    run(&mut c, 4);
    let d = c.get_display();
    let row = 31 * SCREEN_WIDTH;
    assert!(d[row + 62] && d[row + 63]);
    assert!(d[row] && d[row + 1] && d[row + 2] && d[row + 3] && d[row + 4] && d[row + 5]);
    assert!(!d[row + 6]);
}

#[test]
fn draw_past_end_of_memory_is_refused() {
    let mut c = boot(&[0xAF, 0xFF, 0xD1, 0x22]);
    run(&mut c, 1);
    assert_eq!(c.tick(), Err(Chip8Error::MemoryOutOfBounds));
}

#[test]
fn wait_for_key_blocks_until_lowest_pressed_key() {
    // With no key pressed the instruction re-arms itself; with keys 3 and 7
    // pressed the next tick stores 3 and moves on.
    let mut c = boot(&[0xF5, 0x0A]);
    for _ in 0..4 {
        c.tick().unwrap();
        assert_eq!(c.get_pc(), 0x200);
        assert!(c.is_waiting_for_key());
    }
    c.keypress(7, true).unwrap();
    c.keypress(3, true).unwrap();
    c.tick().unwrap();
    assert_eq!(c.get_register(5), 3);
    assert_eq!(c.get_pc(), 0x202);
    assert!(!c.is_waiting_for_key());
}

#[test]
fn loading_abandons_a_pending_wait() {
    let mut c = boot(&[0xF5, 0x0A]);
    c.tick().unwrap();
    assert!(c.is_waiting_for_key());
    c.load(&[0x00, 0x00]).unwrap();
    assert!(!c.is_waiting_for_key());
}
