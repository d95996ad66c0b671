//! Instruction-level behaviour, driven through `load` + `tick` and observed
//! through the read accessors.

use chip8_core::Chip8;
use chip8_core::Chip8Error;

fn boot(rom: &[u8]) -> Chip8 {
    let mut c = Chip8::new();
    c.load(rom).unwrap();
    c
}

fn run(c: &mut Chip8, ticks: usize) {
    for _ in 0..ticks {
        c.tick().unwrap();
    }
}

#[test]
fn add_with_carry_wraps_and_sets_flag() {
    // V1 = 0xFF; V2 = 0x01; V1 += V2 with carry.
    let mut c = boot(&[0x61, 0xFF, 0x62, 0x01, 0x81, 0x24]);
    run(&mut c, 3);
    assert_eq!(c.get_register(1), 0x00);
    assert_eq!(c.get_register(15), 1);
}

#[test]
fn add_without_carry_clears_flag() {
    let mut c = boot(&[0x61, 0x10, 0x62, 0x01, 0x6F, 0x01, 0x81, 0x24]);
    run(&mut c, 4);
    assert_eq!(c.get_register(1), 0x11);
    assert_eq!(c.get_register(15), 0);
}

#[test]
fn subtract_with_borrow_wraps_and_clears_flag() {
    // V1 = 0x01; V2 = 0x02; V1 -= V2: borrow, so the flag reports 0.
    let mut c = boot(&[0x61, 0x01, 0x62, 0x02, 0x81, 0x25]);
    run(&mut c, 3);
    assert_eq!(c.get_register(1), 0xFF);
    assert_eq!(c.get_register(15), 0);
}

#[test]
fn subtract_without_borrow_sets_flag() {
    let mut c = boot(&[0x61, 0x05, 0x62, 0x02, 0x81, 0x25]);
    run(&mut c, 3);
    assert_eq!(c.get_register(1), 0x03);
    assert_eq!(c.get_register(15), 1);
}

#[test]
fn shift_right_captures_low_bit() {
    // V1 = 0x03; V1 >>= 1.
    let mut c = boot(&[0x61, 0x03, 0x81, 0x06]);
    run(&mut c, 2);
    assert_eq!(c.get_register(1), 0x01);
    assert_eq!(c.get_register(15), 1);
}

#[test]
fn shift_left_captures_high_bit() {
    let mut c = boot(&[0x61, 0x81, 0x81, 0x0E]);
    run(&mut c, 2);
    assert_eq!(c.get_register(1), 0x02);
    assert_eq!(c.get_register(15), 1);
}

#[test]
fn reverse_subtract_uses_swapped_operands() {
    // V1 = 0x02; V2 = 0x05; V1 = V2 - V1.
    let mut c = boot(&[0x61, 0x02, 0x62, 0x05, 0x81, 0x27]);
    run(&mut c, 3);
    assert_eq!(c.get_register(1), 0x03);
    assert_eq!(c.get_register(15), 1);
}

#[test]
fn bitwise_group_copies_or_and_xor() {
    let mut c = boot(&[0x61, 0b1100, 0x62, 0b1010, 0x81, 0x21]);
    run(&mut c, 3);
    assert_eq!(c.get_register(1), 0b1110);
    let mut c = boot(&[0x61, 0b1100, 0x62, 0b1010, 0x81, 0x22]);
    run(&mut c, 3);
    assert_eq!(c.get_register(1), 0b1000);
    let mut c = boot(&[0x61, 0b1100, 0x62, 0b1010, 0x81, 0x23]);
    run(&mut c, 3);
    assert_eq!(c.get_register(1), 0b0110);
    let mut c = boot(&[0x62, 0x42, 0x81, 0x20]);
    run(&mut c, 2);
    assert_eq!(c.get_register(1), 0x42);
}

#[test]
fn immediate_add_wraps_without_flag() {
    // V1 = 0xFF; V1 += 0x02 wraps with no carry flag written.
    let mut c = boot(&[0x61, 0xFF, 0x6F, 0x07, 0x71, 0x02]);
    run(&mut c, 3);
    assert_eq!(c.get_register(1), 0x01);
    assert_eq!(c.get_register(15), 0x07);
}

#[test]
fn skips_compare_register_and_immediate() {
    // V1 = 5; skip-if-equal 5 skips the jump that would derail the counter.
    let mut c = boot(&[0x61, 0x05, 0x31, 0x05]);
    run(&mut c, 2);
    assert_eq!(c.get_pc(), 0x206);
    let mut c = boot(&[0x61, 0x05, 0x31, 0x06]);
    run(&mut c, 2);
    assert_eq!(c.get_pc(), 0x204);
    let mut c = boot(&[0x61, 0x05, 0x41, 0x06]);
    run(&mut c, 2);
    assert_eq!(c.get_pc(), 0x206);
}

#[test]
fn skips_compare_two_registers() {
    let mut c = boot(&[0x61, 0x05, 0x62, 0x05, 0x51, 0x20]);
    run(&mut c, 3);
    assert_eq!(c.get_pc(), 0x208);
    let mut c = boot(&[0x61, 0x05, 0x62, 0x06, 0x91, 0x20]);
    run(&mut c, 3);
    assert_eq!(c.get_pc(), 0x208);
    let mut c = boot(&[0x61, 0x05, 0x62, 0x05, 0x91, 0x20]);
    run(&mut c, 3);
    assert_eq!(c.get_pc(), 0x206);
}

#[test]
fn jump_sets_program_counter() {
    let mut c = boot(&[0x13, 0x45]);
    run(&mut c, 1);
    assert_eq!(c.get_pc(), 0x345);
}

#[test]
fn indexed_jump_adds_v0() {
    let mut c = boot(&[0x60, 0x05, 0xB3, 0x00]);
    run(&mut c, 2);
    assert_eq!(c.get_pc(), 0x305);
}

#[test]
fn index_register_load_and_wrapping_add() {
    let mut c = boot(&[0xA1, 0x23]);
    run(&mut c, 1);
    assert_eq!(c.get_index_register(), 0x123);
    // I = 0xFFF, V1 = 0xFF: the add stays in range.
    let mut c = boot(&[0xAF, 0xFF, 0x61, 0xFF, 0xF1, 0x1E]);
    run(&mut c, 3);
    assert_eq!(c.get_index_register(), 0x10FE);
}

#[test]
fn font_index_uses_low_nibble() {
    // V1 = 0x12: glyph 2 sits at address 10.
    let mut c = boot(&[0x61, 0x12, 0xF1, 0x29]);
    run(&mut c, 2);
    assert_eq!(c.get_index_register(), 10);
}

#[test]
fn bcd_stores_three_digits() {
    // V1 = 234 decomposes into 2, 3, 4 at the index register.
    let mut c = boot(&[0x61, 0xEA, 0xA3, 0x00, 0xF1, 0x33]);
    run(&mut c, 3);
    assert_eq!(c.read_memory(0x300), 2);
    assert_eq!(c.read_memory(0x301), 3);
    assert_eq!(c.read_memory(0x302), 4);
}

#[test]
fn register_dump_and_load_round_trip() {
    // V0..V2 = 7, 8, 9; dump them at 0x300; clear V0..V2; load them back.
    let mut c = boot(&[
        0x60, 0x07, 0x61, 0x08, 0x62, 0x09, 0xA3, 0x00, 0xF2, 0x55, 0x60, 0x00, 0x61, 0x00, 0x62,
        0x00, 0xF2, 0x65,
    ]);
    run(&mut c, 5);
    assert_eq!(c.read_memory(0x300), 7);
    assert_eq!(c.read_memory(0x301), 8);
    assert_eq!(c.read_memory(0x302), 9);
    run(&mut c, 4);
    assert_eq!(c.get_register(0), 7);
    assert_eq!(c.get_register(1), 8);
    assert_eq!(c.get_register(2), 9);
}

#[test]
fn randomize_masks_the_entropy_byte() {
    // V1 = rnd & 0x0F with a fixed entropy byte.
    let mut c = boot(&[0xC1, 0x0F]);
    c.tick_with_entropy(0xAB).unwrap();
    assert_eq!(c.get_register(1), 0x0B);
}

#[test]
fn randomize_with_zero_mask_is_zero() {
    // Whatever the generator yields, a zero mask pins VX to zero.
    let mut c = boot(&[0x61, 0x55, 0xC1, 0x00]);
    run(&mut c, 2);
    assert_eq!(c.get_register(1), 0x00);
}

#[test]
fn delay_timer_reads_back() {
    let mut c = boot(&[0x61, 0x2A, 0xF1, 0x15, 0xF2, 0x07]);
    run(&mut c, 3);
    assert_eq!(c.get_delay_timer(), 0x2A);
    assert_eq!(c.get_register(2), 0x2A);
}

#[test]
fn sound_timer_is_set_from_register() {
    let mut c = boot(&[0x61, 0x02, 0xF1, 0x18]);
    run(&mut c, 2);
    assert_eq!(c.get_sound_timer(), 2);
}

#[test]
fn skip_if_key_pressed_and_released() {
    // V1 = 3; key 3 pressed: E19E skips, E1A1 does not.
    let mut c = boot(&[0x61, 0x03, 0xE1, 0x9E]);
    c.keypress(3, true).unwrap();
    run(&mut c, 2);
    assert_eq!(c.get_pc(), 0x206);
    let mut c = boot(&[0x61, 0x03, 0xE1, 0xA1]);
    c.keypress(3, true).unwrap();
    run(&mut c, 2);
    assert_eq!(c.get_pc(), 0x204);
}

#[test]
fn flag_register_as_target_keeps_the_flag() {
    // VF += V1 with a carry: the flag write lands after the sum, so VF ends
    // up holding the carry, not the wrapped sum.
    let mut c = boot(&[0x6F, 0xFF, 0x61, 0x02, 0x8F, 0x14]);
    run(&mut c, 3);
    assert_eq!(c.get_register(15), 1);
}

#[test]
fn zero_row_draw_only_clears_the_flag() {
    // A draw of zero rows reads no memory, toggles nothing, and reports no
    // collision even when the flag register was set before.
    let mut c = boot(&[0x6F, 0x01, 0xAF, 0xFF, 0xD1, 0x20]);
    run(&mut c, 3);
    assert!(c.get_display().iter().all(|p| !*p));
    assert_eq!(c.get_register(15), 0);
}

#[test]
fn nop_only_advances() {
    let mut c = boot(&[0x00, 0x00]);
    run(&mut c, 1);
    assert_eq!(c.get_pc(), 0x202);
}

#[test]
fn unimplemented_opcode_reports_the_word() {
    // High nibble 5 with a nonzero low nibble matches nothing.
    let mut c = boot(&[0x50, 0x01]);
    assert_eq!(c.tick(), Err(Chip8Error::UnimplementedOpcode(0x5001)));
    assert_eq!(c.get_pc(), 0x200);
}

#[test]
fn skip_on_key_rejects_out_of_range_register() {
    // V1 = 16 names no key.
    let mut c = boot(&[0x61, 0x10, 0xE1, 0x9E]);
    run(&mut c, 1);
    assert_eq!(c.tick(), Err(Chip8Error::InvalidKeyIndex));
}

#[test]
fn bcd_past_end_of_memory_is_refused() {
    let mut c = boot(&[0xAF, 0xFF, 0xF1, 0x33]);
    run(&mut c, 1);
    assert_eq!(c.tick(), Err(Chip8Error::MemoryOutOfBounds));
    assert_eq!(c.get_pc(), 0x202);
}

#[test]
fn fetch_past_end_of_memory_is_refused() {
    // Jump to 0xFFE; the word there is 0 (a no-op), after which the counter
    // stands past the last byte and the next fetch fails.
    let mut c = boot(&[0x1F, 0xFE]);
    run(&mut c, 2);
    assert_eq!(c.get_pc(), 0x1000);
    assert_eq!(c.tick(), Err(Chip8Error::MemoryOutOfBounds));
    assert_eq!(c.get_pc(), 0x1000);
}
