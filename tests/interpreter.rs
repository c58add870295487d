use chip8::decode::{decode, encode, Fields};
use chip8::machine::{classify_cell, init_cpu, CellKind, Chip, Fault, Keypad, MAX_ROM_SIZE};

fn load(rom: &[u8]) -> Chip {
    init_cpu(rom).unwrap()
}

fn run(chip: &mut Chip, keys: &Keypad, steps: usize) {
    for _ in 0..steps {
        chip.step(keys, 0).unwrap();
    }
}

fn lit_pixels(chip: &Chip) -> usize {
    let mut count = 0;
    for y in 0..32 {
        for x in 0..64 {
            if chip.pixel(x, y) {
                count += 1;
            }
        }
    }
    count
}

#[test]
fn decode_splits_fields() {
    let f = decode(0xD12F);
    assert_eq!(f, Fields { opcode: 0xD, x: 0x1, y: 0x2, n: 0xF, nn: 0x2F, nnn: 0x12F });
}

#[test]
fn decode_then_encode_gives_every_word_back() {
    for w in 0..=u16::MAX {
        let f = decode(w);
        assert_eq!(encode(&f), w);
        assert_eq!(decode(encode(&f)), f);
    }
}

#[test]
fn clear_screen_turns_every_pixel_off() {
    // I = glyph of 0; draw it at (0, 0); clear.
    let mut chip = load(&[0xA0, 0x50, 0xD0, 0x05, 0x00, 0xE0]);
    let keys = Keypad::new();
    run(&mut chip, &keys, 2);
    assert!(lit_pixels(&chip) > 0);
    run(&mut chip, &keys, 1);
    assert_eq!(lit_pixels(&chip), 0);
}

#[test]
fn delay_timer_round_trip() {
    let mut chip = load(&[0x60, 0x2A, 0xF0, 0x15, 0xF1, 0x07]);
    let keys = Keypad::new();
    run(&mut chip, &keys, 2);
    assert_eq!(chip.delay_timer(), 0x2A);
    run(&mut chip, &keys, 1);
    assert_eq!(chip.register(1), 0x2A);
}

#[test]
fn call_then_return_comes_back_after_the_call() {
    let mut chip = load(&[0x22, 0x06, 0x00, 0x00, 0x00, 0x00, 0x00, 0xEE]);
    let keys = Keypad::new();
    run(&mut chip, &keys, 1);
    assert_eq!(chip.pc(), 0x206);
    assert_eq!(chip.stack_pointer(), 1);
    assert_eq!(chip.stack_entry(1), 0x202);
    run(&mut chip, &keys, 1);
    assert_eq!(chip.pc(), 0x202);
    assert_eq!(chip.stack_pointer(), 0);
}

#[test]
fn add_registers_sets_carry() {
    let mut chip = load(&[0x60, 0xFF, 0x61, 0x01, 0x80, 0x14]);
    run(&mut chip, &Keypad::new(), 3);
    assert_eq!(chip.register(0), 0x00);
    assert_eq!(chip.flag(), 1);
}

#[test]
fn add_registers_without_carry_clears_flag() {
    let mut chip = load(&[0x6F, 0x07, 0x60, 0x10, 0x61, 0x20, 0x80, 0x14]);
    run(&mut chip, &Keypad::new(), 4);
    assert_eq!(chip.register(0), 0x30);
    assert_eq!(chip.flag(), 0);
}

#[test]
fn subtract_registers_wraps_and_clears_flag() {
    let mut chip = load(&[0x60, 0x01, 0x61, 0x02, 0x80, 0x15]);
    run(&mut chip, &Keypad::new(), 3);
    assert_eq!(chip.register(0), 0xFF);
    assert_eq!(chip.flag(), 0);
}

#[test]
fn subtract_reversed_sets_flag_when_no_borrow() {
    let mut chip = load(&[0x60, 0x01, 0x61, 0x03, 0x80, 0x17]);
    run(&mut chip, &Keypad::new(), 3);
    assert_eq!(chip.register(0), 0x02);
    assert_eq!(chip.flag(), 1);
}

#[test]
fn carry_flag_wins_when_x_is_f() {
    let mut chip = load(&[0x6F, 0xFF, 0x61, 0x01, 0x8F, 0x14]);
    run(&mut chip, &Keypad::new(), 3);
    assert_eq!(chip.flag(), 1);
}

#[test]
fn difference_wins_over_flag_when_x_is_f() {
    let mut chip = load(&[0x6F, 0x05, 0x61, 0x02, 0x8F, 0x15]);
    run(&mut chip, &Keypad::new(), 3);
    assert_eq!(chip.flag(), 0x03);
}

#[test]
fn logic_operations() {
    let mut chip = load(&[
        0x60, 0xF0, 0x61, 0x3C, 0x80, 0x11, // V0 = F0 | 3C
        0x62, 0xF0, 0x82, 0x12, // V2 = F0 & 3C
        0x63, 0xF0, 0x83, 0x13, // V3 = F0 ^ 3C
        0x84, 0x10, // V4 = V1
    ]);
    run(&mut chip, &Keypad::new(), 8);
    assert_eq!(chip.register(0), 0xFC);
    assert_eq!(chip.register(2), 0x30);
    assert_eq!(chip.register(3), 0xCC);
    assert_eq!(chip.register(4), 0x3C);
}

#[test]
fn shift_right_puts_low_bit_in_flag() {
    let mut chip = load(&[0x60, 0x81, 0x61, 0x00, 0x80, 0x16]);
    run(&mut chip, &Keypad::new(), 3);
    assert_eq!(chip.register(0), 0x40);
    assert_eq!(chip.flag(), 1);
}

#[test]
fn shift_left_puts_high_bit_in_flag() {
    let mut chip = load(&[0x60, 0x81, 0x80, 0x0E]);
    run(&mut chip, &Keypad::new(), 2);
    assert_eq!(chip.register(0), 0x02);
    assert_eq!(chip.flag(), 1);
}

#[test]
fn add_immediate_wraps_without_flag() {
    let mut chip = load(&[0x60, 0xF0, 0x70, 0x20]);
    run(&mut chip, &Keypad::new(), 2);
    assert_eq!(chip.register(0), 0x10);
    assert_eq!(chip.flag(), 0);
}

#[test]
fn skips_on_comparisons() {
    let keys = Keypad::new();
    let mut chip = load(&[0x60, 0x05, 0x30, 0x05]);
    run(&mut chip, &keys, 2);
    assert_eq!(chip.pc(), 0x206);
    let mut chip = load(&[0x60, 0x05, 0x40, 0x05]);
    run(&mut chip, &keys, 2);
    assert_eq!(chip.pc(), 0x204);
    let mut chip = load(&[0x60, 0x05, 0x61, 0x05, 0x50, 0x10]);
    run(&mut chip, &keys, 3);
    assert_eq!(chip.pc(), 0x208);
    let mut chip = load(&[0x60, 0x05, 0x61, 0x05, 0x90, 0x10]);
    run(&mut chip, &keys, 3);
    assert_eq!(chip.pc(), 0x206);
}

#[test]
fn jumps() {
    let keys = Keypad::new();
    let mut chip = load(&[0x1A, 0xBC]);
    run(&mut chip, &keys, 1);
    assert_eq!(chip.pc(), 0xABC);
    let mut chip = load(&[0x60, 0x10, 0xB3, 0x00]);
    run(&mut chip, &keys, 2);
    assert_eq!(chip.pc(), 0x310);
}

#[test]
fn draw_twice_turns_pixels_off_and_sets_flag() {
    let mut chip = load(&[0xA0, 0x50, 0xD0, 0x05, 0xD0, 0x05]);
    let keys = Keypad::new();
    run(&mut chip, &keys, 2);
    assert_eq!(chip.flag(), 0);
    // Glyph 0 is F0 90 90 90 F0.
    assert_eq!(lit_pixels(&chip), 14);
    assert!(chip.pixel(0, 0) && chip.pixel(3, 0) && !chip.pixel(4, 0));
    assert!(chip.pixel(0, 1) && !chip.pixel(1, 1) && chip.pixel(3, 1));
    run(&mut chip, &keys, 1);
    assert_eq!(chip.flag(), 1);
    assert_eq!(lit_pixels(&chip), 0);
}

#[test]
fn draw_clips_at_the_right_edge() {
    // x = 62, glyph 0: only columns 62 and 63 are drawn.
    let mut chip = load(&[0x60, 0x3E, 0x61, 0x00, 0xA0, 0x50, 0xD0, 0x11]);
    run(&mut chip, &Keypad::new(), 4);
    assert!(chip.pixel(62, 0) && chip.pixel(63, 0));
    assert!(!chip.pixel(0, 0) && !chip.pixel(1, 0));
    assert_eq!(lit_pixels(&chip), 2);
}

#[test]
fn draw_wraps_the_origin() {
    // VX = 64 + 2 and VY = 32 + 1 put the sprite at (2, 1).
    let mut chip = load(&[0x60, 0x42, 0x61, 0x21, 0xA0, 0x50, 0xD0, 0x11]);
    run(&mut chip, &Keypad::new(), 4);
    assert!(chip.pixel(2, 1) && chip.pixel(5, 1));
    assert_eq!(lit_pixels(&chip), 4);
}

#[test]
fn wait_for_key_repeats_until_a_key_is_pressed() {
    let mut chip = load(&[0xF3, 0x0A]);
    let mut keys = Keypad::new();
    for _ in 0..3 {
        chip.step(&keys, 0).unwrap();
        assert_eq!(chip.pc(), 0x200);
    }
    keys.last_pressed = Some(0x7);
    chip.step(&keys, 0).unwrap();
    assert_eq!(chip.register(3), 0x7);
    assert_eq!(chip.pc(), 0x202);
}

#[test]
fn key_skips() {
    let mut keys = Keypad::new();
    keys.down[5] = true;
    let mut chip = load(&[0x60, 0x05, 0xE0, 0x9E]);
    run(&mut chip, &keys, 2);
    assert_eq!(chip.pc(), 0x206);
    let mut chip = load(&[0x60, 0x05, 0xE0, 0xA1]);
    run(&mut chip, &keys, 2);
    assert_eq!(chip.pc(), 0x204);
    let mut chip = load(&[0x60, 0x06, 0xE0, 0xA1]);
    run(&mut chip, &keys, 2);
    assert_eq!(chip.pc(), 0x206);
    assert!(keys.is_down(5) && !keys.is_down(6) && !keys.is_down(0x15));
}

#[test]
fn rom_of_largest_size_loads() {
    let rom = vec![0xAB; MAX_ROM_SIZE];
    let chip = load(&rom);
    assert_eq!(chip.memory_at(0x200), 0xAB);
    assert_eq!(chip.memory_at(0xFFF), 0xAB);
}

#[test]
fn rom_one_byte_too_large_fails() {
    let rom = vec![0xAB; MAX_ROM_SIZE + 1];
    assert!(matches!(init_cpu(&rom), Err(Fault::RomTooLarge)));
}

#[test]
fn init_loads_font_and_program() {
    let chip = load(&[0x12, 0x34]);
    assert_eq!(chip.pc(), 0x200);
    assert_eq!(chip.memory_at(0x50), 0xF0);
    assert_eq!(chip.memory_at(0x55), 0x20);
    assert_eq!(chip.memory_at(0x9F), 0x80);
    assert_eq!(chip.memory_at(0x4F), 0x00);
    assert_eq!(chip.memory_at(0xA0), 0x00);
    assert_eq!(chip.memory_at(0x200), 0x12);
    assert_eq!(chip.memory_at(0x201), 0x34);
    assert_eq!(chip.memory_at(0x202), 0x00);
    assert_eq!(chip.memory()[0x201], 0x34);
    assert_eq!(chip.stack_pointer(), 0);
    assert_eq!(chip.index(), 0);
    assert_eq!(lit_pixels(&chip), 0);
}

#[test]
fn call_with_full_stack_overflows() {
    let mut chip = load(&[0x22, 0x00]);
    let keys = Keypad::new();
    run(&mut chip, &keys, 15);
    assert_eq!(chip.stack_pointer(), 15);
    assert_eq!(chip.step(&keys, 0), Err(Fault::StackOverflow));
    assert_eq!(chip.stack_pointer(), 15);
    assert_eq!(chip.pc(), 0x200);
}

#[test]
fn return_with_empty_stack_underflows() {
    let mut chip = load(&[0x00, 0xEE]);
    assert_eq!(chip.step(&Keypad::new(), 0), Err(Fault::StackUnderflow));
    assert_eq!(chip.pc(), 0x200);
}

#[test]
fn fetch_past_the_end_of_memory_fails() {
    let mut chip = load(&[0x1F, 0xFF]);
    let keys = Keypad::new();
    run(&mut chip, &keys, 1);
    assert_eq!(chip.step(&keys, 0), Err(Fault::AddressOutOfRange));
    assert_eq!(chip.pc(), 0xFFF);
}

#[test]
fn memory_block_past_the_end_fails() {
    let mut chip = load(&[0xAF, 0xFE, 0xF0, 0x33]);
    let keys = Keypad::new();
    run(&mut chip, &keys, 1);
    assert_eq!(chip.step(&keys, 0), Err(Fault::AddressOutOfRange));
    assert_eq!(chip.pc(), 0x202);
}

#[test]
fn decimal_digits_are_stored() {
    let mut chip = load(&[0x60, 0xFE, 0xA3, 0x00, 0xF0, 0x33]);
    run(&mut chip, &Keypad::new(), 3);
    assert_eq!(chip.memory_at(0x300), 2);
    assert_eq!(chip.memory_at(0x301), 5);
    assert_eq!(chip.memory_at(0x302), 4);
}

#[test]
fn font_address_of_digit() {
    let mut chip = load(&[0x60, 0x0A, 0xF0, 0x29]);
    run(&mut chip, &Keypad::new(), 2);
    assert_eq!(chip.index(), 0x82);
}

#[test]
fn index_add_and_set() {
    let mut chip = load(&[0xA1, 0x00, 0x60, 0x05, 0xF0, 0x1E]);
    run(&mut chip, &Keypad::new(), 3);
    assert_eq!(chip.index(), 0x105);
}

#[test]
fn timers_are_set_from_registers() {
    let mut chip = load(&[0x60, 0x02, 0xF0, 0x15, 0x61, 0x03, 0xF1, 0x18]);
    run(&mut chip, &Keypad::new(), 4);
    assert_eq!(chip.delay_timer(), 2);
    assert_eq!(chip.sound_timer(), 3);
    assert!(chip.sound_active());
}

#[test]
fn timers_count_down_to_zero_and_stay() {
    let mut chip = load(&[0x60, 0x02, 0xF0, 0x15, 0x61, 0x01, 0xF1, 0x18]);
    run(&mut chip, &Keypad::new(), 4);
    assert!(chip.tick_timers());
    assert_eq!(chip.delay_timer(), 1);
    assert_eq!(chip.sound_timer(), 0);
    assert!(!chip.sound_active());
    assert!(!chip.tick_timers());
    assert_eq!(chip.delay_timer(), 0);
    assert!(!chip.tick_timers());
    assert_eq!(chip.delay_timer(), 0);
    assert_eq!(chip.sound_timer(), 0);
}

#[test]
fn registers_are_stored_and_loaded() {
    let mut chip = load(&[
        0x60, 0x11, 0x61, 0x22, 0x62, 0x33, 0x63, 0x44, // V0..V3
        0xA4, 0x00, 0xF2, 0x55, // store V0..V2 at 0x400
        0x60, 0x00, 0x61, 0x00, 0x62, 0x00, // clear V0..V2
        0xF1, 0x65, // load V0..V1 back
    ]);
    run(&mut chip, &Keypad::new(), 10);
    assert_eq!(chip.memory_at(0x400), 0x11);
    assert_eq!(chip.memory_at(0x401), 0x22);
    assert_eq!(chip.memory_at(0x402), 0x33);
    assert_eq!(chip.memory_at(0x403), 0x00);
    assert_eq!(chip.register(0), 0x11);
    assert_eq!(chip.register(1), 0x22);
    assert_eq!(chip.register(2), 0x00);
    assert_eq!(chip.register(3), 0x44);
    assert_eq!(chip.index(), 0x400);
}

#[test]
fn undefined_combinations_only_advance() {
    let mut chip = load(&[0x60, 0x07, 0x80, 0x1F, 0xE0, 0x00, 0xF0, 0xFF, 0x00, 0x00]);
    let keys = Keypad::new();
    run(&mut chip, &keys, 5);
    assert_eq!(chip.pc(), 0x20A);
    assert_eq!(chip.register(0), 0x07);
    assert_eq!(chip.flag(), 0);
}

#[test]
fn random_byte_is_masked() {
    let mut chip = load(&[0xC0, 0x0F, 0xC1, 0x00]);
    let keys = Keypad::new();
    chip.execute(&keys).unwrap();
    assert!(chip.register(0) <= 0x0F);
    chip.execute(&keys).unwrap();
    assert_eq!(chip.register(1), 0);
    let mut chip = load(&[0xC0, 0x3C]);
    chip.step(&keys, 0xFF).unwrap();
    assert_eq!(chip.register(0), 0x3C);
}

#[test]
fn dump_marks() {
    assert_eq!(classify_cell(0x050, 0x00), CellKind::Zero);
    assert_eq!(classify_cell(0x050, 0xF0), CellKind::Reserved);
    assert_eq!(classify_cell(0x200, 0x12), CellKind::Program);
    assert_eq!(classify_cell(0x1FF, 0x12), CellKind::Reserved);
}
