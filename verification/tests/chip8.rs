use crunch::advance;
use crunch::Chip8;
use crunch::Chip8Error;
use crunch::Display;
use crunch::Memory;
use crunch::CPU;

const NO_KEYS: [bool; 16] = [false; 16];

fn fresh_cpu() -> CPU {
    CPU {
        delay_timer: 0,
        sound_timer: 0,
        stack: Vec::new(),
        program_counter: 0x200,
        index_register: 0,
        registers: [0; 16],
    }
}

fn run(rom: &[u8], steps: usize) -> Chip8 {
    let mut chip = Chip8::new(rom).unwrap();
    for _ in 0..steps {
        chip.advance(&NO_KEYS).unwrap();
    }
    chip
}

#[test]
fn memory_seeds_font_and_zeroes() {
    let m = Memory::new();
    assert_eq!(m.get(0x50), Ok(0xF0));
    assert_eq!(m.get(0x9F), Ok(0x80));
    assert_eq!(m.get(0x4F), Ok(0));
    assert_eq!(m.get(0xA0), Ok(0));
    assert_eq!(m.get(4095), Ok(0));
}

#[test]
fn memory_rejects_out_of_range() {
    let mut m = Memory::new();
    assert_eq!(m.get(4096), Err(Chip8Error::OutOfRange));
    assert_eq!(m.set(4096, 1), Err(Chip8Error::OutOfRange));
    assert_eq!(m.set(4095, 7), Ok(()));
    assert_eq!(m.get(4095), Ok(7));
}

#[test]
fn display_starts_blank_and_toggles() {
    let mut d = Display::new();
    assert_eq!(d.get_pixel(0, 0), Ok(false));
    assert_eq!(d.toggle_pixel(3, 2), Ok(false));
    assert_eq!(d.get_pixel(3, 2), Ok(true));
    assert_eq!(d.toggle_pixel(3, 2), Ok(true));
    assert_eq!(d.get_pixel(3, 2), Ok(false));
    assert_eq!(d.get_pixel(64, 0), Err(Chip8Error::OutOfRange));
    assert_eq!(d.toggle_pixel(0, 32), Err(Chip8Error::OutOfRange));
}

#[test]
fn display_clear_turns_everything_off() {
    let mut d = Display::new();
    d.toggle_pixel(10, 10).unwrap();
    d.toggle_pixel(63, 31).unwrap();
    d.clear();
    for y in 0..32 {
        for x in 0..64 {
            assert_eq!(d.get_pixel(x, y), Ok(false));
        }
    }
}

#[test]
fn cpu_register_accessors() {
    let mut c = fresh_cpu();
    c.set_register(4, 0xAB);
    assert_eq!(c.register(4), 0xAB);
    assert_eq!(c.register(0), 0);
}

#[test]
fn rom_too_large_is_rejected() {
    let big = vec![0u8; 3585];
    assert!(matches!(Chip8::new(&big), Err(Chip8Error::RomTooLarge)));
    let just_fits = vec![0x12u8; 3584];
    assert!(Chip8::new(&just_fits).is_ok());
}

#[test]
fn index_add_scenario_keeps_flag() {
    // Set register A to 2, then add it to the index register: the index
    // becomes 2 and the flag register is untouched.
    let chip = run(&[0x6A, 0x02, 0xFA, 0x1E], 2);
    assert_eq!(chip.cpu().index_register, 2);
    assert_eq!(chip.cpu().registers[10], 2);
    assert_eq!(chip.cpu().registers[15], 0);
}

#[test]
fn index_add_sets_flag_on_overflow() {
    let chip = run(&[0x6A, 0x01, 0xAF, 0xFF, 0xFA, 0x1E], 3);
    assert_eq!(chip.cpu().index_register, 0x1000);
    assert_eq!(chip.cpu().registers[15], 1);
}

#[test]
fn add_immediate_wraps_without_carry() {
    let chip = run(&[0x6A, 0xFF, 0x7A, 0x02], 2);
    assert_eq!(chip.cpu().registers[10], 1);
    assert_eq!(chip.cpu().registers[15], 0);
}

#[test]
fn add_register_sets_carry() {
    let chip = run(&[0x60, 0xC8, 0x61, 0xC8, 0x80, 0x14], 3);
    assert_eq!(chip.cpu().registers[0], 144);
    assert_eq!(chip.cpu().registers[15], 1);
}

#[test]
fn add_register_clears_carry() {
    let chip = run(&[0x60, 0x01, 0x61, 0x02, 0x80, 0x14], 3);
    assert_eq!(chip.cpu().registers[0], 3);
    assert_eq!(chip.cpu().registers[15], 0);
}

#[test]
fn sub_register_no_borrow() {
    let chip = run(&[0x60, 0x05, 0x61, 0x03, 0x80, 0x15], 3);
    assert_eq!(chip.cpu().registers[0], 2);
    assert_eq!(chip.cpu().registers[15], 1);
}

#[test]
fn sub_register_with_borrow() {
    let chip = run(&[0x60, 0x03, 0x61, 0x05, 0x80, 0x15], 3);
    assert_eq!(chip.cpu().registers[0], 254);
    assert_eq!(chip.cpu().registers[15], 0);
}

#[test]
fn sub_reverse_no_borrow() {
    let chip = run(&[0x60, 0x03, 0x61, 0x05, 0x80, 0x17], 3);
    assert_eq!(chip.cpu().registers[0], 2);
    assert_eq!(chip.cpu().registers[15], 1);
}

#[test]
fn sub_reverse_with_borrow() {
    let chip = run(&[0x60, 0x05, 0x61, 0x03, 0x80, 0x17], 3);
    assert_eq!(chip.cpu().registers[0], 254);
    assert_eq!(chip.cpu().registers[15], 0);
}

#[test]
fn bitwise_operators() {
    let chip = run(&[0x60, 0x0C, 0x61, 0x0A, 0x80, 0x11], 3);
    assert_eq!(chip.cpu().registers[0], 0x0E);
    let chip = run(&[0x60, 0x0C, 0x61, 0x0A, 0x80, 0x12], 3);
    assert_eq!(chip.cpu().registers[0], 0x08);
    let chip = run(&[0x60, 0x0C, 0x61, 0x0A, 0x80, 0x13], 3);
    assert_eq!(chip.cpu().registers[0], 0x06);
    let chip = run(&[0x60, 0x0C, 0x61, 0x0A, 0x80, 0x10], 3);
    assert_eq!(chip.cpu().registers[0], 0x0A);
}

#[test]
fn shift_right_in_place_by_default() {
    let chip = run(&[0x60, 0x05, 0x61, 0x02, 0x80, 0x16], 3);
    assert_eq!(chip.cpu().registers[0], 2);
    assert_eq!(chip.cpu().registers[15], 1);
}

#[test]
fn shift_right_reads_y_when_configured() {
    let mut chip = Chip8::new(&[0x60, 0x05, 0x61, 0x02, 0x80, 0x16]).unwrap();
    chip.set_shift_source_y(true);
    for _ in 0..3 {
        chip.advance(&NO_KEYS).unwrap();
    }
    assert_eq!(chip.cpu().registers[0], 1);
    assert_eq!(chip.cpu().registers[15], 0);
}

#[test]
fn shift_left_reports_high_bit() {
    let chip = run(&[0x60, 0x81, 0x80, 0x0E], 2);
    assert_eq!(chip.cpu().registers[0], 0x02);
    assert_eq!(chip.cpu().registers[15], 1);
}

#[test]
fn jump_sets_program_counter() {
    let chip = run(&[0x12, 0x08], 1);
    assert_eq!(chip.cpu().program_counter, 0x208);
}

#[test]
fn jump_with_offset_adds_register_zero() {
    let chip = run(&[0x60, 0x10, 0xB3, 0x00], 2);
    assert_eq!(chip.cpu().program_counter, 0x310);
}

#[test]
fn call_then_return_round_trip() {
    let mut chip = Chip8::new(&[0x22, 0x04, 0x00, 0x00, 0x00, 0xEE]).unwrap();
    chip.advance(&NO_KEYS).unwrap();
    assert_eq!(chip.cpu().program_counter, 0x204);
    assert_eq!(chip.cpu().stack, vec![0x202]);
    chip.advance(&NO_KEYS).unwrap();
    assert_eq!(chip.cpu().program_counter, 0x202);
    assert!(chip.cpu().stack.is_empty());
}

#[test]
fn return_with_empty_stack_fails() {
    let mut chip = Chip8::new(&[0x00, 0xEE]).unwrap();
    assert_eq!(chip.advance(&NO_KEYS), Err(Chip8Error::StackUnderflow));
    assert_eq!(chip.cpu().program_counter, 0x200);
}

#[test]
fn unknown_instruction_reports_raw_value() {
    let mut chip = Chip8::new(&[0x00, 0x00]).unwrap();
    assert_eq!(chip.advance(&NO_KEYS), Err(Chip8Error::UnknownInstruction(0)));
    let mut chip = Chip8::new(&[0x80, 0x08]).unwrap();
    assert_eq!(
        chip.advance(&NO_KEYS),
        Err(Chip8Error::UnknownInstruction(0x8008))
    );
}

#[test]
fn fetch_past_end_of_memory_fails() {
    let mut cpu = fresh_cpu();
    cpu.program_counter = 4095;
    let mut display = Display::new();
    let mut memory = Memory::new();
    assert_eq!(
        advance(&mut cpu, &mut display, &mut memory, &NO_KEYS, false),
        Err(Chip8Error::OutOfRange)
    );
    assert_eq!(cpu.program_counter, 4095);
}

#[test]
fn skip_families_compare_as_documented() {
    // 3XNN skips when equal.
    let chip = run(&[0x6A, 0x07, 0x3A, 0x07], 2);
    assert_eq!(chip.cpu().program_counter, 0x206);
    // 4XNN skips when not equal.
    let chip = run(&[0x6A, 0x07, 0x4A, 0x07], 2);
    assert_eq!(chip.cpu().program_counter, 0x204);
    // 5XY0 skips when the registers match.
    let chip = run(&[0x60, 0x03, 0x61, 0x03, 0x50, 0x10], 3);
    assert_eq!(chip.cpu().program_counter, 0x208);
    // 9XY0 skips when they differ.
    let chip = run(&[0x60, 0x03, 0x61, 0x04, 0x90, 0x10], 3);
    assert_eq!(chip.cpu().program_counter, 0x208);
}

#[test]
fn clear_then_draw_single_row() {
    // Two clears, point the index at an all-ones row byte, draw one row at
    // (0, 0): exactly the eight pixels of row zero are on, no collision.
    let rom = [
        0x00, 0xE0, 0x00, 0xE0, 0xA2, 0x0A, 0xD0, 0x11, 0x00, 0x00, 0xFF,
    ];
    let chip = run(&rom, 4);
    let mut lit = 0;
    for y in 0..32 {
        for x in 0..64 {
            if chip.display().get_pixel(x, y).unwrap() {
                assert!(y == 0 && x < 8);
                lit += 1;
            }
        }
    }
    assert_eq!(lit, 8);
    assert_eq!(chip.cpu().registers[15], 0);
}

#[test]
fn drawing_twice_restores_and_collides() {
    let rom = [
        0xA2, 0x0C, 0xD0, 0x11, 0xD0, 0x11, 0x00, 0x00, 0x00, 0x00, 0x00, 0x00, 0xFF,
    ];
    let mut chip = Chip8::new(&rom).unwrap();
    chip.advance(&NO_KEYS).unwrap();
    chip.advance(&NO_KEYS).unwrap();
    assert_eq!(chip.cpu().registers[15], 0);
    assert!(chip.display().get_pixel(0, 0).unwrap());
    chip.advance(&NO_KEYS).unwrap();
    assert_eq!(chip.cpu().registers[15], 1);
    for y in 0..32 {
        for x in 0..64 {
            assert!(!chip.display().get_pixel(x, y).unwrap());
        }
    }
}

#[test]
fn draw_clips_at_right_edge() {
    let rom = [
        0x60, 0x3C, 0x61, 0x00, 0xA2, 0x0A, 0xD0, 0x11, 0x00, 0x00, 0xFF,
    ];
    let chip = run(&rom, 4);
    let mut lit = 0;
    for x in 0..64 {
        if chip.display().get_pixel(x, 0).unwrap() {
            assert!(x >= 60);
            lit += 1;
        }
    }
    assert_eq!(lit, 4);
    assert_eq!(chip.cpu().registers[15], 0);
}

#[test]
fn draw_starting_position_wraps_modulo_grid() {
    // Column 64 wraps to column 0 before drawing begins.
    let rom = [
        0x60, 0x40, 0x61, 0x00, 0xA2, 0x0A, 0xD0, 0x11, 0x00, 0x00, 0xFF,
    ];
    let chip = run(&rom, 4);
    for x in 0..8 {
        assert!(chip.display().get_pixel(x, 0).unwrap());
    }
}

#[test]
fn sprite_read_past_memory_fails() {
    let mut cpu = fresh_cpu();
    cpu.index_register = 4095;
    let mut display = Display::new();
    let mut memory = Memory::new();
    // Draw two rows whose second byte would sit past address 4095.
    memory.set(0x200, 0xD0).unwrap();
    memory.set(0x201, 0x12).unwrap();
    assert_eq!(
        advance(&mut cpu, &mut display, &mut memory, &NO_KEYS, false),
        Err(Chip8Error::OutOfRange)
    );
    assert_eq!(cpu.program_counter, 0x200);
}

#[test]
fn bcd_digits_multiply_out() {
    let mut cpu = fresh_cpu();
    cpu.registers[0] = 234;
    cpu.index_register = 0x300;
    let mut display = Display::new();
    let mut memory = Memory::new();
    memory.set(0x200, 0xF0).unwrap();
    memory.set(0x201, 0x33).unwrap();
    advance(&mut cpu, &mut display, &mut memory, &NO_KEYS, false).unwrap();
    assert_eq!(memory.get(0x300), Ok(2));
    assert_eq!(memory.get(0x301), Ok(3));
    assert_eq!(memory.get(0x302), Ok(4));
}

#[test]
fn bcd_digits_of_small_value() {
    let mut cpu = fresh_cpu();
    cpu.registers[3] = 7;
    cpu.index_register = 0x300;
    let mut display = Display::new();
    let mut memory = Memory::new();
    memory.set(0x200, 0xF3).unwrap();
    memory.set(0x201, 0x33).unwrap();
    advance(&mut cpu, &mut display, &mut memory, &NO_KEYS, false).unwrap();
    assert_eq!(memory.get(0x300), Ok(0));
    assert_eq!(memory.get(0x301), Ok(0));
    assert_eq!(memory.get(0x302), Ok(7));
}

#[test]
fn bcd_past_end_of_memory_fails() {
    let mut cpu = fresh_cpu();
    cpu.index_register = 4094;
    let mut display = Display::new();
    let mut memory = Memory::new();
    memory.set(0x200, 0xF0).unwrap();
    memory.set(0x201, 0x33).unwrap();
    assert_eq!(
        advance(&mut cpu, &mut display, &mut memory, &NO_KEYS, false),
        Err(Chip8Error::OutOfRange)
    );
}

#[test]
fn dump_then_load_restores_registers() {
    let mut cpu = fresh_cpu();
    cpu.registers[0] = 11;
    cpu.registers[1] = 22;
    cpu.registers[2] = 33;
    cpu.index_register = 0x300;
    let mut display = Display::new();
    let mut memory = Memory::new();
    memory.set(0x200, 0xF2).unwrap();
    memory.set(0x201, 0x55).unwrap();
    memory.set(0x202, 0xF2).unwrap();
    memory.set(0x203, 0x65).unwrap();
    advance(&mut cpu, &mut display, &mut memory, &NO_KEYS, false).unwrap();
    assert_eq!(memory.get(0x300), Ok(11));
    assert_eq!(memory.get(0x301), Ok(22));
    assert_eq!(memory.get(0x302), Ok(33));
    // Scramble the registers, then load them back.
    cpu.registers[0] = 0xEE;
    cpu.registers[1] = 0xEE;
    cpu.registers[2] = 0xEE;
    advance(&mut cpu, &mut display, &mut memory, &NO_KEYS, false).unwrap();
    assert_eq!(cpu.registers[0], 11);
    assert_eq!(cpu.registers[1], 22);
    assert_eq!(cpu.registers[2], 33);
    assert_eq!(cpu.index_register, 0x300);
}

#[test]
fn dump_past_end_of_memory_fails() {
    let mut cpu = fresh_cpu();
    cpu.index_register = 4090;
    let mut display = Display::new();
    let mut memory = Memory::new();
    memory.set(0x200, 0xF7).unwrap();
    memory.set(0x201, 0x55).unwrap();
    assert_eq!(
        advance(&mut cpu, &mut display, &mut memory, &NO_KEYS, false),
        Err(Chip8Error::OutOfRange)
    );
}

#[test]
fn timers_count_down_once_per_step() {
    let mut chip = Chip8::new(&[0x60, 0x05, 0xF0, 0x15, 0xF0, 0x07]).unwrap();
    chip.advance(&NO_KEYS).unwrap();
    chip.advance(&NO_KEYS).unwrap();
    // The delay timer was set to 5 and has ticked once since.
    assert_eq!(chip.cpu().delay_timer, 4);
    chip.advance(&NO_KEYS).unwrap();
    // Register 0 read the timer before this step's tick.
    assert_eq!(chip.cpu().registers[0], 4);
    assert_eq!(chip.cpu().delay_timer, 3);
}

#[test]
fn sound_timer_is_observable() {
    let mut chip = Chip8::new(&[0x60, 0x03, 0xF0, 0x18]).unwrap();
    chip.advance(&NO_KEYS).unwrap();
    chip.advance(&NO_KEYS).unwrap();
    assert_eq!(chip.cpu().sound_timer, 2);
}

#[test]
fn delay_timer_holds_at_zero() {
    let chip = run(&[0x00, 0xE0, 0x00, 0xE0], 2);
    assert_eq!(chip.cpu().delay_timer, 0);
    assert_eq!(chip.cpu().sound_timer, 0);
}

#[test]
fn random_byte_is_masked() {
    // A zero mask pins the result regardless of the drawn byte.
    let chip = run(&[0xC0, 0x00], 1);
    assert_eq!(chip.cpu().registers[0], 0);
    let chip = run(&[0xC0, 0x0F], 1);
    assert!(chip.cpu().registers[0] <= 0x0F);
}

#[test]
fn wait_for_key_blocks_until_pressed() {
    let mut chip = Chip8::new(&[0xF0, 0x0A]).unwrap();
    chip.advance(&NO_KEYS).unwrap();
    assert_eq!(chip.cpu().program_counter, 0x200);
    chip.advance(&NO_KEYS).unwrap();
    assert_eq!(chip.cpu().program_counter, 0x200);
    let mut keys = [false; 16];
    keys[5] = true;
    chip.advance(&keys).unwrap();
    assert_eq!(chip.cpu().program_counter, 0x202);
    assert_eq!(chip.cpu().registers[0], 5);
}

#[test]
fn wait_for_key_stores_lowest_pressed() {
    let mut chip = Chip8::new(&[0xF3, 0x0A]).unwrap();
    let mut keys = [false; 16];
    keys[9] = true;
    keys[4] = true;
    chip.advance(&keys).unwrap();
    assert_eq!(chip.cpu().registers[3], 4);
}

#[test]
fn skip_if_key_pressed() {
    let mut chip = Chip8::new(&[0x6A, 0x03, 0xEA, 0x9E]).unwrap();
    let mut keys = [false; 16];
    keys[3] = true;
    chip.advance(&keys).unwrap();
    chip.advance(&keys).unwrap();
    assert_eq!(chip.cpu().program_counter, 0x206);
    let mut chip = Chip8::new(&[0x6A, 0x03, 0xEA, 0x9E]).unwrap();
    chip.advance(&NO_KEYS).unwrap();
    chip.advance(&NO_KEYS).unwrap();
    assert_eq!(chip.cpu().program_counter, 0x204);
}

#[test]
fn skip_if_key_not_pressed() {
    let mut chip = Chip8::new(&[0x6A, 0x03, 0xEA, 0xA1]).unwrap();
    chip.advance(&NO_KEYS).unwrap();
    chip.advance(&NO_KEYS).unwrap();
    assert_eq!(chip.cpu().program_counter, 0x206);
    let mut chip = Chip8::new(&[0x6A, 0x03, 0xEA, 0xA1]).unwrap();
    let mut keys = [false; 16];
    keys[3] = true;
    chip.advance(&keys).unwrap();
    chip.advance(&keys).unwrap();
    assert_eq!(chip.cpu().program_counter, 0x204);
}

#[test]
fn font_addressing_steps_by_five() {
    let chip = run(&[0x6A, 0x02, 0xFA, 0x29], 2);
    assert_eq!(chip.cpu().index_register, 0x50 + 10);
}

#[test]
fn index_register_takes_low_twelve_bits() {
    let chip = run(&[0xA1, 0x23], 1);
    assert_eq!(chip.cpu().index_register, 0x123);
}

#[test]
fn delay_timer_reads_into_register() {
    let chip = run(&[0xF5, 0x07], 1);
    assert_eq!(chip.cpu().registers[5], 0);
}
