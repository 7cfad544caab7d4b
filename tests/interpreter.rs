use chip8::{CPUError, Chip8, Chip8Event, ENTRY_POINT};

fn machine(rom: &[u8]) -> Chip8 {
    Chip8::new().with_rom(rom).unwrap()
}

fn run(c: &mut Chip8, ops: &[u16]) {
    for &op in ops {
        c.execute_instruction(op).unwrap();
    }
}

#[test]
fn fresh_machine_has_font_and_entry_point() {
    let c = Chip8::new();
    assert_eq!(c.pc(), ENTRY_POINT);
    assert_eq!(c.memory(0), 0xF0);
    assert_eq!(c.memory(5), 0x20);
    assert_eq!(c.memory(79), 0x80);
    assert_eq!(c.memory(80), 0);
    assert_eq!(c.register(0xF), 0);
    assert!(!c.is_halted());
}

#[test]
fn rom_is_copied_at_entry_point() {
    let c = machine(&[0x12, 0x34, 0x56]);
    assert_eq!(c.memory(0x200), 0x12);
    assert_eq!(c.memory(0x202), 0x56);
    assert_eq!(c.memory(0x203), 0);
}

#[test]
fn oversized_rom_is_refused() {
    let big = vec![0u8; 3585];
    assert_eq!(Chip8::new().with_rom(&big).err(), Some(CPUError::RomTooLarge(3585)));
    let full = vec![0xAAu8; 3584];
    let c = Chip8::new().with_rom(&full).unwrap();
    assert_eq!(c.memory(0xFFF), 0xAA);
}

#[test]
fn add_sets_carry_flag_exactly_on_overflow() {
    let mut c = Chip8::new();
    run(&mut c, &[0x61C8, 0x6264, 0x8124]);
    assert_eq!(c.register(1), 44);
    assert_eq!(c.register(0xF), 1);
    run(&mut c, &[0x61C8, 0x6237, 0x8124]);
    assert_eq!(c.register(1), 255);
    assert_eq!(c.register(0xF), 0);
}

#[test]
fn sub_sets_flag_when_no_borrow() {
    let mut c = Chip8::new();
    run(&mut c, &[0x610A, 0x620A, 0x8125]);
    assert_eq!(c.register(1), 0);
    assert_eq!(c.register(0xF), 1);
    run(&mut c, &[0x6105, 0x620A, 0x8125]);
    assert_eq!(c.register(1), 251);
    assert_eq!(c.register(0xF), 0);
}

#[test]
fn subn_sets_flag_when_vy_not_below_vx() {
    let mut c = Chip8::new();
    run(&mut c, &[0x6105, 0x620A, 0x8127]);
    assert_eq!(c.register(1), 5);
    assert_eq!(c.register(0xF), 1);
    run(&mut c, &[0x610A, 0x6205, 0x8127]);
    assert_eq!(c.register(1), 251);
    assert_eq!(c.register(0xF), 0);
}

#[test]
fn flag_register_as_destination_keeps_the_flag() {
    let mut c = Chip8::new();
    run(&mut c, &[0x6FF0, 0x6120, 0x8F14]);
    assert_eq!(c.register(0xF), 1);
}

#[test]
fn shifts_take_vy_and_report_the_bit_shifted_out() {
    let mut c = Chip8::new();
    run(&mut c, &[0x6100, 0x6281, 0x8126]);
    assert_eq!(c.register(1), 0x40);
    assert_eq!(c.register(0xF), 1);
    run(&mut c, &[0x6281, 0x812E]);
    assert_eq!(c.register(1), 0x02);
    assert_eq!(c.register(0xF), 1);
    run(&mut c, &[0x6202, 0x812E]);
    assert_eq!(c.register(1), 0x04);
    assert_eq!(c.register(0xF), 0);
}

#[test]
fn logic_ops_clear_vf_only_when_configured() {
    let mut c = Chip8::new();
    run(&mut c, &[0x6F01, 0x610C, 0x620A, 0x8121]);
    assert_eq!(c.register(1), 0x0E);
    assert_eq!(c.register(0xF), 0);
    let mut c = Chip8::new().with_logic_resets_vf(false);
    run(&mut c, &[0x6F01, 0x610C, 0x620A, 0x8122]);
    assert_eq!(c.register(1), 0x08);
    assert_eq!(c.register(0xF), 1);
    run(&mut c, &[0x610C, 0x8123]);
    assert_eq!(c.register(1), 0x06);
}

#[test]
fn skips_report_skip_events() {
    let mut c = Chip8::new();
    run(&mut c, &[0x6307, 0x6407]);
    assert_eq!(c.execute_instruction(0x3307), Ok(Chip8Event::SkipNextInstruction));
    assert_eq!(c.execute_instruction(0x3308), Ok(Chip8Event::IncrementPC));
    assert_eq!(c.execute_instruction(0x4308), Ok(Chip8Event::SkipNextInstruction));
    assert_eq!(c.execute_instruction(0x5340), Ok(Chip8Event::SkipNextInstruction));
    assert_eq!(c.execute_instruction(0x9340), Ok(Chip8Event::IncrementPC));
}

#[test]
fn malformed_opcodes_are_fatal() {
    let mut c = Chip8::new();
    assert_eq!(c.execute_instruction(0x5341), Err(CPUError::UnknownOpcode(0x5341, 0x200)));
    assert_eq!(c.execute_instruction(0x9341), Err(CPUError::UnknownOpcode(0x9341, 0x200)));
    assert_eq!(c.execute_instruction(0x8128), Err(CPUError::UnknownOpcode(0x8128, 0x200)));
    assert_eq!(c.execute_instruction(0xE1A2), Err(CPUError::UnknownOpcode(0xE1A2, 0x200)));
    assert_eq!(c.execute_instruction(0xF1FF), Err(CPUError::UnknownOpcode(0xF1FF, 0x200)));
}

#[test]
fn system_calls_are_no_ops() {
    let mut c = Chip8::new();
    assert_eq!(c.execute_instruction(0x0123), Ok(Chip8Event::IncrementPC));
    assert_eq!(c.execute_instruction(0x0000), Ok(Chip8Event::IncrementPC));
    assert_eq!(c.pc(), 0x200);
}

#[test]
fn call_and_return() {
    let mut c = Chip8::new();
    assert_eq!(c.execute_instruction(0x2ABC), Ok(Chip8Event::DoNotIncrementPC));
    assert_eq!(c.pc(), 0xABC);
    assert_eq!(c.execute_instruction(0x00EE), Ok(Chip8Event::IncrementPC));
    assert_eq!(c.pc(), 0x200);
    assert_eq!(c.execute_instruction(0x00EE), Err(CPUError::StackUnderflow));
}

#[test]
fn seventeenth_nested_call_overflows() {
    let mut c = Chip8::new();
    for _ in 0..16 {
        assert_eq!(c.execute_instruction(0x2300), Ok(Chip8Event::DoNotIncrementPC));
    }
    assert_eq!(c.execute_instruction(0x2300), Err(CPUError::StackOverflow));
}

#[test]
fn jumps_set_the_program_counter() {
    let mut c = Chip8::new();
    assert_eq!(c.execute_instruction(0x1345), Ok(Chip8Event::DoNotIncrementPC));
    assert_eq!(c.pc(), 0x345);
    run(&mut c, &[0x6010]);
    assert_eq!(c.execute_instruction(0xB300), Ok(Chip8Event::DoNotIncrementPC));
    assert_eq!(c.pc(), 0x310);
}

#[test]
fn index_register_operations() {
    let mut c = Chip8::new();
    run(&mut c, &[0xA123, 0x6105, 0xF11E]);
    assert_eq!(c.index(), 0x128);
    run(&mut c, &[0x611B, 0xF129]);
    assert_eq!(c.index(), 0xB * 5);
    run(&mut c, &[0xAFFF, 0x61FF, 0xF11E]);
    assert_eq!(c.index(), 0x10FE);
}

#[test]
fn bcd_store_writes_three_digits() {
    let mut c = Chip8::new();
    run(&mut c, &[0xA300, 0x62FE, 0xF233]);
    assert_eq!(c.memory(0x300), 2);
    assert_eq!(c.memory(0x301), 5);
    assert_eq!(c.memory(0x302), 4);
    run(&mut c, &[0xAFFE]);
    assert_eq!(c.execute_instruction(0xF233), Err(CPUError::RamOutOfBounds));
}

#[test]
fn block_store_and_load_advance_index() {
    let mut c = Chip8::new();
    run(&mut c, &[0x6011, 0x6122, 0x6233, 0xA400, 0xF255]);
    assert_eq!(c.memory(0x400), 0x11);
    assert_eq!(c.memory(0x401), 0x22);
    assert_eq!(c.memory(0x402), 0x33);
    assert_eq!(c.index(), 0x403);
    run(&mut c, &[0x6000, 0x6100, 0xA400, 0xF165]);
    assert_eq!(c.register(0), 0x11);
    assert_eq!(c.register(1), 0x22);
    assert_eq!(c.index(), 0x402);
    run(&mut c, &[0xAFFF]);
    assert_eq!(c.execute_instruction(0xF155), Err(CPUError::RamOutOfBounds));
}

#[test]
fn timers_load_and_count_down_to_zero() {
    let mut c = Chip8::new();
    run(&mut c, &[0x6102, 0xF115]);
    assert_eq!(c.delay_timer(), 2);
    assert_eq!(c.execute_instruction(0xF118), Ok(Chip8Event::PlayTone(2)));
    c.decrement_timers();
    c.decrement_timers();
    c.decrement_timers();
    assert_eq!(c.delay_timer(), 0);
    assert_eq!(c.sound_timer(), 0);
    run(&mut c, &[0x6109, 0xF115, 0xF207]);
    assert_eq!(c.register(2), 9);
    assert_eq!(c.execute_instruction(0xF318), Ok(Chip8Event::IncrementPC));
}

#[test]
fn random_byte_is_masked() {
    let mut c = Chip8::new();
    run(&mut c, &[0xC500]);
    assert_eq!(c.register(5), 0);
    for _ in 0..20 {
        run(&mut c, &[0xC50F]);
        assert!(c.register(5) <= 0x0F);
    }
    assert_eq!(c.execute_with(0xC53C, 0xFF), Ok(Chip8Event::IncrementPC));
    assert_eq!(c.register(5), 0x3C);
}

#[test]
fn draw_reports_redraw_and_collision() {
    let mut c = Chip8::new();
    run(&mut c, &[0x6A00, 0x6B00, 0xA000]);
    assert_eq!(c.execute_instruction(0xDAB5), Ok(Chip8Event::RequestRedraw));
    assert_eq!(c.register(0xF), 0);
    let b = c.get_display_buffer();
    assert_eq!(b[0], 0xF0);
    assert_eq!(b[8], 0x90);
    assert_eq!(c.execute_instruction(0xDAB5), Ok(Chip8Event::RequestRedraw));
    assert_eq!(c.register(0xF), 1);
    assert!(c.get_display_buffer().iter().all(|&v| v == 0));
    run(&mut c, &[0xAFFC]);
    assert_eq!(c.execute_instruction(0xDAB5), Err(CPUError::RamOutOfBounds));
}

#[test]
fn key_skips_check_the_key_named_by_vx() {
    let mut c = Chip8::new();
    run(&mut c, &[0x6107]);
    assert_eq!(c.execute_instruction(0xE19E), Ok(Chip8Event::IncrementPC));
    assert_eq!(c.execute_instruction(0xE1A1), Ok(Chip8Event::SkipNextInstruction));
    c.set_key(7, true);
    assert_eq!(c.execute_instruction(0xE19E), Ok(Chip8Event::SkipNextInstruction));
    assert_eq!(c.execute_instruction(0xE1A1), Ok(Chip8Event::IncrementPC));
    c.set_key(7, false);
    assert_eq!(c.execute_instruction(0xE19E), Ok(Chip8Event::IncrementPC));
    run(&mut c, &[0x6110]);
    assert_eq!(c.execute_instruction(0xE19E), Err(CPUError::InvalidKey(0x10)));
}

#[test]
fn key_wait_halts_until_a_press() {
    let mut c = machine(&[0xF3, 0x0A, 0x73, 0x01]);
    assert_eq!(c.update(), None);
    assert!(c.is_halted());
    assert_eq!(c.pc(), 0x202);
    for _ in 0..100 {
        assert_eq!(c.update(), None);
        assert_eq!(c.pc(), 0x202);
    }
    c.set_key(0x2, false);
    assert!(c.is_halted());
    c.set_key(0xA, true);
    assert!(!c.is_halted());
    assert_eq!(c.register(3), 0xA);
    assert_eq!(c.update(), None);
    assert_eq!(c.pc(), 0x204);
    assert_eq!(c.register(3), 0xB);
}

#[test]
fn clear_then_jump_to_self_loops_forever() {
    let mut c = machine(&[0x00, 0xE0, 0x12, 0x00]);
    assert!(c.get_display_buffer().iter().all(|&v| v == 0));
    for _ in 0..1000 {
        assert_eq!(c.update(), None);
        assert!(c.pc() == 0x200 || c.pc() == 0x202);
    }
    assert!(c.get_display_buffer().iter().all(|&v| v == 0));
}

#[test]
fn load_then_add_gives_ten() {
    let mut c = machine(&[0x60, 0x05, 0x70, 0x05]);
    assert_eq!(c.update(), None);
    assert_eq!(c.update(), None);
    assert_eq!(c.register(0), 10);
    assert_eq!(c.register(0xF), 0);
    assert_eq!(c.pc(), 0x204);
}

#[test]
fn fetch_past_memory_end_shuts_down() {
    let mut c = machine(&[0x1F, 0xFF]);
    assert_eq!(c.update(), None);
    assert_eq!(c.pc(), 0xFFF);
    assert_eq!(c.update(), Some(Chip8Event::Shutdown(CPUError::RamOutOfBounds)));
}

#[test]
fn unknown_opcode_in_cycle_shuts_down() {
    let mut c = machine(&[0xFF, 0xFF]);
    assert_eq!(
        c.update(),
        Some(Chip8Event::Shutdown(CPUError::UnknownOpcode(0xFFFF, 0x200)))
    );
    assert_eq!(c.pc(), 0x200);
}

#[test]
fn skip_in_cycle_moves_four_bytes() {
    let mut c = machine(&[0x30, 0x00, 0x00, 0x00]);
    assert_eq!(c.update_with(0), None);
    assert_eq!(c.pc(), 0x204);
    c.increment_pc();
    assert_eq!(c.pc(), 0x206);
}

#[test]
fn error_messages_are_readable() {
    assert_eq!(CPUError::StackOverflow.message(), "stack overflow");
    assert_eq!(CPUError::RamOutOfBounds.message(), "ran out of RAM");
}

#[test]
fn key_wait_in_last_word_holds_without_shutdown() {
    let mut rom = vec![0x1F, 0xFE];
    rom.resize(0xFFE - 0x200, 0);
    rom.extend_from_slice(&[0xF4, 0x0A]);
    let mut c = machine(&rom);
    assert_eq!(c.update(), None);
    assert_eq!(c.pc(), 0xFFE);
    assert_eq!(c.update(), None);
    assert!(c.is_halted());
    assert_eq!(c.pc(), 0x1000);
    for _ in 0..50 {
        assert_eq!(c.update(), None);
        assert_eq!(c.pc(), 0x1000);
    }
    c.set_key(0x6, true);
    assert_eq!(c.register(4), 0x6);
    assert_eq!(c.update(), Some(Chip8Event::Shutdown(CPUError::RamOutOfBounds)));
}
