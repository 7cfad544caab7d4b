use chip8::{AudioEvent, CPUError, Chip8Handler, SystemEvent, TickReport};
use chip8::event::tone_for;

#[test]
fn tick_stops_at_redraw() {
    // CLS, LD V0 1, DRW V0 V0 1, LD V1 7, JP 0x206
    let rom = [0x00, 0xE0, 0x60, 0x01, 0xD0, 0x01, 0x61, 0x07, 0x12, 0x06];
    let mut h = Chip8Handler::new(&rom).unwrap();
    let r = h.update();
    assert_eq!(r, TickReport { redraw: true, shutdown: None, tone: None });
    let r = h.update();
    assert_eq!(r, TickReport { redraw: false, shutdown: None, tone: None });
}

#[test]
fn tick_reports_fault_and_tone() {
    // LD V0 60, LD ST V0, then an unknown opcode
    let rom = [0x60, 0x3C, 0xF0, 0x18, 0xFF, 0xFF];
    let mut h = Chip8Handler::new(&rom).unwrap();
    let r = h.update();
    assert!(!r.redraw);
    assert_eq!(r.shutdown, Some(CPUError::UnknownOpcode(0xFFFF, 0x204)));
    assert_eq!(r.tone, Some(AudioEvent::Play(1000)));
}

#[test]
fn timers_step_once_per_tick() {
    // LD V0 5, LD DT V0, then loop on itself
    let rom = [0x60, 0x05, 0xF0, 0x15, 0x12, 0x04];
    let mut h = Chip8Handler::new(&rom).unwrap();
    h.update();
    assert_eq!(h.cpu().delay_timer(), 4);
    h.start_ff();
    h.update();
    assert_eq!(h.cpu().delay_timer(), 3);
    h.stop_ff();
    h.update();
    assert_eq!(h.cpu().delay_timer(), 2);
    assert!(h.get_frame_buffer().iter().all(|&v| v == 0));
}

#[test]
fn events_drive_the_handler() {
    let rom = [0xF2, 0x0A, 0x12, 0x02];
    let mut h = Chip8Handler::new(&rom).unwrap();
    h.update();
    assert!(h.handle_event(SystemEvent::KeyEvent(0x20, true)));
    assert!(h.cpu().is_halted());
    assert!(h.handle_event(SystemEvent::KeyEvent(0x4, true)));
    assert!(!h.cpu().is_halted());
    assert_eq!(h.cpu().register(2), 4);
    assert!(h.handle_event(SystemEvent::StartFastForward));
    assert!(h.handle_event(SystemEvent::UpdateTimer));
    assert!(h.handle_event(SystemEvent::StopFastForward));
    assert!(!h.handle_event(SystemEvent::CloseRequested));
    h.update_key(0x4, false);
}

#[test]
fn reset_refuses_oversized_rom() {
    let mut h = Chip8Handler::new(&[0x12, 0x00]).unwrap();
    assert_eq!(h.reset(&vec![0u8; 4000]), Err(CPUError::RomTooLarge(4000)));
    assert_eq!(h.reset(&[0x00, 0xE0]), Ok(()));
    assert!(Chip8Handler::new(&vec![1u8; 3585]).is_err());
}

#[test]
fn tone_length_is_sixtieths_of_a_second() {
    assert_eq!(tone_for(60), AudioEvent::Play(1000));
    assert_eq!(tone_for(6), AudioEvent::Play(100));
    assert_eq!(tone_for(1), AudioEvent::Play(16));
    assert_eq!(tone_for(0), AudioEvent::Play(0));
}

#[test]
fn frame_image_is_a_pbm_bitmap() {
    // LD I 0 (glyph 0), DRW V0 V0 5
    let rom = [0xA0, 0x00, 0xD0, 0x05, 0x12, 0x04];
    let mut h = Chip8Handler::new(&rom).unwrap();
    assert!(h.update().redraw);
    let img = h.get_frame_image();
    assert_eq!(&img[..9], &[0x50, 0x34, 0x20, 0x36, 0x34, 0x20, 0x33, 0x32, 0x0A]);
    assert_eq!(img.len(), 9 + 256);
    assert_eq!(img[9], !0xF0u8);
    assert_eq!(img[9 + 8], !0x90u8);
    assert_eq!(img[9 + 1], 0xFF);
}
