use chip8::{key_index, CPUError, Chip8, HostKey, Keyboard, Stack};

#[test]
fn sixteen_pushes_fit_and_seventeenth_overflows() {
    let mut s = Stack::new();
    for k in 0..16u16 {
        s.push(0x200 + 2 * k);
    }
    assert_eq!(s.len(), 16);
    for k in (0..16u16).rev() {
        assert_eq!(s.pop(), 0x200 + 2 * k);
    }
}

#[test]
fn pop_returns_most_recent_first() {
    let mut s = Stack::default();
    s.push(0x210);
    s.push(0x344);
    assert_eq!(s.pop(), 0x344);
    assert_eq!(s.pop(), 0x210);
    assert_eq!(s.len(), 0);
}

#[test]
fn pop_on_empty_stack_underflows() {
    let mut c = Chip8::new();
    assert_eq!(c.execute_instruction(0x00EE), Err(CPUError::StackUnderflow));
    assert_eq!(c.pc(), 0x200);
}

#[test]
fn keys_press_and_release() {
    let mut k = Keyboard::new();
    assert!(!k.is_pressed(0xA));
    k.press_key(0xA);
    assert!(k.is_pressed(0xA));
    assert_eq!(k.last_pressed(), 0xA);
    k.press_key(0xA);
    assert!(k.is_pressed(0xA));
    k.press_key(0x3);
    k.release_key(0xA);
    assert!(!k.is_pressed(0xA));
    assert!(k.is_pressed(0x3));
    assert_eq!(k.last_pressed(), 0x3);
    k.release_key(0xA);
    assert!(!k.is_pressed(0xA));
}

#[test]
fn host_keys_map_to_the_keypad_layout() {
    assert_eq!(key_index(HostKey::Digit1), 0x1);
    assert_eq!(key_index(HostKey::Digit4), 0xC);
    assert_eq!(key_index(HostKey::KeyR), 0xD);
    assert_eq!(key_index(HostKey::KeyF), 0xE);
    assert_eq!(key_index(HostKey::KeyZ), 0xA);
    assert_eq!(key_index(HostKey::KeyX), 0x0);
    assert_eq!(key_index(HostKey::KeyV), 0xF);
    let all = [
        HostKey::Digit1, HostKey::Digit2, HostKey::Digit3, HostKey::Digit4,
        HostKey::KeyQ, HostKey::KeyW, HostKey::KeyE, HostKey::KeyR,
        HostKey::KeyA, HostKey::KeyS, HostKey::KeyD, HostKey::KeyF,
        HostKey::KeyZ, HostKey::KeyX, HostKey::KeyC, HostKey::KeyV,
    ];
    let mut seen = [false; 16];
    for k in all {
        seen[key_index(k) as usize] = true;
    }
    assert!(seen.iter().all(|&b| b));
}
