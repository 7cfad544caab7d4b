use vstd::prelude::*;

verus! {

/// The sixteen physical keys that stand for the keypad, laid out as the
/// 4x4 block from `1` to `V` on a QWERTY keyboard.
#[derive(Debug, Clone, Copy, PartialEq, Eq, Structural)]
pub enum HostKey {
    Digit1,
    Digit2,
    Digit3,
    Digit4,
    KeyQ,
    KeyW,
    KeyE,
    KeyR,
    KeyA,
    KeyS,
    KeyD,
    KeyF,
    KeyZ,
    KeyX,
    KeyC,
    KeyV,
}

/// The keypad index of each physical key:
///
/// ```text
/// 1 2 3 4      1 2 3 C
/// Q W E R  ->  4 5 6 D
/// A S D F      7 8 9 E
/// Z X C V      A 0 B F
/// ```
pub open spec fn key_index_spec(k: HostKey) -> u8 {
    match k {
        HostKey::Digit1 => 0x1,
        HostKey::Digit2 => 0x2,
        HostKey::Digit3 => 0x3,
        HostKey::Digit4 => 0xC,
        HostKey::KeyQ => 0x4,
        HostKey::KeyW => 0x5,
        HostKey::KeyE => 0x6,
        HostKey::KeyR => 0xD,
        HostKey::KeyA => 0x7,
        HostKey::KeyS => 0x8,
        HostKey::KeyD => 0x9,
        HostKey::KeyF => 0xE,
        HostKey::KeyZ => 0xA,
        HostKey::KeyX => 0x0,
        HostKey::KeyC => 0xB,
        HostKey::KeyV => 0xF,
    }
}

/// The keypad index that physical key `k` stands for.
pub fn key_index(k: HostKey) -> (r: u8)
    ensures
        r == key_index_spec(k),
        r < 16,
{
    match k {
        HostKey::Digit1 => 0x1,
        HostKey::Digit2 => 0x2,
        HostKey::Digit3 => 0x3,
        HostKey::Digit4 => 0xC,
        HostKey::KeyQ => 0x4,
        HostKey::KeyW => 0x5,
        HostKey::KeyE => 0x6,
        HostKey::KeyR => 0xD,
        HostKey::KeyA => 0x7,
        HostKey::KeyS => 0x8,
        HostKey::KeyD => 0x9,
        HostKey::KeyF => 0xE,
        HostKey::KeyZ => 0xA,
        HostKey::KeyX => 0x0,
        HostKey::KeyC => 0xB,
        HostKey::KeyV => 0xF,
    }
}

/// Every keypad index has exactly one physical key.
pub proof fn lemma_key_map_is_one_to_one(a: HostKey, b: HostKey)
    ensures
        key_index_spec(a) == key_index_spec(b) ==> a == b,
{
}

} // verus!
