use vstd::prelude::*;

verus! {

/// Number of keys on the keypad, indexed 0x0 to 0xF.
pub const KEY_COUNT: usize = 16;

/// The keypad: a pressed flag per key and the key pressed most recently.
#[derive(Debug)]
pub struct Keyboard {
    pressed_keys: Vec<bool>,
    last_pressed: u8,
}

impl Keyboard {
    /// The pressed flag of every key, by index.
    pub closed spec fn keys(&self) -> Seq<bool> {
        self.pressed_keys@
    }

    /// The index of the key pressed most recently (0 before any press).
    pub closed spec fn last(&self) -> u8 {
        self.last_pressed
    }

    pub open spec fn wf(&self) -> bool {
        self.keys().len() == KEY_COUNT && self.last() < KEY_COUNT
    }

    /// A keypad with every key released.
    pub fn new() -> (k: Keyboard)
        ensures
            k.wf(),
            forall|i: int| 0 <= i < KEY_COUNT ==> !(#[trigger] k.keys()[i]),
            k.last() == 0,
    {
        let mut pressed_keys: Vec<bool> = Vec::new();
        let mut n: usize = 0;
        while n < KEY_COUNT
            invariant
                n <= KEY_COUNT,
                pressed_keys@.len() == n,
                forall|i: int| 0 <= i < n ==> !(#[trigger] pressed_keys@[i]),
            decreases KEY_COUNT - n,
        {
            pressed_keys.push(false);
            n = n + 1;
        }
        Keyboard { pressed_keys, last_pressed: 0 }
    }

    /// Whether `key` is held down.
    pub fn is_pressed(&self, key: usize) -> (r: bool)
        requires
            self.wf(),
            key < KEY_COUNT,
        ensures
            r == self.keys()[key as int],
    {
        self.pressed_keys[key]
    }

    /// Marks `key` as held down and as the key pressed most recently.
    pub fn press_key(&mut self, key: usize)
        requires
            old(self).wf(),
            key < KEY_COUNT,
        ensures
            final(self).wf(),
            final(self).keys() == old(self).keys().update(key as int, true),
            final(self).last() == key as u8,
    {
        self.pressed_keys.set(key, true);
        self.last_pressed = key as u8;
    }

    /// Marks `key` as released; the key pressed most recently stays as it was.
    pub fn release_key(&mut self, key: usize)
        requires
            old(self).wf(),
            key < KEY_COUNT,
        ensures
            final(self).wf(),
            final(self).keys() == old(self).keys().update(key as int, false),
            final(self).last() == old(self).last(),
    {
        self.pressed_keys.set(key, false);
    }

    /// The key pressed most recently.
    pub fn last_pressed(&self) -> (r: u8)
        ensures
            r == self.last(),
    {
        self.last_pressed
    }
}

impl Default for Keyboard {
    fn default() -> (k: Keyboard)
        ensures
            k.wf(),
            forall|i: int| 0 <= i < KEY_COUNT ==> !(#[trigger] k.keys()[i]),
            k.last() == 0,
    {
        Keyboard::new()
    }
}

} // verus!
