use vstd::prelude::*;
use crate::error::CPUError;

verus! {

/// How an executed instruction asks the program counter to move, or what it
/// asks of the host.
#[derive(Debug, Clone, Copy, PartialEq, Eq, Structural)]
pub enum Chip8Event {
    /// Go on to the next instruction.
    IncrementPC,
    /// Skip the next instruction.
    SkipNextInstruction,
    /// The instruction set the program counter itself.
    DoNotIncrementPC,
    /// Halt until a key press, whose index goes to the named register.
    KBHaltOnBuffer(usize),
    /// The framebuffer changed; go on to the next instruction.
    RequestRedraw,
    /// The sound timer was set to this many sixtieths of a second; sound the
    /// tone and go on to the next instruction.
    PlayTone(u8),
    /// The machine stopped on this fault.
    Shutdown(CPUError),
}

/// A message to the tone generator.
#[derive(Debug, Clone, Copy, PartialEq, Eq, Structural)]
pub enum AudioEvent {
    /// Sound the tone for this many milliseconds.
    Play(u32),
    /// Stop the tone generator.
    Terminate,
}

/// A message from the input side to the interpreter.
#[derive(Debug, Clone, Copy, PartialEq, Eq, Structural)]
pub enum SystemEvent {
    /// Key 0x0 to 0xF went down (`true`) or up (`false`).
    KeyEvent(u8, bool),
    StartFastForward,
    StopFastForward,
    /// One timer period (a sixtieth of a second) elapsed.
    UpdateTimer,
    CloseRequested,
}

/// Milliseconds in `ticks` sixtieths of a second, rounded down.
pub open spec fn tone_millis_spec(ticks: u8) -> u32 {
    (ticks as int * 1000 / 60) as u32
}

/// The tone request for a sound timer set to `ticks`.
pub fn tone_for(ticks: u8) -> (r: AudioEvent)
    ensures
        r == AudioEvent::Play(tone_millis_spec(ticks)),
{
    let ms: u32 = ticks as u32 * 1000 / 60;
    AudioEvent::Play(ms)
}

} // verus!
