use vstd::prelude::*;

verus! {

/// Conditions that stop the virtual machine. None of them is recoverable.
#[derive(Debug, Clone, Copy, PartialEq, Eq, Structural)]
pub enum CPUError {
    /// An opcode outside the instruction table, with the address it was fetched from.
    UnknownOpcode(u16, u16),
    /// A fetch, load or store that reaches past the last byte of memory.
    RamOutOfBounds,
    /// A call with all sixteen return slots in use.
    StackOverflow,
    /// A return with no call pending.
    StackUnderflow,
    /// A keypad query naming a key other than 0x0 to 0xF.
    InvalidKey(u8),
    /// A program image larger than the memory above the entry address.
    RomTooLarge(usize),
}

/// The description a host shows for each fault.
pub open spec fn message_of(e: CPUError) -> Seq<char> {
    match e {
        CPUError::UnknownOpcode(_, _) => "unknown opcode"@,
        CPUError::RamOutOfBounds => "ran out of RAM"@,
        CPUError::StackOverflow => "stack overflow"@,
        CPUError::StackUnderflow => "stack underflow"@,
        CPUError::InvalidKey(_) => "invalid key"@,
        CPUError::RomTooLarge(_) => "program image too large"@,
    }
}

impl CPUError {
    /// A one-line description, as a host shows it when the machine stops.
    pub fn message(&self) -> (r: String)
        ensures
            r@ == message_of(*self),
    {
        match self {
            CPUError::UnknownOpcode(_, _) => String::from_str("unknown opcode"),
            CPUError::RamOutOfBounds => String::from_str("ran out of RAM"),
            CPUError::StackOverflow => String::from_str("stack overflow"),
            CPUError::StackUnderflow => String::from_str("stack underflow"),
            CPUError::InvalidKey(_) => String::from_str("invalid key"),
            CPUError::RomTooLarge(_) => String::from_str("program image too large"),
        }
    }
}

} // verus!
