//! An interpreter for the CHIP-8 virtual machine: memory, registers, timers,
//! call stack, keypad and a monochrome framebuffer, with a scheduler that
//! drives it at a fixed instruction rate.
pub mod cpu;
pub mod error;
pub mod event;
pub mod handler;
pub mod keyboard;
pub mod keymap;
pub mod laws;
pub mod screen;
pub mod stack;

pub use cpu::{Chip8, Chip8State, ENTRY_POINT, MAX_ROM_LEN, RAM_SIZE};
pub use error::CPUError;
pub use event::{AudioEvent, Chip8Event, SystemEvent};
pub use handler::{Chip8Handler, TickReport, CPU_IPF, FF_IPF};
pub use keyboard::Keyboard;
pub use keymap::{key_index, HostKey};
pub use screen::{Screen, ScreenError, BUFFER_LEN, HEIGHT, WIDTH};
pub use stack::Stack;
