//! The interpreter and the semantics of its instruction set.
//!
//! Where interpreters of this machine have differed, this one:
//! - shifts (8xy6, 8xyE) take Vy as their source and write the result to Vx;
//! - clears VF after OR, AND and XOR unless built with
//!   `with_logic_resets_vf(false)`;
//! - advances I past the last byte moved by the block store and load
//!   (Fx55, Fx65);
//! - wraps sprites around the right and bottom edges of the display;
//! - takes LD F, Vx (Fx29) to the glyph of the low nibble of Vx.
use vstd::prelude::*;
use crate::error::CPUError;
use crate::event::Chip8Event;
use crate::keyboard::{Keyboard, KEY_COUNT};
use crate::screen::{collides, drawn, Screen, BUFFER_LEN};
use crate::stack::{Stack, STACK_DEPTH};

verus! {

/// Bytes of memory.
pub const RAM_SIZE: usize = 4096;
/// Address of the first instruction of a program.
pub const ENTRY_POINT: u16 = 0x200;
/// Number of general registers, V0 to VF.
pub const REG_COUNT: usize = 16;
/// Bytes of the built-in font: sixteen glyphs of five rows.
pub const FONT_LEN: usize = 80;
/// Largest program image: the memory above the entry address.
pub const MAX_ROM_LEN: usize = 3584;

/// The built-in hexadecimal font, glyph 0x0 to 0xF, five rows each.
pub open spec fn font() -> Seq<u8> {
    seq![
        0xF0u8, 0x90, 0x90, 0x90, 0xF0, 0x20, 0x60, 0x20, 0x20, 0x70,
        0xF0, 0x10, 0xF0, 0x80, 0xF0, 0xF0, 0x10, 0xF0, 0x10, 0xF0,
        0x90, 0x90, 0xF0, 0x10, 0x10, 0xF0, 0x80, 0xF0, 0x10, 0xF0,
        0xF0, 0x80, 0xF0, 0x90, 0xF0, 0xF0, 0x10, 0x20, 0x40, 0x40,
        0xF0, 0x90, 0xF0, 0x90, 0xF0, 0xF0, 0x90, 0xF0, 0x10, 0xF0,
        0xF0, 0x90, 0xF0, 0x90, 0x90, 0xE0, 0x90, 0xE0, 0x90, 0xE0,
        0xF0, 0x80, 0x80, 0x80, 0xF0, 0xE0, 0x90, 0x90, 0x90, 0xE0,
        0xF0, 0x80, 0xF0, 0x80, 0xF0, 0xF0, 0x80, 0xF0, 0x80, 0x80,
    ]
}

/// The whole machine state, as the instruction semantics speak of it.
pub struct Chip8State {
    pub ram: Seq<u8>,
    pub reg: Seq<u8>,
    pub i: u16,
    pub pc: u16,
    pub dt: u8,
    pub st: u8,
    pub stack: Seq<u16>,
    pub screen: Seq<u8>,
    pub keys: Seq<bool>,
    pub last_key: u8,
    /// The register that a pending key wait fills, if the machine is halted.
    pub halt: Option<usize>,
    /// Whether OR, AND and XOR also clear VF.
    pub logic_resets_vf: bool,
}

pub open spec fn state_wf(s: Chip8State) -> bool {
    &&& s.ram.len() == RAM_SIZE
    &&& s.reg.len() == REG_COUNT
    &&& s.stack.len() <= STACK_DEPTH
    &&& s.screen.len() == BUFFER_LEN
    &&& s.keys.len() == KEY_COUNT
    &&& s.last_key < KEY_COUNT
    &&& (s.halt matches Some(x) ==> x < REG_COUNT)
}

/// Register index in bits 8 to 11.
pub open spec fn op_x(op: u16) -> int {
    (op as int / 256) % 16
}

/// Register index in bits 4 to 7.
pub open spec fn op_y(op: u16) -> int {
    (op as int / 16) % 16
}

/// The low nibble.
pub open spec fn op_n(op: u16) -> int {
    op as int % 16
}

/// The low byte.
pub open spec fn op_kk(op: u16) -> u8 {
    (op as int % 256) as u8
}

/// The low twelve bits, an address.
pub open spec fn op_nnn(op: u16) -> u16 {
    (op as int % 4096) as u16
}

/// The top nibble, which selects the opcode family.
pub open spec fn op_family(op: u16) -> int {
    op as int / 4096
}

pub open spec fn set_reg(s: Chip8State, x: int, v: u8) -> Chip8State {
    Chip8State { reg: s.reg.update(x, v), ..s }
}

/// Writes `v` to Vx, then the flag to VF (which wins when x is F).
pub open spec fn set_reg_flag(s: Chip8State, x: int, v: u8, flag: bool) -> Chip8State {
    Chip8State { reg: s.reg.update(x, v).update(15, if flag { 1u8 } else { 0u8 }), ..s }
}

/// Writes the result of a bitwise operation to Vx, clearing VF if so configured.
pub open spec fn set_logic(s: Chip8State, x: int, v: u8) -> Chip8State {
    if s.logic_resets_vf {
        set_reg_flag(s, x, v, false)
    } else {
        set_reg(s, x, v)
    }
}

pub open spec fn unknown(s: Chip8State, op: u16) -> (Chip8State, Result<Chip8Event, CPUError>) {
    (s, Err(CPUError::UnknownOpcode(op, s.pc)))
}

pub open spec fn advance() -> Result<Chip8Event, CPUError> {
    Ok(Chip8Event::IncrementPC)
}

pub open spec fn skip_if(c: bool) -> Result<Chip8Event, CPUError> {
    if c {
        Ok(Chip8Event::SkipNextInstruction)
    } else {
        Ok(Chip8Event::IncrementPC)
    }
}

/// Family 8: register-to-register arithmetic and logic. Shifts take Vy as
/// their source.
pub open spec fn step_alu(s: Chip8State, op: u16) -> (Chip8State, Result<Chip8Event, CPUError>) {
    let x = op_x(op);
    let vx = s.reg[x];
    let vy = s.reg[op_y(op)];
    let n = op_n(op);
    if n == 0 {
        (set_reg(s, x, vy), advance())
    } else if n == 1 {
        (set_logic(s, x, vx | vy), advance())
    } else if n == 2 {
        (set_logic(s, x, vx & vy), advance())
    } else if n == 3 {
        (set_logic(s, x, vx ^ vy), advance())
    } else if n == 4 {
        (set_reg_flag(s, x, ((vx + vy) % 256) as u8, vx + vy > 255), advance())
    } else if n == 5 {
        (set_reg_flag(s, x, ((vx - vy + 256) % 256) as u8, vx >= vy), advance())
    } else if n == 6 {
        (set_reg_flag(s, x, (vy / 2) as u8, vy % 2 == 1), advance())
    } else if n == 7 {
        (set_reg_flag(s, x, ((vy - vx + 256) % 256) as u8, vy >= vx), advance())
    } else if n == 14 {
        (set_reg_flag(s, x, ((vy * 2) % 256) as u8, vy >= 128), advance())
    } else {
        unknown(s, op)
    }
}

/// Family E: skip on the state of key Vx.
pub open spec fn step_keys(s: Chip8State, op: u16) -> (Chip8State, Result<Chip8Event, CPUError>) {
    let vx = s.reg[op_x(op)];
    let kk = op_kk(op);
    if kk != 0x9E && kk != 0xA1 {
        unknown(s, op)
    } else if vx >= KEY_COUNT {
        (s, Err(CPUError::InvalidKey(vx)))
    } else if kk == 0x9E {
        (s, skip_if(s.keys[vx as int]))
    } else {
        (s, skip_if(!s.keys[vx as int]))
    }
}

/// Memory with registers V0 to Vx stored from address `i` on.
pub open spec fn stored_regs(s: Chip8State, x: int) -> Seq<u8> {
    let i = s.i as int;
    Seq::new(s.ram.len(), |k: int| if i <= k <= i + x { s.reg[k - i] } else { s.ram[k] })
}

/// Registers with V0 to Vx loaded from address `i` on.
pub open spec fn loaded_regs(s: Chip8State, x: int) -> Seq<u8> {
    let i = s.i as int;
    Seq::new(s.reg.len(), |k: int| if k <= x { s.ram[i + k] } else { s.reg[k] })
}

/// Family F: timers, the key wait, the index register and memory transfers.
/// The block load and store advance I past the last byte moved.
pub open spec fn step_misc(s: Chip8State, op: u16) -> (Chip8State, Result<Chip8Event, CPUError>) {
    let x = op_x(op);
    let vx = s.reg[x];
    let kk = op_kk(op);
    let i = s.i as int;
    if kk == 0x07 {
        (set_reg(s, x, s.dt), advance())
    } else if kk == 0x0A {
        (s, Ok(Chip8Event::KBHaltOnBuffer(x as usize)))
    } else if kk == 0x15 {
        (Chip8State { dt: vx, ..s }, advance())
    } else if kk == 0x18 {
        (Chip8State { st: vx, ..s }, if vx != 0 { Ok(Chip8Event::PlayTone(vx)) } else { advance() })
    } else if kk == 0x1E {
        (Chip8State { i: ((i + vx) % 0x10000) as u16, ..s }, advance())
    } else if kk == 0x29 {
        (Chip8State { i: ((vx % 16) * 5) as u16, ..s }, advance())
    } else if kk == 0x33 {
        if i + 2 >= RAM_SIZE {
            (s, Err(CPUError::RamOutOfBounds))
        } else {
            (
                Chip8State {
                    ram: s.ram.update(i, (vx / 100) as u8).update(i + 1, (vx / 10 % 10) as u8).update(
                        i + 2,
                        (vx % 10) as u8,
                    ),
                    ..s
                },
                advance(),
            )
        }
    } else if kk == 0x55 {
        if i + x >= RAM_SIZE {
            (s, Err(CPUError::RamOutOfBounds))
        } else {
            (Chip8State { ram: stored_regs(s, x), i: (i + x + 1) as u16, ..s }, advance())
        }
    } else if kk == 0x65 {
        if i + x >= RAM_SIZE {
            (s, Err(CPUError::RamOutOfBounds))
        } else {
            (Chip8State { reg: loaded_regs(s, x), i: (i + x + 1) as u16, ..s }, advance())
        }
    } else {
        unknown(s, op)
    }
}

/// Family D: draw the n-byte sprite at address I at (Vx, Vy); VF reports a collision.
pub open spec fn step_draw(s: Chip8State, op: u16) -> (Chip8State, Result<Chip8Event, CPUError>) {
    let i = s.i as int;
    let n = op_n(op);
    let sprite = s.ram.subrange(i, i + n);
    let x = (s.reg[op_x(op)] % 64) as int;
    let y = (s.reg[op_y(op)] % 32) as int;
    if i + n > RAM_SIZE {
        (s, Err(CPUError::RamOutOfBounds))
    } else {
        (
            Chip8State {
                screen: drawn(s.screen, sprite, x, y),
                reg: s.reg.update(15, if collides(s.screen, sprite, x, y) { 1u8 } else { 0u8 }),
                ..s
            },
            Ok(Chip8Event::RequestRedraw),
        )
    }
}

/// The effect of executing instruction `op` on state `s`, where `rnd` is the
/// random byte a RND instruction draws. A fault leaves the state as it was.
/// System calls 0nnn other than CLS and RET do nothing.
#[verifier::opaque]
pub open spec fn step(s: Chip8State, op: u16, rnd: u8) -> (Chip8State, Result<Chip8Event, CPUError>) {
    let f = op_family(op);
    let x = op_x(op);
    let vx = s.reg[x];
    let vy = s.reg[op_y(op)];
    let kk = op_kk(op);
    let nnn = op_nnn(op);
    if op == 0x00E0 {
        (Chip8State { screen: Seq::new(BUFFER_LEN as nat, |k: int| 0u8), ..s }, advance())
    } else if op == 0x00EE {
        if s.stack.len() == 0 {
            (s, Err(CPUError::StackUnderflow))
        } else {
            (Chip8State { pc: s.stack.last(), stack: s.stack.drop_last(), ..s }, advance())
        }
    } else if f == 0 {
        (s, advance())
    } else if f == 1 {
        (Chip8State { pc: nnn, ..s }, Ok(Chip8Event::DoNotIncrementPC))
    } else if f == 2 {
        if s.stack.len() >= STACK_DEPTH {
            (s, Err(CPUError::StackOverflow))
        } else {
            (Chip8State { pc: nnn, stack: s.stack.push(s.pc), ..s }, Ok(Chip8Event::DoNotIncrementPC))
        }
    } else if f == 3 {
        (s, skip_if(vx == kk))
    } else if f == 4 {
        (s, skip_if(vx != kk))
    } else if f == 5 {
        if op_n(op) != 0 { unknown(s, op) } else { (s, skip_if(vx == vy)) }
    } else if f == 6 {
        (set_reg(s, x, kk), advance())
    } else if f == 7 {
        (set_reg(s, x, ((vx + kk) % 256) as u8), advance())
    } else if f == 8 {
        step_alu(s, op)
    } else if f == 9 {
        if op_n(op) != 0 { unknown(s, op) } else { (s, skip_if(vx != vy)) }
    } else if f == 10 {
        (Chip8State { i: nnn, ..s }, advance())
    } else if f == 11 {
        (Chip8State { pc: (nnn + s.reg[0]) as u16, ..s }, Ok(Chip8Event::DoNotIncrementPC))
    } else if f == 12 {
        (set_reg(s, x, rnd & kk), advance())
    } else if f == 13 {
        step_draw(s, op)
    } else if f == 14 {
        step_keys(s, op)
    } else {
        step_misc(s, op)
    }
}

/// The interpreter: memory, registers, timers, call stack, keypad, display
/// and the key-wait latch.
#[derive(Debug)]
pub struct Chip8 {
    screen: Screen,
    kb: Keyboard,
    stack: Stack,
    kb_halt_reg: Option<usize>,
    ram: Vec<u8>,
    reg: Vec<u8>,
    dt: u8,
    st: u8,
    i: u16,
    pc: u16,
    logic_resets_vf: bool,
}

impl View for Chip8 {
    type V = Chip8State;

    closed spec fn view(&self) -> Chip8State {
        Chip8State {
            ram: self.ram@,
            reg: self.reg@,
            i: self.i,
            pc: self.pc,
            dt: self.dt,
            st: self.st,
            stack: self.stack@,
            screen: self.screen@,
            keys: self.kb.keys(),
            last_key: self.kb.last(),
            halt: self.kb_halt_reg,
            logic_resets_vf: self.logic_resets_vf,
        }
    }
}

/// The state of a freshly started machine: the font at address 0, the rest
/// of memory and every register zero, the program counter at the entry point.
pub open spec fn initial_state(s: Chip8State) -> bool {
    &&& state_wf(s)
    &&& forall|k: int| 0 <= k < FONT_LEN ==> #[trigger] s.ram[k] == font()[k]
    &&& forall|k: int| FONT_LEN <= k < RAM_SIZE ==> #[trigger] s.ram[k] == 0
    &&& forall|k: int| 0 <= k < REG_COUNT ==> #[trigger] s.reg[k] == 0
    &&& forall|k: int| 0 <= k < BUFFER_LEN ==> #[trigger] s.screen[k] == 0
    &&& forall|k: int| 0 <= k < KEY_COUNT ==> !(#[trigger] s.keys[k])
    &&& s.last_key == 0
    &&& s.i == 0 && s.pc == ENTRY_POINT && s.dt == 0 && s.st == 0
    &&& s.stack.len() == 0
    &&& s.halt is None
    &&& s.logic_resets_vf
}

/// Memory `ram` with `rom` copied in from the entry address on.
pub open spec fn loaded(ram: Seq<u8>, rom: Seq<u8>) -> Seq<u8> {
    Seq::new(
        ram.len(),
        |k: int|
            if ENTRY_POINT <= k < ENTRY_POINT + rom.len() {
                rom[k - ENTRY_POINT]
            } else {
                ram[k]
            },
    )
}

impl Chip8 {
    pub open spec fn wf(&self) -> bool {
        state_wf(self@)
    }

    /// A machine with the font loaded and no program.
    pub fn new() -> (c: Chip8)
        ensures
            c.wf(),
            initial_state(c@),
    {
        let font_bytes: Vec<u8> = vec![
            0xF0u8, 0x90, 0x90, 0x90, 0xF0, 0x20, 0x60, 0x20, 0x20, 0x70,
            0xF0, 0x10, 0xF0, 0x80, 0xF0, 0xF0, 0x10, 0xF0, 0x10, 0xF0,
            0x90, 0x90, 0xF0, 0x10, 0x10, 0xF0, 0x80, 0xF0, 0x10, 0xF0,
            0xF0, 0x80, 0xF0, 0x90, 0xF0, 0xF0, 0x10, 0x20, 0x40, 0x40,
            0xF0, 0x90, 0xF0, 0x90, 0xF0, 0xF0, 0x90, 0xF0, 0x10, 0xF0,
            0xF0, 0x90, 0xF0, 0x90, 0x90, 0xE0, 0x90, 0xE0, 0x90, 0xE0,
            0xF0, 0x80, 0x80, 0x80, 0xF0, 0xE0, 0x90, 0x90, 0x90, 0xE0,
            0xF0, 0x80, 0xF0, 0x80, 0xF0, 0xF0, 0x80, 0xF0, 0x80, 0x80,
        ];
        assert(font_bytes@ =~= font());
        let mut ram: Vec<u8> = Vec::new();
        let mut k: usize = 0;
        while k < RAM_SIZE
            invariant
                k <= RAM_SIZE,
                ram@.len() == k,
                font_bytes@ == font(),
                forall|j: int| 0 <= j < k && j < FONT_LEN ==> #[trigger] ram@[j] == font()[j],
                forall|j: int| FONT_LEN <= j < k ==> #[trigger] ram@[j] == 0,
            decreases RAM_SIZE - k,
        {
            if k < FONT_LEN {
                ram.push(font_bytes[k]);
            } else {
                ram.push(0);
            }
            k = k + 1;
        }
        let mut reg: Vec<u8> = Vec::new();
        let mut k: usize = 0;
        while k < REG_COUNT
            invariant
                k <= REG_COUNT,
                reg@.len() == k,
                forall|j: int| 0 <= j < k ==> #[trigger] reg@[j] == 0,
            decreases REG_COUNT - k,
        {
            reg.push(0);
            k = k + 1;
        }
        Chip8 {
            screen: Screen::new(),
            kb: Keyboard::new(),
            stack: Stack::new(),
            kb_halt_reg: None,
            ram,
            reg,
            dt: 0,
            st: 0,
            i: 0,
            pc: ENTRY_POINT,
            logic_resets_vf: true,
        }
    }

    /// Copies a program image into memory from the entry address on. An image
    /// larger than the memory above the entry address is refused whole.
    pub fn with_rom(self, bytes: &[u8]) -> (r: Result<Chip8, CPUError>)
        requires
            self.wf(),
        ensures
            bytes@.len() <= MAX_ROM_LEN ==> (r matches Ok(c) && c.wf() && c@ == (Chip8State {
                ram: loaded(self@.ram, bytes@),
                ..self@
            })),
            bytes@.len() > MAX_ROM_LEN ==> r == Err::<Chip8, CPUError>(
                CPUError::RomTooLarge(bytes@.len() as usize),
            ),
    {
        if bytes.len() > MAX_ROM_LEN {
            return Err(CPUError::RomTooLarge(bytes.len()));
        }
        let mut c = self;
        let ghost ram0 = c.ram@;
        let mut k: usize = 0;
        while k < bytes.len()
            invariant
                bytes@.len() <= MAX_ROM_LEN,
                k <= bytes@.len(),
                c.ram@.len() == RAM_SIZE,
                ram0.len() == RAM_SIZE,
                c.ram@ =~= loaded(ram0, bytes@.take(k as int)),
                c.reg@ == self.reg@,
                c.screen@ == self.screen@,
                c.stack@ == self.stack@,
                c.kb.keys() == self.kb.keys(),
                c.kb.last() == self.kb.last(),
                c.kb_halt_reg == self.kb_halt_reg,
                c.i == self.i && c.pc == self.pc && c.dt == self.dt && c.st == self.st,
                c.logic_resets_vf == self.logic_resets_vf,
            decreases bytes@.len() - k,
        {
            c.ram.set(ENTRY_POINT as usize + k, bytes[k]);
            k = k + 1;
            assert(c.ram@ =~= loaded(ram0, bytes@.take(k as int)));
        }
        assert(bytes@.take(k as int) =~= bytes@);
        Ok(c)
    }

    /// Chooses whether OR, AND and XOR also clear VF, as early interpreters did.
    pub fn with_logic_resets_vf(self, on: bool) -> (c: Chip8)
        requires
            self.wf(),
        ensures
            c.wf(),
            c@ == (Chip8State { logic_resets_vf: on, ..self@ }),
    {
        let mut c = self;
        c.logic_resets_vf = on;
        c
    }

    /// The program counter.
    pub fn pc(&self) -> (r: u16)
        ensures
            r == self@.pc,
    {
        self.pc
    }

    /// The index register I.
    pub fn index(&self) -> (r: u16)
        ensures
            r == self@.i,
    {
        self.i
    }

    /// General register Vx.
    pub fn register(&self, x: usize) -> (r: u8)
        requires
            self.wf(),
            x < REG_COUNT,
        ensures
            r == self@.reg[x as int],
    {
        self.reg[x]
    }

    /// The byte at memory address `addr`.
    pub fn memory(&self, addr: usize) -> (r: u8)
        requires
            self.wf(),
            addr < RAM_SIZE,
        ensures
            r == self@.ram[addr as int],
    {
        self.ram[addr]
    }

    /// The delay timer.
    pub fn delay_timer(&self) -> (r: u8)
        ensures
            r == self@.dt,
    {
        self.dt
    }

    /// The sound timer.
    pub fn sound_timer(&self) -> (r: u8)
        ensures
            r == self@.st,
    {
        self.st
    }

    /// Whether a key wait holds the machine.
    pub fn is_halted(&self) -> (r: bool)
        ensures
            r == self@.halt is Some,
    {
        self.kb_halt_reg.is_some()
    }

    /// The framebuffer as a binary PBM image.
    pub fn frame_image(&self) -> (r: Vec<u8>)
        requires
            self.wf(),
        ensures
            r@ == crate::screen::pbm_of(self@.screen),
    {
        self.screen.to_pbm()
    }

    /// A copy of the framebuffer.
    pub fn get_display_buffer(&self) -> (r: Vec<u8>)
        ensures
            r@ == self@.screen,
    {
        self.screen.extract_buffer()
    }
}

impl Chip8 {
    fn set_reg(&mut self, x: usize, v: u8)
        requires
            old(self).wf(),
            x < REG_COUNT,
        ensures
            final(self).wf(),
            final(self)@ == set_reg(old(self)@, x as int, v),
    {
        self.reg.set(x, v);
    }

    fn set_reg_flag(&mut self, x: usize, v: u8, flag: bool)
        requires
            old(self).wf(),
            x < REG_COUNT,
        ensures
            final(self).wf(),
            final(self)@ == set_reg_flag(old(self)@, x as int, v, flag),
    {
        self.reg.set(x, v);
        self.reg.set(15, if flag { 1u8 } else { 0u8 });
    }

    fn set_logic(&mut self, x: usize, v: u8)
        requires
            old(self).wf(),
            x < REG_COUNT,
        ensures
            final(self).wf(),
            final(self)@ == set_logic(old(self)@, x as int, v),
    {
        if self.logic_resets_vf {
            self.set_reg_flag(x, v, false);
        } else {
            self.set_reg(x, v);
        }
    }

    /// Executes a family-8 instruction.
    fn execute_alu(&mut self, op: u16) -> (r: Result<Chip8Event, CPUError>)
        requires
            old(self).wf(),
            op_family(op) == 8,
        ensures
            final(self).wf(),
            (final(self)@, r) == step_alu(old(self)@, op),
    {
        let x: usize = ((op / 256) % 16) as usize;
        let y: usize = ((op / 16) % 16) as usize;
        let n: u16 = op % 16;
        let vx: u8 = self.reg[x];
        let vy: u8 = self.reg[y];
        if n == 0 {
            self.set_reg(x, vy);
        } else if n == 1 {
            self.set_logic(x, vx | vy);
        } else if n == 2 {
            self.set_logic(x, vx & vy);
        } else if n == 3 {
            self.set_logic(x, vx ^ vy);
        } else if n == 4 {
            let sum: u16 = vx as u16 + vy as u16;
            self.set_reg_flag(x, (sum % 256) as u8, sum > 255);
        } else if n == 5 {
            let d: u16 = (vx as u16 + 256 - vy as u16) % 256;
            self.set_reg_flag(x, d as u8, vx >= vy);
        } else if n == 6 {
            self.set_reg_flag(x, vy / 2, vy % 2 == 1);
        } else if n == 7 {
            let d: u16 = (vy as u16 + 256 - vx as u16) % 256;
            self.set_reg_flag(x, d as u8, vy >= vx);
        } else if n == 14 {
            let d: u16 = (vy as u16 * 2) % 256;
            self.set_reg_flag(x, d as u8, vy >= 128);
        } else {
            return Err(CPUError::UnknownOpcode(op, self.pc));
        }
        Ok(Chip8Event::IncrementPC)
    }

    /// Executes a family-E instruction.
    fn execute_keys(&self, op: u16) -> (r: Result<Chip8Event, CPUError>)
        requires
            self.wf(),
            op_family(op) == 14,
        ensures
            (self@, r) == step_keys(self@, op),
    {
        let x: usize = ((op / 256) % 16) as usize;
        let kk: u16 = op % 256;
        let vx: u8 = self.reg[x];
        if kk != 0x9E && kk != 0xA1 {
            return Err(CPUError::UnknownOpcode(op, self.pc));
        }
        if vx as usize >= KEY_COUNT {
            return Err(CPUError::InvalidKey(vx));
        }
        let down = self.kb.is_pressed(vx as usize);
        if (kk == 0x9E) == down {
            Ok(Chip8Event::SkipNextInstruction)
        } else {
            Ok(Chip8Event::IncrementPC)
        }
    }

    /// Executes a family-D instruction.
    fn execute_draw(&mut self, op: u16) -> (r: Result<Chip8Event, CPUError>)
        requires
            old(self).wf(),
            op_family(op) == 13,
        ensures
            final(self).wf(),
            (final(self)@, r) == step_draw(old(self)@, op),
    {
        let x: usize = ((op / 256) % 16) as usize;
        let y: usize = ((op / 16) % 16) as usize;
        let n: usize = (op % 16) as usize;
        let i: usize = self.i as usize;
        if i + n > RAM_SIZE {
            return Err(CPUError::RamOutOfBounds);
        }
        let mut sprite: Vec<u8> = Vec::new();
        let mut k: usize = 0;
        while k < n
            invariant
                self.wf(),
                i + n <= RAM_SIZE,
                k <= n,
                sprite@ =~= self@.ram.subrange(i as int, i + k),
            decreases n - k,
        {
            sprite.push(self.ram[i + k]);
            k = k + 1;
        }
        let vx: u8 = self.reg[x];
        let vy: u8 = self.reg[y];
        let hit = self.screen.print_sprite(sprite.as_slice(), vx, vy);
        self.reg.set(15, if hit { 1u8 } else { 0u8 });
        Ok(Chip8Event::RequestRedraw)
    }

    /// Executes a family-F instruction.
    fn execute_misc(&mut self, op: u16) -> (r: Result<Chip8Event, CPUError>)
        requires
            old(self).wf(),
            op_family(op) == 15,
        ensures
            final(self).wf(),
            (final(self)@, r) == step_misc(old(self)@, op),
    {
        let x: usize = ((op / 256) % 16) as usize;
        let kk: u16 = op % 256;
        let vx: u8 = self.reg[x];
        let i: usize = self.i as usize;
        if kk == 0x07 {
            let dt = self.dt;
            self.set_reg(x, dt);
        } else if kk == 0x0A {
            return Ok(Chip8Event::KBHaltOnBuffer(x));
        } else if kk == 0x15 {
            self.dt = vx;
        } else if kk == 0x18 {
            self.st = vx;
            if vx != 0 {
                return Ok(Chip8Event::PlayTone(vx));
            }
        } else if kk == 0x1E {
            self.i = ((self.i as u32 + vx as u32) % 0x10000) as u16;
        } else if kk == 0x29 {
            self.i = ((vx % 16) as u16) * 5;
        } else if kk == 0x33 {
            if i + 2 >= RAM_SIZE {
                return Err(CPUError::RamOutOfBounds);
            }
            self.ram.set(i, vx / 100);
            self.ram.set(i + 1, vx / 10 % 10);
            self.ram.set(i + 2, vx % 10);
        } else if kk == 0x55 {
            if i + x >= RAM_SIZE {
                return Err(CPUError::RamOutOfBounds);
            }
            let ghost s0 = self@;
            let mut k: usize = 0;
            while k <= x
                invariant
                    self.wf(),
                    x < REG_COUNT,
                    i == s0.i,
                    i + x < RAM_SIZE,
                    k <= x + 1,
                    self@ == (Chip8State { ram: self@.ram, ..s0 }),
                    forall|j: int|
                        0 <= j < RAM_SIZE ==> #[trigger] self@.ram[j] == (if i <= j < i + k {
                            s0.reg[j - i]
                        } else {
                            s0.ram[j]
                        }),
                decreases x + 1 - k,
            {
                let v = self.reg[k];
                self.ram.set(i + k, v);
                k = k + 1;
            }
            assert(self@.ram =~= stored_regs(s0, x as int));
            self.i = (i + x + 1) as u16;
        } else if kk == 0x65 {
            if i + x >= RAM_SIZE {
                return Err(CPUError::RamOutOfBounds);
            }
            let ghost s0 = self@;
            let mut k: usize = 0;
            while k <= x
                invariant
                    self.wf(),
                    x < REG_COUNT,
                    i == s0.i,
                    i + x < RAM_SIZE,
                    k <= x + 1,
                    self@ == (Chip8State { reg: self@.reg, ..s0 }),
                    forall|j: int|
                        0 <= j < REG_COUNT ==> #[trigger] self@.reg[j] == (if j < k {
                            s0.ram[i + j]
                        } else {
                            s0.reg[j]
                        }),
                decreases x + 1 - k,
            {
                let v = self.ram[i + k];
                self.reg.set(k, v);
                k = k + 1;
            }
            assert(self@.reg =~= loaded_regs(s0, x as int));
            self.i = (i + x + 1) as u16;
        } else {
            return Err(CPUError::UnknownOpcode(op, self.pc));
        }
        Ok(Chip8Event::IncrementPC)
    }
}

/// The instruction at the program counter, big-endian.
pub open spec fn fetch(s: Chip8State) -> u16 {
    (s.ram[s.pc as int] as int * 256 + s.ram[s.pc as int + 1] as int) as u16
}

/// `s` with the program counter moved on by `n` bytes.
pub open spec fn bump(s: Chip8State, n: int) -> Chip8State {
    Chip8State { pc: ((s.pc + n) % 0x10000) as u16, ..s }
}

/// Whether the next cycle from `s` executes a RND instruction, the only one
/// whose effect depends on a random byte.
pub open spec fn draws_random(s: Chip8State) -> bool {
    s.halt is None && s.pc as int + 1 < RAM_SIZE && op_family(fetch(s)) == 12
}

/// One fetch-execute cycle from `s`, where `rnd` is the byte a RND
/// instruction would draw. A halted machine does not move; a fault or a fetch
/// past the end of memory shuts it down. Only a redraw request, a tone and a
/// shutdown reach the caller.
pub open spec fn run_step(s: Chip8State, rnd: u8) -> (Chip8State, Option<Chip8Event>) {
    if s.halt is Some {
        (s, None)
    } else if s.pc as int + 1 >= RAM_SIZE {
        (s, Some(Chip8Event::Shutdown(CPUError::RamOutOfBounds)))
    } else {
        let (t, r) = step(s, fetch(s), rnd);
        match r {
            Err(e) => (t, Some(Chip8Event::Shutdown(e))),
            Ok(e) => match e {
                Chip8Event::SkipNextInstruction => (bump(t, 4), None),
                Chip8Event::DoNotIncrementPC => (t, None),
                Chip8Event::IncrementPC => (bump(t, 2), None),
                Chip8Event::KBHaltOnBuffer(x) => (Chip8State { halt: Some(x), ..bump(t, 2) }, None),
                Chip8Event::RequestRedraw => (bump(t, 2), Some(Chip8Event::RequestRedraw)),
                Chip8Event::PlayTone(d) => (bump(t, 2), Some(Chip8Event::PlayTone(d))),
                Chip8Event::Shutdown(f) => (t, Some(Chip8Event::Shutdown(f))),
            },
        }
    }
}

/// A key going down (`down`) or up. A press while the machine waits for a key
/// stores the key in the waiting register and releases the machine.
pub open spec fn key_event(s: Chip8State, key: u8, down: bool) -> Chip8State {
    if down {
        match s.halt {
            Some(x) => Chip8State {
                keys: s.keys.update(key as int, true),
                last_key: key,
                reg: s.reg.update(x as int, key),
                halt: None,
                ..s
            },
            None => Chip8State { keys: s.keys.update(key as int, true), last_key: key, ..s },
        }
    } else {
        Chip8State { keys: s.keys.update(key as int, false), ..s }
    }
}

/// Both timers one step closer to zero, stopping there.
pub open spec fn timers_decremented(s: Chip8State) -> Chip8State {
    Chip8State {
        dt: if s.dt > 0 { (s.dt - 1) as u8 } else { 0 },
        st: if s.st > 0 { (s.st - 1) as u8 } else { 0 },
        ..s
    }
}

/// Only a RND instruction depends on the random byte, and a key wait always
/// names a register.
proof fn lemma_step_facts(s: Chip8State, op: u16, a: u8, b: u8)
    ensures
        op_family(op) != 12 ==> step(s, op, a) == step(s, op, b),
        step(s, op, a).1 matches Ok(Chip8Event::KBHaltOnBuffer(x)) ==> x < REG_COUNT,
{
    reveal(step);
}

/// Relies on rand::random: a byte drawn from the thread-local generator.
/// Nothing is known of its value.
#[verifier::external_body]
fn random_byte() -> (r: u8) {
    rand::random::<u8>()
}

impl Chip8 {
    /// Executes instruction `op`, with `rnd` as the byte a RND instruction
    /// draws, and reports how the program counter should move. The program
    /// counter itself moves only for jumps, calls and returns.
    pub fn execute_with(&mut self, op: u16, rnd: u8) -> (r: Result<Chip8Event, CPUError>)
        requires
            old(self).wf(),
        ensures
            final(self).wf(),
            (final(self)@, r) == step(old(self)@, op, rnd),
    {
        reveal(step);
        let f: u16 = op / 4096;
        let x: usize = ((op / 256) % 16) as usize;
        let y: usize = ((op / 16) % 16) as usize;
        let n: u16 = op % 16;
        let kk: u8 = (op % 256) as u8;
        let nnn: u16 = op % 4096;
        let vx: u8 = self.reg[x];
        let vy: u8 = self.reg[y];
        if op == 0x00E0 {
            self.screen.clear();
            assert(self.screen@ =~= Seq::new(BUFFER_LEN as nat, |k: int| 0u8));
            Ok(Chip8Event::IncrementPC)
        } else if op == 0x00EE {
            if self.stack.len() == 0 {
                Err(CPUError::StackUnderflow)
            } else {
                self.pc = self.stack.pop();
                Ok(Chip8Event::IncrementPC)
            }
        } else if f == 0 {
            Ok(Chip8Event::IncrementPC)
        } else if f == 1 {
            self.pc = nnn;
            Ok(Chip8Event::DoNotIncrementPC)
        } else if f == 2 {
            if self.stack.len() >= STACK_DEPTH {
                Err(CPUError::StackOverflow)
            } else {
                let here = self.pc;
                self.stack.push(here);
                self.pc = nnn;
                Ok(Chip8Event::DoNotIncrementPC)
            }
        } else if f == 3 {
            Ok(if vx == kk { Chip8Event::SkipNextInstruction } else { Chip8Event::IncrementPC })
        } else if f == 4 {
            Ok(if vx != kk { Chip8Event::SkipNextInstruction } else { Chip8Event::IncrementPC })
        } else if f == 5 {
            if n != 0 {
                Err(CPUError::UnknownOpcode(op, self.pc))
            } else {
                Ok(if vx == vy { Chip8Event::SkipNextInstruction } else { Chip8Event::IncrementPC })
            }
        } else if f == 6 {
            self.set_reg(x, kk);
            Ok(Chip8Event::IncrementPC)
        } else if f == 7 {
            let v: u16 = (vx as u16 + kk as u16) % 256;
            self.set_reg(x, v as u8);
            Ok(Chip8Event::IncrementPC)
        } else if f == 8 {
            self.execute_alu(op)
        } else if f == 9 {
            if n != 0 {
                Err(CPUError::UnknownOpcode(op, self.pc))
            } else {
                Ok(if vx != vy { Chip8Event::SkipNextInstruction } else { Chip8Event::IncrementPC })
            }
        } else if f == 10 {
            self.i = nnn;
            Ok(Chip8Event::IncrementPC)
        } else if f == 11 {
            self.pc = nnn + self.reg[0] as u16;
            Ok(Chip8Event::DoNotIncrementPC)
        } else if f == 12 {
            self.set_reg(x, rnd & kk);
            Ok(Chip8Event::IncrementPC)
        } else if f == 13 {
            self.execute_draw(op)
        } else if f == 14 {
            self.execute_keys(op)
        } else {
            self.execute_misc(op)
        }
    }

    /// Executes instruction `op`, drawing a fresh random byte for RND.
    pub fn execute_instruction(&mut self, op: u16) -> (r: Result<Chip8Event, CPUError>)
        requires
            old(self).wf(),
        ensures
            final(self).wf(),
            op_family(op) != 12 ==> (final(self)@, r) == step(old(self)@, op, 0),
            exists|b: u8| (final(self)@, r) == #[trigger] step(old(self)@, op, b),
    {
        let b = random_byte();
        let r = self.execute_with(op, b);
        proof {
            lemma_step_facts(old(self)@, op, b, 0);
        }
        assert((self@, r) == step(old(self)@, op, b));
        r
    }

    /// Moves the program counter on to the next instruction.
    pub fn increment_pc(&mut self)
        ensures
            final(self)@ == bump(old(self)@, 2),
    {
        self.pc = self.pc.wrapping_add(2);
    }

    /// One fetch-execute cycle, with `rnd` as the byte a RND instruction draws.
    pub fn update_with(&mut self, rnd: u8) -> (r: Option<Chip8Event>)
        requires
            old(self).wf(),
        ensures
            final(self).wf(),
            (final(self)@, r) == run_step(old(self)@, rnd),
    {
        if self.kb_halt_reg.is_some() {
            return None;
        }
        if self.pc as usize + 1 >= RAM_SIZE {
            return Some(Chip8Event::Shutdown(CPUError::RamOutOfBounds));
        }
        let pc = self.pc as usize;
        let op: u16 = (self.ram[pc] as u16) * 256 + self.ram[pc + 1] as u16;
        proof {
            lemma_step_facts(self@, op, rnd, rnd);
        }
        match self.execute_with(op, rnd) {
            Err(e) => Some(Chip8Event::Shutdown(e)),
            Ok(e) => match e {
                Chip8Event::SkipNextInstruction => {
                    let ghost t = self@;
                    self.increment_pc();
                    self.increment_pc();
                    assert(((t.pc + 2) % 0x10000 + 2) % 0x10000 == (t.pc + 4) % 0x10000);
                    assert(self@ == bump(t, 4));
                    None
                },
                Chip8Event::DoNotIncrementPC => None,
                Chip8Event::IncrementPC => {
                    self.increment_pc();
                    None
                },
                Chip8Event::KBHaltOnBuffer(x) => {
                    self.kb_halt_reg = Some(x);
                    self.increment_pc();
                    None
                },
                Chip8Event::RequestRedraw => {
                    self.increment_pc();
                    Some(Chip8Event::RequestRedraw)
                },
                Chip8Event::PlayTone(d) => {
                    self.increment_pc();
                    Some(Chip8Event::PlayTone(d))
                },
                Chip8Event::Shutdown(f) => Some(Chip8Event::Shutdown(f)),
            },
        }
    }

    /// One fetch-execute cycle, drawing a fresh random byte for RND.
    pub fn update(&mut self) -> (r: Option<Chip8Event>)
        requires
            old(self).wf(),
        ensures
            final(self).wf(),
            !draws_random(old(self)@) ==> (final(self)@, r) == run_step(old(self)@, 0),
            exists|b: u8| (final(self)@, r) == #[trigger] run_step(old(self)@, b),
    {
        let b = random_byte();
        proof {
            lemma_step_facts(self@, fetch(self@), b, 0);
        }
        let r = self.update_with(b);
        assert((self@, r) == run_step(old(self)@, b));
        r
    }

    /// Moves both timers one step closer to zero.
    pub fn decrement_timers(&mut self)
        requires
            old(self).wf(),
        ensures
            final(self).wf(),
            final(self)@ == timers_decremented(old(self)@),
    {
        if self.dt > 0 {
            self.dt = self.dt - 1;
        }
        if self.st > 0 {
            self.st = self.st - 1;
        }
    }

    /// Records key `key` going down (`state`) or up. A press while the
    /// machine waits for a key fills the waiting register and releases it.
    pub fn set_key(&mut self, key: u8, state: bool)
        requires
            old(self).wf(),
            key < KEY_COUNT,
        ensures
            final(self).wf(),
            final(self)@ == key_event(old(self)@, key, state),
    {
        if state {
            self.press_key(key);
        } else {
            self.release_key(key);
        }
    }

    fn press_key(&mut self, key: u8)
        requires
            old(self).wf(),
            key < KEY_COUNT,
        ensures
            final(self).wf(),
            final(self)@ == key_event(old(self)@, key, true),
    {
        self.kb.press_key(key as usize);
        if let Some(x) = self.kb_halt_reg {
            let k = self.kb.last_pressed();
            self.reg.set(x, k);
            self.kb_halt_reg = None;
        }
    }

    fn release_key(&mut self, key: u8)
        requires
            old(self).wf(),
            key < KEY_COUNT,
        ensures
            final(self).wf(),
            final(self)@ == key_event(old(self)@, key, false),
    {
        self.kb.release_key(key as usize);
    }
}

} // verus!
