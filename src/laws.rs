use vstd::prelude::*;
use crate::cpu::{
    fetch, initial_state, key_event, loaded, run_step, state_wf, step, Chip8State, ENTRY_POINT,
    RAM_SIZE, REG_COUNT,
};
use crate::event::Chip8Event;
use crate::keyboard::KEY_COUNT;
use crate::screen::BUFFER_LEN;

verus! {

/// ADD Vx, Vy (8xy4) leaves the sum modulo 256 in Vx and sets VF to 1 exactly
/// when the unsigned sum exceeds 255; SUB Vx, Vy (8xy5) leaves the difference
/// modulo 256 in Vx and sets VF to 1 exactly when Vx >= Vy. The flag is
/// written last, so it stands even when x is F.
pub proof fn lemma_add_sub_flags(s: Chip8State, x: u16, y: u16, rnd: u8)
    requires
        state_wf(s),
        x < 16,
        y < 16,
    ensures
        ({
            let (t, r) = step(s, (0x8004 + x * 256 + y * 16) as u16, rnd);
            let sum = s.reg[x as int] + s.reg[y as int];
            &&& r == Ok::<Chip8Event, crate::error::CPUError>(Chip8Event::IncrementPC)
            &&& t.reg[15] == (if sum > 255 { 1u8 } else { 0u8 })
            &&& x != 15 ==> t.reg[x as int] == sum % 256
        }),
        ({
            let (t, r) = step(s, (0x8005 + x * 256 + y * 16) as u16, rnd);
            let vx = s.reg[x as int];
            let vy = s.reg[y as int];
            &&& r == Ok::<Chip8Event, crate::error::CPUError>(Chip8Event::IncrementPC)
            &&& t.reg[15] == (if vx >= vy { 1u8 } else { 0u8 })
            &&& x != 15 ==> t.reg[x as int] == (vx - vy + 256) % 256
        }),
{
    reveal(step);
    let a = (0x8004 + x * 256 + y * 16) as u16;
    let b = (0x8005 + x * 256 + y * 16) as u16;
    assert(a as int == 0x8004 + x * 256 + y * 16);
    assert(b as int == 0x8005 + x * 256 + y * 16);
    assert(a as int / 4096 == 8 && (a as int / 256) % 16 == x && (a as int / 16) % 16 == y
        && a as int % 16 == 4) by (nonlinear_arith)
        requires
            a as int == 0x8004 + x * 256 + y * 16,
            x < 16,
            y < 16,
    ;
    assert(b as int / 4096 == 8 && (b as int / 256) % 16 == x && (b as int / 16) % 16 == y
        && b as int % 16 == 5) by (nonlinear_arith)
        requires
            b as int == 0x8005 + x * 256 + y * 16,
            x < 16,
            y < 16,
    ;
}

/// A machine halted on a key wait does not move, whatever the cycle would
/// draw: its program counter and every other part of its state stay as they
/// are, and it reports nothing, wherever its program counter points.
pub proof fn lemma_key_wait_holds(s: Chip8State, rnd: u8)
    requires
        s.halt is Some,
    ensures
        run_step(s, rnd).0 == s,
        run_step(s, rnd).1 is None,
{
}

/// A cycle on a key-wait instruction Fx0A moves the program counter past it
/// and halts the machine on register Vx.
pub proof fn lemma_key_wait_enters(s: Chip8State, x: u16, rnd: u8)
    requires
        state_wf(s),
        x < 16,
        s.halt is None,
        s.pc + 1 < RAM_SIZE,
        fetch(s) == 0xF00A + x * 256,
    ensures
        run_step(s, rnd).0 == (Chip8State { halt: Some(x as usize), pc: (s.pc + 2) as u16, ..s }),
        run_step(s, rnd).1 is None,
{
    reveal(step);
    let op = fetch(s);
    assert((op as int / 256) % 16 == x && op as int / 4096 == 15 && op as int % 256 == 0x0A) by (nonlinear_arith)
        requires
            op as int == 0xF00A + x * 256,
            x < 16,
    ;
}

/// A key press during a key wait stores the key's index in the waiting
/// register and releases the machine in the same step; the program counter
/// stays where the wait left it, so the next cycle runs the next instruction.
pub proof fn lemma_key_press_resolves(s: Chip8State, key: u8)
    requires
        state_wf(s),
        s.halt is Some,
        key < KEY_COUNT,
    ensures
        ({
            let t = key_event(s, key, true);
            &&& t.reg[s.halt->Some_0 as int] == key
            &&& t.halt is None
            &&& t.pc == s.pc
            &&& state_wf(t)
        }),
{
}

/// A machine running the program CLS (00E0) then JP 0x200 (1200): its program
/// counter is at one of the two instructions, it is not halted, and its
/// display is blank.
pub open spec fn clear_loop(s: Chip8State) -> bool {
    &&& state_wf(s)
    &&& s.ram[0x200] == 0x00 && s.ram[0x201] == 0xE0
    &&& s.ram[0x202] == 0x12 && s.ram[0x203] == 0x00
    &&& (s.pc == 0x200 || s.pc == 0x202)
    &&& s.halt is None
    &&& forall|k: int| 0 <= k < BUFFER_LEN ==> #[trigger] s.screen[k] == 0
}

/// The program CLS, JP 0x200 runs forever: each cycle keeps the program
/// counter at 0x200 or 0x202 and the display blank, and reports nothing.
pub proof fn lemma_clear_loop_runs_forever(s: Chip8State, rnd: u8)
    requires
        clear_loop(s),
    ensures
        clear_loop(run_step(s, rnd).0),
        run_step(s, rnd).1 is None,
{
    reveal(step);
    if s.pc == 0x200 {
        assert(fetch(s) == 0x00E0);
    } else {
        assert(fetch(s) == 0x1200);
    }
}

/// Loading that program into a fresh machine starts the loop.
pub proof fn lemma_clear_loop_starts(s: Chip8State)
    requires
        initial_state(s),
    ensures
        clear_loop(Chip8State { ram: loaded(s.ram, seq![0x00u8, 0xE0, 0x12, 0x00]), ..s }),
{
    let rom = seq![0x00u8, 0xE0, 0x12, 0x00];
    let t = Chip8State { ram: loaded(s.ram, rom), ..s };
    assert(t.ram[0x200] == rom[0]);
    assert(t.ram[0x201] == rom[1]);
    assert(t.ram[0x202] == rom[2]);
    assert(t.ram[0x203] == rom[3]);
}

} // verus!
