use vstd::prelude::*;
use crate::cpu::{run_step, timers_decremented, key_event, Chip8, Chip8State, MAX_ROM_LEN, loaded, initial_state};
use crate::error::CPUError;
use crate::event::{tone_for, tone_millis_spec, AudioEvent, Chip8Event, SystemEvent};
use crate::keyboard::KEY_COUNT;

verus! {

/// Instructions per tick at normal speed.
pub const CPU_IPF: u32 = 15;
/// Instructions per tick while fast-forwarding: sixteen times the normal rate.
pub const FF_IPF: u32 = 240;

/// What one scheduler tick asks of the host.
#[derive(Debug, Clone, Copy, PartialEq, Eq, Structural)]
pub struct TickReport {
    /// The framebuffer changed: present it.
    pub redraw: bool,
    /// The machine stopped on this fault: shut down.
    pub shutdown: Option<CPUError>,
    /// The last tone requested during the tick, for the tone generator.
    pub tone: Option<AudioEvent>,
}

/// Runs one cycle per byte of `rs` (the bytes a RND instruction would draw),
/// stopping after the first redraw request or shutdown. Returns the state, the
/// event that stopped the run if any, and the last tone requested.
pub open spec fn run_ticks(s: Chip8State, rs: Seq<u8>) -> (Chip8State, Option<Chip8Event>, Option<u8>)
    decreases rs.len(),
{
    if rs.len() == 0 {
        (s, None, None)
    } else {
        let (t, stop, tone) = run_ticks(s, rs.drop_last());
        if stop is Some {
            (t, stop, tone)
        } else {
            let (u, e) = run_step(t, rs.last());
            match e {
                Some(Chip8Event::PlayTone(d)) => (u, None, Some(d)),
                Some(Chip8Event::RequestRedraw) => (u, e, tone),
                Some(Chip8Event::Shutdown(f)) => (u, e, tone),
                _ => (u, None, tone),
            }
        }
    }
}

/// The report for a tick that stopped on `stop` and last requested `tone`.
pub open spec fn report_of(stop: Option<Chip8Event>, tone: Option<u8>) -> TickReport {
    TickReport {
        redraw: stop == Some(Chip8Event::RequestRedraw),
        shutdown: match stop {
            Some(Chip8Event::Shutdown(e)) => Some(e),
            _ => None,
        },
        tone: match tone {
            Some(d) => Some(AudioEvent::Play(tone_millis_spec(d))),
            None => None,
        },
    }
}

/// Drives the interpreter a fixed number of instructions per tick.
#[derive(Debug)]
pub struct Chip8Handler {
    ipf: u32,
    cpu: Chip8,
    ff: bool,
}

impl Chip8Handler {
    /// The machine's state.
    pub closed spec fn machine(&self) -> Chip8State {
        self.cpu@
    }

    /// Instructions per tick.
    pub closed spec fn rate(&self) -> u32 {
        self.ipf
    }

    /// Whether fast-forward is on.
    pub closed spec fn fast(&self) -> bool {
        self.ff
    }

    pub open spec fn wf(&self) -> bool {
        crate::cpu::state_wf(self.machine()) && self.rate() == (if self.fast() {
            FF_IPF
        } else {
            CPU_IPF
        })
    }

    /// A machine running program image `rom` at normal speed. An image larger
    /// than the memory above the entry address is refused.
    pub fn new(rom: &[u8]) -> (r: Result<Chip8Handler, CPUError>)
        ensures
            rom@.len() <= MAX_ROM_LEN ==> (r matches Ok(h) && h.wf() && !h.fast() && exists|
                s: Chip8State,
            | initial_state(s) && #[trigger] h.machine() == (Chip8State {
                ram: loaded(s.ram, rom@),
                ..s
            })),
            rom@.len() > MAX_ROM_LEN ==> r == Err::<Chip8Handler, CPUError>(
                CPUError::RomTooLarge(rom@.len() as usize),
            ),
    {
        let c = Chip8::new();
        match c.with_rom(rom) {
            Ok(cpu) => Ok(Chip8Handler { ipf: CPU_IPF, cpu, ff: false }),
            Err(e) => Err(e),
        }
    }

    /// One scheduler tick: up to the current number of instructions, stopping
    /// after a redraw request or a fault, then one timer step.
    pub fn update(&mut self) -> (r: TickReport)
        requires
            old(self).wf(),
        ensures
            final(self).wf(),
            final(self).rate() == old(self).rate(),
            final(self).fast() == old(self).fast(),
            exists|rs: Seq<u8>|
                {
                    let (t, stop, tone) = #[trigger] run_ticks(old(self).machine(), rs);
                    &&& rs.len() <= old(self).rate()
                    &&& (rs.len() < old(self).rate() ==> stop is Some)
                    &&& final(self).machine() == timers_decremented(t)
                    &&& r == report_of(stop, tone)
                },
    {
        let ghost s0 = self.cpu@;
        let ghost mut rs: Seq<u8> = Seq::empty();
        let mut stop: Option<Chip8Event> = None;
        let mut tone: Option<u8> = None;
        let mut k: u32 = 0;
        while k < self.ipf && stop.is_none()
            invariant
                self.cpu.wf(),
                self.ipf == old(self).ipf,
                self.ff == old(self).ff,
                k <= self.ipf,
                rs.len() == k,
                run_ticks(s0, rs) == (self.cpu@, stop, tone),
            decreases self.ipf - k,
        {
            let ghost before = self.cpu@;
            let ghost prev = rs;
            let e = self.cpu.update();
            let ghost b = choose|b: u8| (self.cpu@, e) == run_step(before, b);
            proof {
                rs = rs.push(b);
                assert(rs.drop_last() =~= prev);
            }
            match e {
                Some(Chip8Event::RequestRedraw) => {
                    stop = e;
                },
                Some(Chip8Event::Shutdown(_)) => {
                    stop = e;
                },
                Some(Chip8Event::PlayTone(d)) => {
                    tone = Some(d);
                },
                _ => {},
            }
            k = k + 1;
        }
        self.cpu.decrement_timers();
        let report = TickReport {
            redraw: match stop {
                Some(Chip8Event::RequestRedraw) => true,
                _ => false,
            },
            shutdown: match stop {
                Some(Chip8Event::Shutdown(e)) => Some(e),
                _ => None,
            },
            tone: match tone {
                Some(d) => Some(tone_for(d)),
                None => None,
            },
        };
        assert(run_ticks(s0, rs) == (run_ticks(s0, rs).0, stop, tone));
        report
    }

    /// Records key `key` going down (`state`) or up.
    pub fn update_key(&mut self, key: u8, state: bool)
        requires
            old(self).wf(),
            key < KEY_COUNT,
        ensures
            final(self).wf(),
            final(self).machine() == key_event(old(self).machine(), key, state),
            final(self).rate() == old(self).rate(),
            final(self).fast() == old(self).fast(),
    {
        self.cpu.set_key(key, state);
    }

    /// Switches to the fast-forward rate; the timers keep their pace.
    pub fn start_ff(&mut self)
        requires
            old(self).wf(),
        ensures
            final(self).wf(),
            final(self).fast(),
            final(self).rate() == FF_IPF,
            final(self).machine() == old(self).machine(),
    {
        self.ff = true;
        self.ipf = FF_IPF;
    }

    /// Goes back to the normal rate.
    pub fn stop_ff(&mut self)
        requires
            old(self).wf(),
        ensures
            final(self).wf(),
            !final(self).fast(),
            final(self).rate() == CPU_IPF,
            final(self).machine() == old(self).machine(),
    {
        self.ff = false;
        self.ipf = CPU_IPF;
    }

    /// The machine, for inspection.
    pub fn cpu(&self) -> (r: &Chip8)
        ensures
            r@ == self.machine(),
            r.wf() == crate::cpu::state_wf(self.machine()),
    {
        &self.cpu
    }

    /// The framebuffer as a binary PBM image.
    pub fn get_frame_image(&self) -> (r: Vec<u8>)
        requires
            self.wf(),
        ensures
            r@ == crate::screen::pbm_of(self.machine().screen),
    {
        self.cpu.frame_image()
    }

    /// A copy of the framebuffer.
    pub fn get_frame_buffer(&self) -> (r: Vec<u8>)
        ensures
            r@ == self.machine().screen,
    {
        self.cpu.get_display_buffer()
    }

    /// Restarts the machine on program image `rom`, keeping the speed. An
    /// image too large is refused and the machine is left as it was.
    pub fn reset(&mut self, rom: &[u8]) -> (r: Result<(), CPUError>)
        requires
            old(self).wf(),
        ensures
            final(self).wf(),
            final(self).fast() == old(self).fast(),
            final(self).rate() == old(self).rate(),
            rom@.len() <= MAX_ROM_LEN ==> (r is Ok && exists|s: Chip8State|
                initial_state(s) && #[trigger] final(self).machine() == (Chip8State {
                    ram: loaded(s.ram, rom@),
                    ..s
                })),
            rom@.len() > MAX_ROM_LEN ==> r == Err::<(), CPUError>(
                CPUError::RomTooLarge(rom@.len() as usize),
            ) && final(self).machine() == old(self).machine(),
    {
        let c = Chip8::new();
        match c.with_rom(rom) {
            Ok(cpu) => {
                self.cpu = cpu;
                Ok(())
            },
            Err(e) => Err(e),
        }
    }

    /// Applies one message from the input side. Returns `false` on a close
    /// request, after which the caller stops ticking. Key codes above 0xF are
    /// not keys and are dropped.
    pub fn handle_event(&mut self, e: SystemEvent) -> (running: bool)
        requires
            old(self).wf(),
        ensures
            final(self).wf(),
            running == !(e == SystemEvent::CloseRequested),
            final(self).machine() == match e {
                SystemEvent::KeyEvent(k, down) => if k < KEY_COUNT {
                    key_event(old(self).machine(), k, down)
                } else {
                    old(self).machine()
                },
                SystemEvent::UpdateTimer => timers_decremented(old(self).machine()),
                _ => old(self).machine(),
            },
            final(self).fast() == match e {
                SystemEvent::StartFastForward => true,
                SystemEvent::StopFastForward => false,
                _ => old(self).fast(),
            },
    {
        match e {
            SystemEvent::KeyEvent(k, down) => {
                if (k as usize) < KEY_COUNT {
                    self.update_key(k, down);
                }
                true
            },
            SystemEvent::StartFastForward => {
                self.start_ff();
                true
            },
            SystemEvent::StopFastForward => {
                self.stop_ff();
                true
            },
            SystemEvent::UpdateTimer => {
                self.cpu.decrement_timers();
                true
            },
            SystemEvent::CloseRequested => false,
        }
    }
}

} // verus!
