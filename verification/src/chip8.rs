use vstd::prelude::*;

use crate::cpu::CPU;
use crate::display::Display;
use crate::error::Chip8Error;
use crate::memory::Memory;
use crate::memory::ROM_START;
use crate::memory::initial_memory;
use crate::semantics::MachineView;
use crate::semantics::initial_machine;
use crate::semantics::machine_view;
use crate::semantics::step_spec;

verus! {

/// The largest program image that fits between the load base address and
/// the end of memory.
pub const MAX_ROM_LEN: usize = 3584;

/// The whole machine: register file, display and memory, owned exclusively
/// by the interpreter, together with the configured shift quirk. Its view
/// is the `MachineView` model that `step_spec` evolves.
pub struct Chip8 {
    cpu: CPU,
    display: Display,
    memory: Memory,
    shift_source_y: bool,
}

impl View for Chip8 {
    type V = MachineView;

    closed spec fn view(&self) -> MachineView {
        machine_view(self.cpu, self.display, self.memory)
    }
}

impl Chip8 {
    /// Which variant of the two shift operations is configured: when true
    /// they read register `y`, otherwise they shift register `x` in place.
    pub closed spec fn shift_quirk(&self) -> bool {
        self.shift_source_y
    }

    /// Builds a machine with the program image `rom` loaded at the base
    /// address, the font seeded, the display blank, and registers, timers,
    /// stack and index register at their initial values. Fails with
    /// `RomTooLarge` when the image does not fit before the end of memory.
    /// The shift operations start in their shift-in-place variant.
    pub fn new(rom: &[u8]) -> (r: Result<Chip8, Chip8Error>)
        ensures
            rom@.len() > MAX_ROM_LEN ==> r == Err::<Chip8, Chip8Error>(Chip8Error::RomTooLarge),
            rom@.len() <= MAX_ROM_LEN ==> (r matches Ok(c) && c@ == initial_machine(rom@)
                && !c.shift_quirk()),
    {
        if rom.len() > MAX_ROM_LEN {
            return Err(Chip8Error::RomTooLarge);
        }
        let mut memory = Memory::new();
        let mut i: usize = 0;
        while i < rom.len()
            invariant
                i <= rom@.len(),
                rom@.len() <= MAX_ROM_LEN,
                memory@.len() == 4096,
                forall|p: int|
                    0 <= p < 4096 ==> memory@[p] == (if 512 <= p < 512 + i {
                        rom@[p - 512]
                    } else {
                        initial_memory()[p]
                    }),
            decreases rom@.len() - i,
        {
            memory.write_cell(512 + (i as u16), rom[i]);
            i += 1;
        }
        let cpu = CPU {
            delay_timer: 0,
            sound_timer: 0,
            stack: Vec::new(),
            program_counter: ROM_START,
            index_register: 0,
            registers: [0; 16],
        };
        let display = Display::new();
        let c = Chip8 { cpu, display, memory, shift_source_y: false };
        proof {
            assert(c@.regs =~= initial_machine(rom@).regs);
            assert(c@.mem =~= initial_machine(rom@).mem);
            assert(c@.stack =~= initial_machine(rom@).stack);
            assert(c@ =~= initial_machine(rom@));
        }
        Ok(c)
    }

    /// Performs one fetch-decode-execute-timer cycle, with `keys` as this
    /// step's key-press snapshot, exactly as `step_spec` describes for the
    /// configured shift quirk. On an error the machine is left as it was.
    pub fn advance(&mut self, keys: &[bool; 16]) -> (r: Result<(), Chip8Error>)
        ensures
            final(self).shift_quirk() == old(self).shift_quirk(),
            match r {
                Ok(()) => exists|rnd: u8|
                    step_spec(old(self)@, keys@, old(self).shift_quirk(), rnd) == Ok::<
                        MachineView,
                        Chip8Error,
                    >(final(self)@),
                Err(e) => final(self)@ == old(self)@ && forall|rnd: u8|
                    step_spec(old(self)@, keys@, old(self).shift_quirk(), rnd) == Err::<
                        MachineView,
                        Chip8Error,
                    >(e),
            },
    {
        let sy = self.shift_source_y;
        crate::interp::advance(&mut self.cpu, &mut self.display, &mut self.memory, keys, sy)
    }

    /// Read access to the display for the rendering collaborator; no
    /// mutation is exposed.
    pub fn display(&self) -> (d: &Display)
        ensures
            d@ == self@.disp,
    {
        &self.display
    }

    /// Read access to the register file, timers and control state; the
    /// sound timer's nonzero state is the signal for an audio collaborator
    /// to emit a tone.
    pub fn cpu(&self) -> (c: &CPU)
        ensures
            c.delay_timer == self@.delay,
            c.sound_timer == self@.sound,
            c.stack@ == self@.stack,
            c.program_counter == self@.pc,
            c.index_register == self@.index,
            c.registers@ == self@.regs,
    {
        &self.cpu
    }

    /// Selects which register the two shift operations read: register `y`
    /// when `v` is true, register `x` in place otherwise.
    pub fn set_shift_source_y(&mut self, v: bool)
        ensures
            final(self)@ == old(self)@,
            final(self).shift_quirk() == v,
    {
        self.shift_source_y = v;
    }
}

} // verus!
