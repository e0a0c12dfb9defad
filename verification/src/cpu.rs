use vstd::prelude::*;

verus! {

/// The register file and control state of the machine: sixteen 8-bit
/// general-purpose registers (register 15 doubles as the carry, borrow and
/// collision flag), a 16-bit index register used as a memory pointer, the
/// program counter, a call stack of return addresses, and the two 8-bit
/// countdown timers.
pub struct CPU {
    pub delay_timer: u8,
    pub sound_timer: u8,
    pub stack: Vec<u16>,
    pub program_counter: u16,
    pub index_register: u16,
    pub registers: [u8; 16],
}

impl CPU {
    /// Reads general-purpose register `index`.
    pub fn register(&self, index: u16) -> (r: u8)
        requires
            index < 16,
        ensures
            r == self.registers@[index as int],
    {
        self.registers[index as usize]
    }

    /// Writes `value` into general-purpose register `index`.
    pub fn set_register(&mut self, index: u16, value: u8)
        requires
            index < 16,
        ensures
            final(self).registers@ == old(self).registers@.update(index as int, value),
            final(self).delay_timer == old(self).delay_timer,
            final(self).sound_timer == old(self).sound_timer,
            final(self).stack == old(self).stack,
            final(self).program_counter == old(self).program_counter,
            final(self).index_register == old(self).index_register,
    {
        self.registers[index as usize] = value;
    }
}

} // verus!
