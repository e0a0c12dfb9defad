use vstd::prelude::*;

use crate::cpu::CPU;
use crate::display::Display;
use crate::display::blank_display;
use crate::error::Chip8Error;
use crate::memory::Memory;
use crate::memory::FONT_START;

verus! {

/// The mathematical model of the whole machine: register file, index
/// register, program counter, call stack, timers, memory contents and
/// display contents, all as plain values.
#[verifier::ext_equal]
pub ghost struct MachineView {
    pub delay: u8,
    pub sound: u8,
    pub stack: Seq<u16>,
    pub pc: u16,
    pub index: u16,
    pub regs: Seq<u8>,
    pub mem: Seq<u8>,
    pub disp: Seq<bool>,
}

/// The model of a concrete machine, with the program counter overridden;
/// the interpreter keeps the next program counter in a local until the end
/// of a step, and this function states what the machine looks like then.
pub open spec fn view_with_pc(c: CPU, d: Display, m: Memory, pc: u16) -> MachineView {
    MachineView {
        delay: c.delay_timer,
        sound: c.sound_timer,
        stack: c.stack@,
        pc: pc,
        index: c.index_register,
        regs: c.registers@,
        mem: m@,
        disp: d@,
    }
}

/// The model of a concrete machine.
pub open spec fn machine_view(c: CPU, d: Display, m: Memory) -> MachineView {
    view_with_pc(c, d, m, c.program_counter)
}

/// The 16-bit instruction held at address `pc`: the byte at `pc` is the
/// high-order byte.
pub open spec fn instr_at(mem: Seq<u8>, pc: u16) -> u16 {
    (mem[pc as int] * 256 + mem[pc as int + 1]) as u16
}

/// One countdown of both timers: each is decremented by exactly 1 while
/// above 0, otherwise held at 0.
pub open spec fn tick_timers(m: MachineView) -> MachineView {
    MachineView {
        delay: if m.delay > 0 {
            (m.delay - 1) as u8
        } else {
            0u8
        },
        sound: if m.sound > 0 {
            (m.sound - 1) as u8
        } else {
            0u8
        },
        ..m
    }
}

/// The machine with register `x` set to `v`.
pub open spec fn upd_reg(m: MachineView, x: int, v: u8) -> MachineView {
    MachineView { regs: m.regs.update(x, v), ..m }
}

/// The machine with the program counter advanced over the next instruction,
/// as the conditional-skip families do.
pub open spec fn skip_next(m: MachineView) -> MachineView {
    MachineView { pc: (m.pc + 2) as u16, ..m }
}

/// Whether bit `b` (0 is the most significant) of a sprite row byte is set.
pub open spec fn sprite_bit(byte: u8, b: int) -> bool {
    (byte / bit_divisor(b)) % 2 == 1
}

/// The power of two that brings bit `b` (most significant first) of a byte
/// into the units place.
pub open spec fn bit_divisor(b: int) -> u8 {
    if b == 0 {
        128u8
    } else if b == 1 {
        64u8
    } else if b == 2 {
        32u8
    } else if b == 3 {
        16u8
    } else if b == 4 {
        8u8
    } else if b == 5 {
        4u8
    } else if b == 6 {
        2u8
    } else {
        1u8
    }
}

/// Whether a sprite draw of `nrows` rows, whose first row byte sits at
/// `idx` in memory and whose top-left corner is `(x0, y0)`, flips the pixel
/// at `(x, y)`. Sprite pixels that fall off the right or bottom edge of the
/// grid are clipped: they flip nothing.
pub open spec fn sprite_flips(
    mem: Seq<u8>,
    idx: int,
    x0: int,
    y0: int,
    nrows: int,
    x: int,
    y: int,
) -> bool {
    &&& y0 <= y < y0 + nrows
    &&& 0 <= y < 32
    &&& x0 <= x < x0 + 8
    &&& 0 <= x < 64
    &&& sprite_bit(mem[idx + (y - y0)], x - x0)
}

/// The display after the sprite draw: every flipped pixel is toggled, every
/// other pixel keeps its value.
pub open spec fn sprite_drawn(
    disp: Seq<bool>,
    mem: Seq<u8>,
    idx: int,
    x0: int,
    y0: int,
    nrows: int,
) -> Seq<bool> {
    Seq::new(
        2048,
        |p: int|
            if sprite_flips(mem, idx, x0, y0, nrows, p % 64, p / 64) {
                !disp[p]
            } else {
                disp[p]
            },
    )
}

/// Whether the sprite draw toggles at least one pixel that was already on:
/// the collision condition reported in register 15.
pub open spec fn sprite_collides(
    disp: Seq<bool>,
    mem: Seq<u8>,
    idx: int,
    x0: int,
    y0: int,
    nrows: int,
) -> bool {
    exists|p: int|
        0 <= p < 2048 && sprite_flips(mem, idx, x0, y0, nrows, p % 64, p / 64) && disp[p]
}

/// Whether any of the sixteen keys is reported pressed.
pub open spec fn any_key_pressed(keys: Seq<bool>) -> bool {
    exists|k: int| 0 <= k < 16 && keys[k]
}

/// The lowest-numbered pressed key at or above `i`; 16 when none is.
pub open spec fn lowest_key_from(keys: Seq<bool>, i: int) -> int
    decreases 16 - i,
{
    if i < 0 || i >= 16 {
        16
    } else if keys[i] {
        i
    } else {
        lowest_key_from(keys, i + 1)
    }
}

/// The memory after registers 0 through `x` are stored starting at `idx`.
pub open spec fn regs_dumped(mem: Seq<u8>, regs: Seq<u8>, idx: int, x: int) -> Seq<u8> {
    Seq::new(
        4096,
        |p: int|
            if idx <= p <= idx + x {
                regs[p - idx]
            } else {
                mem[p]
            },
    )
}

/// The register file after registers 0 through `x` are loaded from memory
/// starting at `idx`.
pub open spec fn regs_loaded(regs: Seq<u8>, mem: Seq<u8>, idx: int, x: int) -> Seq<u8> {
    Seq::new(
        16,
        |j: int|
            if j <= x {
                mem[idx + j]
            } else {
                regs[j]
            },
    )
}

/// Effect of the 0x0 opcode family: clear the display, or pop the call
/// stack into the program counter.
pub open spec fn exec_zero(m: MachineView, instr: u16) -> Result<MachineView, Chip8Error> {
    let kk: int = instr as int % 0x100;
    if kk == 0xE0 {
        Ok(MachineView { disp: blank_display(), ..m })
    } else if kk == 0xEE {
        if m.stack.len() == 0 {
            Err(Chip8Error::StackUnderflow)
        } else {
            Ok(MachineView { pc: m.stack.last(), stack: m.stack.drop_last(), ..m })
        }
    } else {
        Err(Chip8Error::UnknownInstruction(instr))
    }
}

/// Effect of the 0x8 opcode family: register-to-register moves, bitwise
/// operators, wrapping addition and subtraction with their flag
/// conventions, and the two shifts. When `shift_source_y` is set the shifts
/// read register `y`; otherwise they shift register `x` in place.
pub open spec fn exec_alu(m: MachineView, instr: u16, shift_source_y: bool) -> Result<
    MachineView,
    Chip8Error,
> {
    let x: int = (instr as int / 0x100) % 0x10;
    let y: int = (instr as int / 0x10) % 0x10;
    let sel: int = instr as int % 0x10;
    let a: u8 = m.regs[x];
    let b: u8 = m.regs[y];
    if sel == 0 {
        Ok(upd_reg(m, x, b))
    } else if sel == 1 {
        Ok(upd_reg(m, x, a | b))
    } else if sel == 2 {
        Ok(upd_reg(m, x, a & b))
    } else if sel == 3 {
        Ok(upd_reg(m, x, a ^ b))
    } else if sel == 4 {
        let sum: int = a + b;
        Ok(
            upd_reg(
                upd_reg(m, x, (sum % 256) as u8),
                15,
                if sum > 255 {
                    1u8
                } else {
                    0u8
                },
            ),
        )
    } else if sel == 5 {
        Ok(
            upd_reg(
                upd_reg(m, x, ((a - b) % 256) as u8),
                15,
                if a >= b {
                    1u8
                } else {
                    0u8
                },
            ),
        )
    } else if sel == 7 {
        Ok(
            upd_reg(
                upd_reg(m, x, ((b - a) % 256) as u8),
                15,
                if b >= a {
                    1u8
                } else {
                    0u8
                },
            ),
        )
    } else if sel == 6 {
        let src: u8 = if shift_source_y {
            b
        } else {
            a
        };
        Ok(upd_reg(upd_reg(m, x, src / 2), 15, src % 2))
    } else if sel == 0xE {
        let src: u8 = if shift_source_y {
            b
        } else {
            a
        };
        Ok(upd_reg(upd_reg(m, x, ((src * 2) % 256) as u8), 15, src / 128))
    } else {
        Err(Chip8Error::UnknownInstruction(instr))
    }
}

/// Effect of the 0xD opcode: the sprite draw. The starting column and row
/// are taken modulo the grid size; pixels past the right or bottom edge are
/// clipped; register 15 reports whether any toggled pixel was already on.
/// Reading any of the `n` row bytes past address 4095 is `OutOfRange`.
pub open spec fn exec_draw(m: MachineView, instr: u16) -> Result<MachineView, Chip8Error> {
    let x: int = (instr as int / 0x100) % 0x10;
    let y: int = (instr as int / 0x10) % 0x10;
    let n: int = instr as int % 0x10;
    let x0: int = m.regs[x] as int % 64;
    let y0: int = m.regs[y] as int % 32;
    let idx: int = m.index as int;
    if n > 0 && idx + n - 1 > 4095 {
        Err(Chip8Error::OutOfRange)
    } else {
        Ok(
            MachineView {
                disp: sprite_drawn(m.disp, m.mem, idx, x0, y0, n),
                regs: m.regs.update(
                    15,
                    if sprite_collides(m.disp, m.mem, idx, x0, y0, n) {
                        1u8
                    } else {
                        0u8
                    },
                ),
                ..m
            },
        )
    }
}

/// Effect of the 0xE opcode family: skip the next instruction according to
/// whether the key numbered by the low nibble of register `x` is pressed.
pub open spec fn exec_key(m: MachineView, instr: u16, keys: Seq<bool>) -> Result<
    MachineView,
    Chip8Error,
> {
    let x: int = (instr as int / 0x100) % 0x10;
    let kk: int = instr as int % 0x100;
    let key: int = m.regs[x] as int % 16;
    if kk == 0x9E {
        Ok(
            if keys[key] {
                skip_next(m)
            } else {
                m
            },
        )
    } else if kk == 0xA1 {
        Ok(
            if !keys[key] {
                skip_next(m)
            } else {
                m
            },
        )
    } else {
        Err(Chip8Error::UnknownInstruction(instr))
    }
}

/// Effect of the 0xF opcode family: timer transfers, index arithmetic, the
/// wait-for-key operation, font addressing, binary-coded-decimal storage,
/// and the register dump and load operations. The index addition wraps
/// modulo 2^16 and sets the flag register when the sum exceeds the address
/// space, without ever resetting it. The wait-for-key operation repeats
/// its own instruction until some key is pressed, then stores the
/// lowest-numbered pressed key.
pub open spec fn exec_misc(m: MachineView, instr: u16, keys: Seq<bool>) -> Result<
    MachineView,
    Chip8Error,
> {
    let x: int = (instr as int / 0x100) % 0x10;
    let kk: int = instr as int % 0x100;
    let idx: int = m.index as int;
    if kk == 0x07 {
        Ok(upd_reg(m, x, m.delay))
    } else if kk == 0x15 {
        Ok(MachineView { delay: m.regs[x], ..m })
    } else if kk == 0x18 {
        Ok(MachineView { sound: m.regs[x], ..m })
    } else if kk == 0x1E {
        let sum: int = idx + m.regs[x];
        Ok(
            MachineView {
                index: (sum % 0x10000) as u16,
                regs: if sum > 0x0FFF {
                    m.regs.update(15, 1u8)
                } else {
                    m.regs
                },
                ..m
            },
        )
    } else if kk == 0x0A {
        if any_key_pressed(keys) {
            Ok(upd_reg(m, x, lowest_key_from(keys, 0) as u8))
        } else {
            Ok(MachineView { pc: (m.pc - 2) as u16, ..m })
        }
    } else if kk == 0x29 {
        Ok(MachineView { index: (FONT_START + m.regs[x] * 5) as u16, ..m })
    } else if kk == 0x33 {
        if idx + 2 > 4095 {
            Err(Chip8Error::OutOfRange)
        } else {
            let v: int = m.regs[x] as int;
            Ok(
                MachineView {
                    mem: m.mem.update(idx, (v / 100) as u8).update(
                        idx + 1,
                        ((v / 10) % 10) as u8,
                    ).update(idx + 2, (v % 10) as u8),
                    ..m
                },
            )
        }
    } else if kk == 0x55 {
        if idx + x > 4095 {
            Err(Chip8Error::OutOfRange)
        } else {
            Ok(MachineView { mem: regs_dumped(m.mem, m.regs, idx, x), ..m })
        }
    } else if kk == 0x65 {
        if idx + x > 4095 {
            Err(Chip8Error::OutOfRange)
        } else {
            Ok(MachineView { regs: regs_loaded(m.regs, m.mem, idx, x), ..m })
        }
    } else {
        Err(Chip8Error::UnknownInstruction(instr))
    }
}

/// Effect of executing the already-fetched instruction `instr` on machine
/// `m`, whose program counter has already been advanced past it. `keys` is
/// the key-press snapshot for this step, `shift_source_y` the configured
/// shift quirk, and `rnd` the byte drawn for the random-number opcode.
pub open spec fn exec_instr(
    m: MachineView,
    instr: u16,
    keys: Seq<bool>,
    shift_source_y: bool,
    rnd: u8,
) -> Result<MachineView, Chip8Error> {
    let op: int = instr as int / 0x1000;
    let x: int = (instr as int / 0x100) % 0x10;
    let y: int = (instr as int / 0x10) % 0x10;
    let kk: u8 = (instr as int % 0x100) as u8;
    let nnn: u16 = (instr as int % 0x1000) as u16;
    if op == 0 {
        exec_zero(m, instr)
    } else if op == 1 {
        Ok(MachineView { pc: nnn, ..m })
    } else if op == 2 {
        Ok(MachineView { stack: m.stack.push(m.pc), pc: nnn, ..m })
    } else if op == 3 {
        Ok(
            if m.regs[x] == kk {
                skip_next(m)
            } else {
                m
            },
        )
    } else if op == 4 {
        Ok(
            if m.regs[x] != kk {
                skip_next(m)
            } else {
                m
            },
        )
    } else if op == 5 {
        Ok(
            if m.regs[x] == m.regs[y] {
                skip_next(m)
            } else {
                m
            },
        )
    } else if op == 6 {
        Ok(upd_reg(m, x, kk))
    } else if op == 7 {
        Ok(upd_reg(m, x, ((m.regs[x] + kk) % 256) as u8))
    } else if op == 8 {
        exec_alu(m, instr, shift_source_y)
    } else if op == 9 {
        Ok(
            if m.regs[x] != m.regs[y] {
                skip_next(m)
            } else {
                m
            },
        )
    } else if op == 0xA {
        Ok(MachineView { index: nnn, ..m })
    } else if op == 0xB {
        Ok(MachineView { pc: ((m.regs[0] + nnn) % 0x1000) as u16, ..m })
    } else if op == 0xC {
        Ok(upd_reg(m, x, kk & rnd))
    } else if op == 0xD {
        exec_draw(m, instr)
    } else if op == 0xE {
        exec_key(m, instr, keys)
    } else {
        exec_misc(m, instr, keys)
    }
}

/// One full step of the interpreter: fetch the two instruction bytes at the
/// program counter (`OutOfRange` when they would sit past address 4095),
/// advance the program counter by 2, execute the instruction, then count
/// both timers down once. On an error the machine is left as it was.
pub open spec fn step_spec(
    m: MachineView,
    keys: Seq<bool>,
    shift_source_y: bool,
    rnd: u8,
) -> Result<MachineView, Chip8Error> {
    if m.pc > 4094 {
        Err(Chip8Error::OutOfRange)
    } else {
        let instr: u16 = instr_at(m.mem, m.pc);
        let m1 = MachineView { pc: (m.pc + 2) as u16, ..m };
        match exec_instr(m1, instr, keys, shift_source_y, rnd) {
            Ok(m2) => Ok(tick_timers(m2)),
            Err(e) => Err(e),
        }
    }
}

/// The machine right after construction with program image `rom`: memory
/// holds the font and the image, the display is blank, registers, timers,
/// index register and stack are at zero, and the program counter is at the
/// load base address.
pub open spec fn initial_machine(rom: Seq<u8>) -> MachineView {
    MachineView {
        delay: 0u8,
        sound: 0u8,
        stack: Seq::empty(),
        pc: 512u16,
        index: 0u16,
        regs: Seq::new(16, |i: int| 0u8),
        mem: Seq::new(
            4096,
            |i: int|
                if 512 <= i < 512 + rom.len() {
                    rom[i - 512]
                } else {
                    crate::memory::initial_memory()[i]
                },
        ),
        disp: blank_display(),
    }
}

} // verus!
