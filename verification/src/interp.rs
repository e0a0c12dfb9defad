use vstd::prelude::*;

use crate::cpu::CPU;
use crate::display::Display;
use crate::error::Chip8Error;
use crate::memory::Memory;
use crate::memory::FONT_START;
use crate::semantics::MachineView;
use crate::semantics::any_key_pressed;
use crate::semantics::bit_divisor;
use crate::semantics::exec_instr;
use crate::semantics::instr_at;
use crate::semantics::lowest_key_from;
use crate::semantics::machine_view;
use crate::semantics::regs_dumped;
use crate::semantics::regs_loaded;
use crate::semantics::sprite_bit;
use crate::semantics::sprite_collides;
use crate::semantics::sprite_drawn;
use crate::semantics::sprite_flips;
use crate::semantics::step_spec;
use crate::semantics::tick_timers;
use crate::semantics::view_with_pc;
use vstd::arithmetic::div_mod::lemma_fundamental_div_mod;

verus! {

/// Relies on rand::random: a value drawn from the thread-local generator.
/// Nothing can be promised of the value; the interpreter states what holds
/// of every outcome.
pub assume_specification<T>[ rand::random::<T> ]() -> (r: T)
    where
        rand::distributions::Standard: rand::distributions::Distribution<T>,
;

/// The power of two that brings bit `b` (most significant first) of a byte
/// into the units place.
fn bit_div(b: u16) -> (d: u8)
    ensures
        d == bit_divisor(b as int),
        d >= 1,
{
    match b {
        0 => 128,
        1 => 64,
        2 => 32,
        3 => 16,
        4 => 8,
        5 => 4,
        6 => 2,
        _ => 1,
    }
}

/// The lowest-numbered pressed key, if any key is pressed at all.
fn first_pressed(keys: &[bool; 16]) -> (r: Option<u8>)
    ensures
        any_key_pressed(keys@) <==> r is Some,
        r matches Some(k) ==> k < 16 && k as int == lowest_key_from(keys@, 0),
{
    let mut i: usize = 0;
    while i < 16
        invariant
            i <= 16,
            forall|j: int| 0 <= j < i ==> !keys@[j],
            lowest_key_from(keys@, 0) == lowest_key_from(keys@, i as int),
        decreases 16 - i,
    {
        if keys[i] {
            return Some(i as u8);
        }
        i += 1;
    }
    proof {
        assert(forall|k: int| 0 <= k < 16 ==> !keys@[k]);
    }
    None
}

/// Whether the sprite-draw region delimited by `rows_done` full rows and
/// `bits_done` further bits of the next row has already flipped the pixel
/// at `(x, y)`.
spec fn flips_before(
    mem: Seq<u8>,
    idx: int,
    x0: int,
    y0: int,
    nrows: int,
    rows_done: int,
    bits_done: int,
    x: int,
    y: int,
) -> bool {
    &&& sprite_flips(mem, idx, x0, y0, nrows, x, y)
    &&& (y - y0 < rows_done || (y - y0 == rows_done && x - x0 < bits_done))
}

/// The display once the sprite draw has processed `rows_done` full rows and
/// `bits_done` further bits of the next row.
spec fn drawn_before(
    disp: Seq<bool>,
    mem: Seq<u8>,
    idx: int,
    x0: int,
    y0: int,
    nrows: int,
    rows_done: int,
    bits_done: int,
) -> Seq<bool> {
    Seq::new(
        2048,
        |p: int|
            if flips_before(mem, idx, x0, y0, nrows, rows_done, bits_done, p % 64, p / 64) {
                !disp[p]
            } else {
                disp[p]
            },
    )
}

/// Whether a collision has already been observed once the sprite draw has
/// processed `rows_done` full rows and `bits_done` further bits.
spec fn collides_before(
    disp: Seq<bool>,
    mem: Seq<u8>,
    idx: int,
    x0: int,
    y0: int,
    nrows: int,
    rows_done: int,
    bits_done: int,
) -> bool {
    exists|p: int|
        0 <= p < 2048 && flips_before(mem, idx, x0, y0, nrows, rows_done, bits_done, p % 64, p / 64)
            && disp[p]
}

/// Two draw prefixes that flip the same pixels leave the display alike and
/// observe the same collisions.
proof fn lemma_prefix_same(
    disp: Seq<bool>,
    mem: Seq<u8>,
    idx: int,
    x0: int,
    y0: int,
    nrows: int,
    r1: int,
    b1: int,
    r2: int,
    b2: int,
)
    requires
        forall|x: int, y: int|
            flips_before(mem, idx, x0, y0, nrows, r1, b1, x, y) == flips_before(
                mem,
                idx,
                x0,
                y0,
                nrows,
                r2,
                b2,
                x,
                y,
            ),
    ensures
        drawn_before(disp, mem, idx, x0, y0, nrows, r1, b1) == drawn_before(
            disp,
            mem,
            idx,
            x0,
            y0,
            nrows,
            r2,
            b2,
        ),
        collides_before(disp, mem, idx, x0, y0, nrows, r1, b1) == collides_before(
            disp,
            mem,
            idx,
            x0,
            y0,
            nrows,
            r2,
            b2,
        ),
{
    assert(drawn_before(disp, mem, idx, x0, y0, nrows, r1, b1) =~= drawn_before(
        disp,
        mem,
        idx,
        x0,
        y0,
        nrows,
        r2,
        b2,
    ));
    if collides_before(disp, mem, idx, x0, y0, nrows, r1, b1) {
        let p = choose|p: int|
            0 <= p < 2048 && flips_before(mem, idx, x0, y0, nrows, r1, b1, p % 64, p / 64)
                && disp[p];
        assert(flips_before(mem, idx, x0, y0, nrows, r2, b2, p % 64, p / 64));
        assert(collides_before(disp, mem, idx, x0, y0, nrows, r2, b2));
    }
    if collides_before(disp, mem, idx, x0, y0, nrows, r2, b2) {
        let p = choose|p: int|
            0 <= p < 2048 && flips_before(mem, idx, x0, y0, nrows, r2, b2, p % 64, p / 64)
                && disp[p];
        assert(flips_before(mem, idx, x0, y0, nrows, r1, b1, p % 64, p / 64));
        assert(collides_before(disp, mem, idx, x0, y0, nrows, r1, b1));
    }
}

/// Extending a draw prefix by one flipped pixel toggles exactly that pixel
/// and adds exactly its previous value to the collision condition.
proof fn lemma_prefix_toggle(
    disp: Seq<bool>,
    mem: Seq<u8>,
    idx: int,
    x0: int,
    y0: int,
    nrows: int,
    row: int,
    b: int,
    pstar: int,
)
    requires
        0 <= x0 < 64,
        0 <= y0 < 32,
        0 <= row < nrows,
        0 <= b < 8,
        x0 + b < 64,
        y0 + row < 32,
        sprite_bit(mem[idx + row], b),
        pstar == (y0 + row) * 64 + (x0 + b),
        disp.len() == 2048,
    ensures
        0 <= pstar < 2048,
        !flips_before(mem, idx, x0, y0, nrows, row, b, pstar % 64, pstar / 64),
        drawn_before(disp, mem, idx, x0, y0, nrows, row, b)[pstar] == disp[pstar],
        drawn_before(disp, mem, idx, x0, y0, nrows, row, b).update(pstar, !disp[pstar])
            == drawn_before(disp, mem, idx, x0, y0, nrows, row, b + 1),
        collides_before(disp, mem, idx, x0, y0, nrows, row, b + 1) == (collides_before(
            disp,
            mem,
            idx,
            x0,
            y0,
            nrows,
            row,
            b,
        ) || disp[pstar]),
{
    let x = x0 + b;
    let y = y0 + row;
    assert(pstar % 64 == x && pstar / 64 == y) by (nonlinear_arith)
        requires
            pstar == y * 64 + x,
            0 <= x < 64,
            0 <= y < 32,
    ;
    assert(drawn_before(disp, mem, idx, x0, y0, nrows, row, b).update(pstar, !disp[pstar])
        =~= drawn_before(disp, mem, idx, x0, y0, nrows, row, b + 1)) by {
        assert forall|p: int| 0 <= p < 2048 && p != pstar implies #[trigger] flips_before(
            mem,
            idx,
            x0,
            y0,
            nrows,
            row,
            b + 1,
            p % 64,
            p / 64,
        ) == flips_before(mem, idx, x0, y0, nrows, row, b, p % 64, p / 64) by {
            lemma_fundamental_div_mod(p, 64);
        }
    }
    if collides_before(disp, mem, idx, x0, y0, nrows, row, b) {
        let p = choose|p: int|
            0 <= p < 2048 && flips_before(mem, idx, x0, y0, nrows, row, b, p % 64, p / 64)
                && disp[p];
        assert(flips_before(mem, idx, x0, y0, nrows, row, b + 1, p % 64, p / 64));
        assert(collides_before(disp, mem, idx, x0, y0, nrows, row, b + 1));
    }
    if disp[pstar] {
        assert(flips_before(mem, idx, x0, y0, nrows, row, b + 1, pstar % 64, pstar / 64));
        assert(collides_before(disp, mem, idx, x0, y0, nrows, row, b + 1));
    }
    if collides_before(disp, mem, idx, x0, y0, nrows, row, b + 1) {
        let p = choose|p: int|
            0 <= p < 2048 && flips_before(mem, idx, x0, y0, nrows, row, b + 1, p % 64, p / 64)
                && disp[p];
        lemma_fundamental_div_mod(p, 64);
        if p != pstar {
            assert(flips_before(mem, idx, x0, y0, nrows, row, b, p % 64, p / 64));
            assert(collides_before(disp, mem, idx, x0, y0, nrows, row, b));
        }
    }
}

/// The sprite-draw opcode: toggles the sprite's set pixels into the display,
/// clipping at the right and bottom edges, and leaves in register 15 whether
/// any toggled pixel was already on. Fails with `OutOfRange`, changing
/// nothing, when one of the sprite's row bytes would be read past address
/// 4095.
fn run_draw(cpu: &mut CPU, display: &mut Display, memory: &Memory, instr: u16) -> (r: Result<
    (),
    Chip8Error,
>)
    ensures
        final(cpu).delay_timer == old(cpu).delay_timer,
        final(cpu).sound_timer == old(cpu).sound_timer,
        final(cpu).stack == old(cpu).stack,
        final(cpu).program_counter == old(cpu).program_counter,
        final(cpu).index_register == old(cpu).index_register,
        ({
            let regs0 = old(cpu).registers@;
            let x0 = regs0[(instr as int / 0x100) % 0x10] as int % 64;
            let y0 = regs0[(instr as int / 0x10) % 0x10] as int % 32;
            let n = instr as int % 0x10;
            let idx = old(cpu).index_register as int;
            match r {
                Ok(()) => {
                    &&& !(n > 0 && idx + n - 1 > 4095)
                    &&& final(cpu).registers@ == regs0.update(
                        15,
                        if sprite_collides(old(display)@, memory@, idx, x0, y0, n) {
                            1u8
                        } else {
                            0u8
                        },
                    )
                    &&& final(display)@ == sprite_drawn(old(display)@, memory@, idx, x0, y0, n)
                },
                Err(e) => {
                    &&& e == Chip8Error::OutOfRange
                    &&& n > 0 && idx + n - 1 > 4095
                    &&& final(cpu).registers@ == regs0
                    &&& final(display)@ == old(display)@
                },
            }
        }),
{
    broadcast use crate::display::lemma_display_len;

    let x16: u16 = (instr / 0x100) % 0x10;
    let y16: u16 = (instr / 0x10) % 0x10;
    let n: u16 = instr % 0x10;
    let idx: u16 = cpu.index_register;
    if n > 0 && (idx > 4095 || n - 1 > 4095 - idx) {
        return Err(Chip8Error::OutOfRange);
    }
    let x0: u8 = cpu.register(x16) % 64;
    let y0: u8 = cpu.register(y16) % 32;
    let ghost d0 = display@;
    let ghost mem0 = memory@;
    let ghost regs0 = cpu.registers@;
    let ghost cpu0 = *cpu;
    let ghost ii = idx as int;
    let ghost nn = n as int;
    let ghost xx = x0 as int;
    let ghost yy = y0 as int;
    cpu.set_register(15, 0);
    proof {
        assert(!collides_before(d0, mem0, ii, xx, yy, nn, 0, 0));
        assert(cpu.registers@ =~= regs0.update(15, 0u8));
        assert(display@ =~= drawn_before(d0, mem0, ii, xx, yy, nn, 0, 0));
    }
    let mut row: u16 = 0;
    while row < n
        invariant
            row <= n,
            n <= 15,
            x0 < 64,
            y0 < 32,
            ii == idx,
            nn == n,
            xx == x0,
            yy == y0,
            n > 0 ==> ii + nn - 1 <= 4095,
            mem0 == memory@,
            d0.len() == 2048,
            cpu.delay_timer == cpu0.delay_timer,
            cpu.sound_timer == cpu0.sound_timer,
            cpu.stack == cpu0.stack,
            cpu.program_counter == cpu0.program_counter,
            cpu.index_register == cpu0.index_register,
            cpu.index_register == idx,
            regs0.len() == 16,
            display@ == drawn_before(d0, mem0, ii, xx, yy, nn, row as int, 0),
            cpu.registers@ == regs0.update(
                15,
                if collides_before(d0, mem0, ii, xx, yy, nn, row as int, 0) {
                    1u8
                } else {
                    0u8
                },
            ),
        decreases n - row,
    {
        let y: u8 = y0 + (row as u8);
        if y < 32 {
            let byte: u8 = memory.read_cell(idx + row);
            let mut b: u16 = 0;
            while b < 8
                invariant
                    b <= 8,
                    row < n,
                    n <= 15,
                    x0 < 64,
                    y0 < 32,
                    y == y0 + row,
                    y < 32,
                    ii == idx,
                    nn == n,
                    xx == x0,
                    yy == y0,
                    ii + nn - 1 <= 4095,
                    mem0 == memory@,
                    d0.len() == 2048,
                    byte == mem0[ii + row as int],
                    cpu.delay_timer == cpu0.delay_timer,
                    cpu.sound_timer == cpu0.sound_timer,
                    cpu.stack == cpu0.stack,
                    cpu.program_counter == cpu0.program_counter,
                    cpu.index_register == cpu0.index_register,
                    cpu.index_register == idx,
                    regs0.len() == 16,
                    display@ == drawn_before(d0, mem0, ii, xx, yy, nn, row as int, b as int),
                    cpu.registers@ == regs0.update(
                        15,
                        if collides_before(d0, mem0, ii, xx, yy, nn, row as int, b as int) {
                            1u8
                        } else {
                            0u8
                        },
                    ),
                decreases 8 - b,
            {
                let x: u8 = x0 + (b as u8);
                let d: u8 = bit_div(b);
                let on: bool = (byte / d) % 2 == 1;
                if x < 64 && on {
                    let pix: &mut bool = display.get_pixel_mut(x, y);
                    let was: bool = *pix;
                    *pix = !was;
                    proof {
                        let pstar = (yy + row) * 64 + (xx + b);
                        lemma_prefix_toggle(
                            d0,
                            mem0,
                            ii,
                            xx,
                            yy,
                            nn,
                            row as int,
                            b as int,
                            pstar,
                        );
                        assert(was == d0[pstar]);
                    }
                    if was {
                        cpu.set_register(15, 1);
                        proof {
                            assert(cpu.registers@ =~= regs0.update(15, 1u8));
                        }
                    } else {
                        proof {
                            let pstar = (yy + row) * 64 + (xx + b);
                            assert(collides_before(d0, mem0, ii, xx, yy, nn, row as int, b + 1)
                                == collides_before(d0, mem0, ii, xx, yy, nn, row as int, b as int));
                        }
                    }
                } else {
                    proof {
                        assert forall|px: int, py: int|
                            flips_before(mem0, ii, xx, yy, nn, row as int, b + 1, px, py)
                                == flips_before(
                                mem0,
                                ii,
                                xx,
                                yy,
                                nn,
                                row as int,
                                b as int,
                                px,
                                py,
                            ) by {
                            if py - yy == row && px - xx == b {
                                assert(!sprite_flips(mem0, ii, xx, yy, nn, px, py));
                            }
                        }
                        lemma_prefix_same(
                            d0,
                            mem0,
                            ii,
                            xx,
                            yy,
                            nn,
                            row as int,
                            b as int,
                            row as int,
                            b + 1,
                        );
                    }
                }
                b += 1;
            }
            proof {
                assert forall|px: int, py: int|
                    flips_before(mem0, ii, xx, yy, nn, row as int, 8, px, py) == flips_before(
                        mem0,
                        ii,
                        xx,
                        yy,
                        nn,
                        row + 1,
                        0,
                        px,
                        py,
                    ) by {}
                lemma_prefix_same(d0, mem0, ii, xx, yy, nn, row as int, 8, row + 1, 0);
            }
        } else {
            proof {
                assert forall|px: int, py: int|
                    flips_before(mem0, ii, xx, yy, nn, row as int, 0, px, py) == flips_before(
                        mem0,
                        ii,
                        xx,
                        yy,
                        nn,
                        row + 1,
                        0,
                        px,
                        py,
                    ) by {
                    if py - yy == row {
                        assert(!sprite_flips(mem0, ii, xx, yy, nn, px, py));
                    }
                }
                lemma_prefix_same(d0, mem0, ii, xx, yy, nn, row as int, 0, row + 1, 0);
            }
        }
        row += 1;
    }
    proof {
        assert forall|px: int, py: int|
            flips_before(mem0, ii, xx, yy, nn, nn, 0, px, py) == sprite_flips(
                mem0,
                ii,
                xx,
                yy,
                nn,
                px,
                py,
            ) by {}
        assert(drawn_before(d0, mem0, ii, xx, yy, nn, nn, 0) =~= sprite_drawn(
            d0,
            mem0,
            ii,
            xx,
            yy,
            nn,
        ));
        if collides_before(d0, mem0, ii, xx, yy, nn, nn, 0) {
            let p = choose|p: int|
                0 <= p < 2048 && flips_before(mem0, ii, xx, yy, nn, nn, 0, p % 64, p / 64)
                    && d0[p];
            assert(sprite_collides(d0, mem0, ii, xx, yy, nn));
        }
        if sprite_collides(d0, mem0, ii, xx, yy, nn) {
            let p = choose|p: int|
                0 <= p < 2048 && sprite_flips(mem0, ii, xx, yy, nn, p % 64, p / 64) && d0[p];
            assert(flips_before(mem0, ii, xx, yy, nn, nn, 0, p % 64, p / 64));
            assert(collides_before(d0, mem0, ii, xx, yy, nn, nn, 0));
        }
    }
    Ok(())
}

/// The sign convention of the wrapping 8-bit subtraction: subtracting a
/// larger byte from a smaller one lands 256 above the mathematical
/// difference.
proof fn lemma_wrap_sub(a: u8, b: u8)
    requires
        a < b,
    ensures
        (a - b) % 256 == a + 256 - b,
{
    vstd::arithmetic::div_mod::lemma_mod_add_multiples_vanish(a - b, 256);
    vstd::arithmetic::div_mod::lemma_small_mod((a + 256 - b) as nat, 256);
}

/// Performs one fetch-decode-execute-timer cycle against the machine state:
/// the instruction at the program counter is fetched and executed as
/// `step_spec` describes, with `keys` as this step's key-press snapshot and
/// `shift_source_y` selecting which register the two shift operations read.
/// On an error the machine is left exactly as it was. The random-number
/// opcode is the one source of nondeterminism: the step is guaranteed to
/// match the specification for some drawn byte.
pub fn advance(
    cpu: &mut CPU,
    display: &mut Display,
    memory: &mut Memory,
    keys: &[bool; 16],
    shift_source_y: bool,
) -> (r: Result<(), Chip8Error>)
    ensures
        ({
            let m0 = machine_view(*old(cpu), *old(display), *old(memory));
            let mz = machine_view(*final(cpu), *final(display), *final(memory));
            match r {
                Ok(()) => exists|rnd: u8|
                    step_spec(m0, keys@, shift_source_y, rnd) == Ok::<MachineView, Chip8Error>(mz),
                Err(e) => mz == m0 && forall|rnd: u8|
                    step_spec(m0, keys@, shift_source_y, rnd) == Err::<MachineView, Chip8Error>(e),
            }
        }),
{
    broadcast use crate::memory::lemma_memory_len;

    let ghost m0 = machine_view(*cpu, *display, *memory);
    let pc0: u16 = cpu.program_counter;
    if pc0 > 4094 {
        return Err(Chip8Error::OutOfRange);
    }
    let hi: u8 = memory.read_cell(pc0);
    let lo: u8 = memory.read_cell(pc0 + 1);
    let instr: u16 = (hi as u16) * 256 + (lo as u16);
    proof {
        assert(instr == instr_at(m0.mem, m0.pc));
    }
    let x16: u16 = (instr / 0x100) % 0x10;
    let y16: u16 = (instr / 0x10) % 0x10;
    let kk: u8 = (instr % 0x100) as u8;
    let nnn: u16 = instr % 0x1000;
    let pc2: u16 = pc0 + 2;
    let mut next_pc: u16 = pc2;
    let ghost m1 = MachineView { pc: pc2, ..m0 };
    let ghost mut mexp: MachineView = m1;
    let ghost mut rb: u8 = 0u8;
    match instr / 0x1000 {
        0 => {
            if kk == 0xE0 {
                display.clear();
            } else if kk == 0xEE {
                if cpu.stack.len() == 0 {
                    return Err(Chip8Error::StackUnderflow);
                }
                next_pc = cpu.stack.pop().unwrap();
            } else {
                return Err(Chip8Error::UnknownInstruction(instr));
            }
            proof {
                mexp = view_with_pc(*cpu, *display, *memory, next_pc);
                assert(exec_instr(m1, instr, keys@, shift_source_y, rb) == Ok::<
                    MachineView,
                    Chip8Error,
                >(mexp));
            }
        },
        1 => {
            next_pc = nnn;
            proof {
                mexp = view_with_pc(*cpu, *display, *memory, next_pc);
                assert(exec_instr(m1, instr, keys@, shift_source_y, rb) == Ok::<
                    MachineView,
                    Chip8Error,
                >(mexp));
            }
        },
        2 => {
            cpu.stack.push(pc2);
            next_pc = nnn;
            proof {
                mexp = view_with_pc(*cpu, *display, *memory, next_pc);
                assert(exec_instr(m1, instr, keys@, shift_source_y, rb) == Ok::<
                    MachineView,
                    Chip8Error,
                >(mexp));
            }
        },
        3 => {
            if cpu.register(x16) == kk {
                next_pc = pc2 + 2;
            }
            proof {
                mexp = view_with_pc(*cpu, *display, *memory, next_pc);
                assert(exec_instr(m1, instr, keys@, shift_source_y, rb) == Ok::<
                    MachineView,
                    Chip8Error,
                >(mexp));
            }
        },
        4 => {
            if cpu.register(x16) != kk {
                next_pc = pc2 + 2;
            }
            proof {
                mexp = view_with_pc(*cpu, *display, *memory, next_pc);
                assert(exec_instr(m1, instr, keys@, shift_source_y, rb) == Ok::<
                    MachineView,
                    Chip8Error,
                >(mexp));
            }
        },
        5 => {
            if cpu.register(x16) == cpu.register(y16) {
                next_pc = pc2 + 2;
            }
            proof {
                mexp = view_with_pc(*cpu, *display, *memory, next_pc);
                assert(exec_instr(m1, instr, keys@, shift_source_y, rb) == Ok::<
                    MachineView,
                    Chip8Error,
                >(mexp));
            }
        },
        6 => {
            cpu.set_register(x16, kk);
            proof {
                mexp = view_with_pc(*cpu, *display, *memory, next_pc);
                assert(exec_instr(m1, instr, keys@, shift_source_y, rb) == Ok::<
                    MachineView,
                    Chip8Error,
                >(mexp));
            }
        },
        7 => {
            let sum: u16 = cpu.register(x16) as u16 + kk as u16;
            cpu.set_register(x16, (sum % 256) as u8);
            proof {
                mexp = view_with_pc(*cpu, *display, *memory, next_pc);
                assert(exec_instr(m1, instr, keys@, shift_source_y, rb) == Ok::<
                    MachineView,
                    Chip8Error,
                >(mexp));
            }
        },
        8 => {
            let a: u8 = cpu.register(x16);
            let b: u8 = cpu.register(y16);
            match instr % 0x10 {
                0 => {
                    cpu.set_register(x16, b);
                },
                1 => {
                    cpu.set_register(x16, a | b);
                },
                2 => {
                    cpu.set_register(x16, a & b);
                },
                3 => {
                    cpu.set_register(x16, a ^ b);
                },
                4 => {
                    let sum: u16 = a as u16 + b as u16;
                    cpu.set_register(x16, (sum % 256) as u8);
                    cpu.set_register(15, if sum > 255 { 1 } else { 0 });
                },
                5 => {
                    let diff: u8 = if a >= b {
                        a - b
                    } else {
                        proof {
                            lemma_wrap_sub(a, b);
                        }
                        (a as u16 + 256 - b as u16) as u8
                    };
                    cpu.set_register(x16, diff);
                    cpu.set_register(15, if a >= b { 1 } else { 0 });
                },
                7 => {
                    let diff: u8 = if b >= a {
                        b - a
                    } else {
                        proof {
                            lemma_wrap_sub(b, a);
                        }
                        (b as u16 + 256 - a as u16) as u8
                    };
                    cpu.set_register(x16, diff);
                    cpu.set_register(15, if b >= a { 1 } else { 0 });
                },
                6 => {
                    let src: u8 = if shift_source_y { b } else { a };
                    cpu.set_register(x16, src / 2);
                    cpu.set_register(15, src % 2);
                },
                0xE => {
                    let src: u8 = if shift_source_y { b } else { a };
                    let dbl: u16 = src as u16 * 2;
                    cpu.set_register(x16, (dbl % 256) as u8);
                    cpu.set_register(15, src / 128);
                },
                _ => {
                    return Err(Chip8Error::UnknownInstruction(instr));
                },
            }
            proof {
                mexp = view_with_pc(*cpu, *display, *memory, next_pc);
                assert(exec_instr(m1, instr, keys@, shift_source_y, rb) == Ok::<
                    MachineView,
                    Chip8Error,
                >(mexp));
            }
        },
        9 => {
            if cpu.register(x16) != cpu.register(y16) {
                next_pc = pc2 + 2;
            }
            proof {
                mexp = view_with_pc(*cpu, *display, *memory, next_pc);
                assert(exec_instr(m1, instr, keys@, shift_source_y, rb) == Ok::<
                    MachineView,
                    Chip8Error,
                >(mexp));
            }
        },
        0xA => {
            cpu.index_register = nnn;
            proof {
                mexp = view_with_pc(*cpu, *display, *memory, next_pc);
                assert(exec_instr(m1, instr, keys@, shift_source_y, rb) == Ok::<
                    MachineView,
                    Chip8Error,
                >(mexp));
            }
        },
        0xB => {
            next_pc = (cpu.register(0) as u16 + nnn) % 0x1000;
            proof {
                mexp = view_with_pc(*cpu, *display, *memory, next_pc);
                assert(exec_instr(m1, instr, keys@, shift_source_y, rb) == Ok::<
                    MachineView,
                    Chip8Error,
                >(mexp));
            }
        },
        0xC => {
            let rv: u8 = rand::random::<u8>();
            cpu.set_register(x16, kk & rv);
            proof {
                rb = rv;
                mexp = view_with_pc(*cpu, *display, *memory, next_pc);
                assert(exec_instr(m1, instr, keys@, shift_source_y, rb) == Ok::<
                    MachineView,
                    Chip8Error,
                >(mexp));
            }
        },
        0xD => {
            let drawn = run_draw(cpu, display, memory, instr);
            if let Err(e) = drawn {
                return Err(e);
            }
            proof {
                mexp = view_with_pc(*cpu, *display, *memory, next_pc);
                assert(exec_instr(m1, instr, keys@, shift_source_y, rb) == Ok::<
                    MachineView,
                    Chip8Error,
                >(mexp));
            }
        },
        0xE => {
            let key: u16 = (cpu.register(x16) % 16) as u16;
            let pressed: bool = keys[key as usize];
            if kk == 0x9E {
                if pressed {
                    next_pc = pc2 + 2;
                }
            } else if kk == 0xA1 {
                if !pressed {
                    next_pc = pc2 + 2;
                }
            } else {
                return Err(Chip8Error::UnknownInstruction(instr));
            }
            proof {
                mexp = view_with_pc(*cpu, *display, *memory, next_pc);
                assert(exec_instr(m1, instr, keys@, shift_source_y, rb) == Ok::<
                    MachineView,
                    Chip8Error,
                >(mexp));
            }
        },
        _ => {
            let idx0: u16 = cpu.index_register;
            match kk {
                0x07 => {
                    let dt: u8 = cpu.delay_timer;
                    cpu.set_register(x16, dt);
                },
                0x15 => {
                    cpu.delay_timer = cpu.register(x16);
                },
                0x18 => {
                    cpu.sound_timer = cpu.register(x16);
                },
                0x1E => {
                    let sum: u32 = cpu.index_register as u32 + cpu.register(x16) as u32;
                    if sum > 0x0FFF {
                        cpu.set_register(15, 1);
                    }
                    cpu.index_register = (sum % 0x10000) as u16;
                },
                0x0A => {
                    match first_pressed(keys) {
                        Some(k) => {
                            cpu.set_register(x16, k);
                        },
                        None => {
                            next_pc = pc0;
                        },
                    }
                },
                0x29 => {
                    cpu.index_register = FONT_START + (cpu.register(x16) as u16) * 5;
                },
                0x33 => {
                    if idx0 > 4093 {
                        return Err(Chip8Error::OutOfRange);
                    }
                    let v: u8 = cpu.register(x16);
                    memory.write_cell(idx0, v / 100);
                    memory.write_cell(idx0 + 1, (v / 10) % 10);
                    memory.write_cell(idx0 + 2, v % 10);
                },
                0x55 => {
                    if idx0 > 4095 - x16 {
                        return Err(Chip8Error::OutOfRange);
                    }
                    let mut i: u16 = 0;
                    while i <= x16
                        invariant
                            i <= x16 + 1,
                            x16 <= 15,
                            idx0 + x16 <= 4095,
                            idx0 == cpu.index_register,
                            cpu.registers@ == m1.regs,
                            memory@.len() == 4096,
                            m1.mem.len() == 4096,
                            forall|p: int|
                                0 <= p < 4096 ==> memory@[p] == (if idx0 <= p < idx0 + i {
                                    m1.regs[p - idx0]
                                } else {
                                    m1.mem[p]
                                }),
                        decreases x16 + 1 - i,
                    {
                        let v: u8 = cpu.register(i);
                        memory.write_cell(idx0 + i, v);
                        i += 1;
                    }
                    proof {
                        assert(memory@ =~= regs_dumped(m1.mem, m1.regs, idx0 as int, x16 as int));
                    }
                },
                0x65 => {
                    if idx0 > 4095 - x16 {
                        return Err(Chip8Error::OutOfRange);
                    }
                    let mut i: u16 = 0;
                    while i <= x16
                        invariant
                            i <= x16 + 1,
                            x16 <= 15,
                            idx0 + x16 <= 4095,
                            idx0 == cpu.index_register,
                            cpu.delay_timer == m1.delay,
                            cpu.sound_timer == m1.sound,
                            cpu.stack@ == m1.stack,
                            cpu.program_counter == m0.pc,
                            memory@ == m1.mem,
                            m1.regs.len() == 16,
                            forall|j: int|
                                0 <= j < 16 ==> cpu.registers@[j] == (if j < i {
                                    m1.mem[idx0 + j]
                                } else {
                                    m1.regs[j]
                                }),
                        decreases x16 + 1 - i,
                    {
                        let v: u8 = memory.read_cell(idx0 + i);
                        cpu.set_register(i, v);
                        i += 1;
                    }
                    proof {
                        assert(cpu.registers@ =~= regs_loaded(
                            m1.regs,
                            m1.mem,
                            idx0 as int,
                            x16 as int,
                        ));
                    }
                },
                _ => {
                    return Err(Chip8Error::UnknownInstruction(instr));
                },
            }
            proof {
                mexp = view_with_pc(*cpu, *display, *memory, next_pc);
                assert(exec_instr(m1, instr, keys@, shift_source_y, rb) == Ok::<
                    MachineView,
                    Chip8Error,
                >(mexp));
            }
        },
    }
    cpu.program_counter = next_pc;
    if cpu.delay_timer > 0 {
        cpu.delay_timer = cpu.delay_timer - 1;
    }
    if cpu.sound_timer > 0 {
        cpu.sound_timer = cpu.sound_timer - 1;
    }
    proof {
        let mfin = machine_view(*cpu, *display, *memory);
        assert(mfin =~= tick_timers(mexp));
        assert(step_spec(m0, keys@, shift_source_y, rb) == Ok::<MachineView, Chip8Error>(mfin));
    }
    Ok(())
}

} // verus!
