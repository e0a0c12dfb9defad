use vstd::prelude::*;

use crate::semantics::MachineView;
use crate::semantics::instr_at;
use crate::semantics::sprite_collides;
use crate::semantics::sprite_drawn;
use crate::semantics::sprite_flips;
use crate::semantics::step_spec;
use vstd::arithmetic::div_mod::lemma_div_denominator;
use vstd::arithmetic::div_mod::lemma_fundamental_div_mod;

verus! {

/// The well-formedness every reachable machine model has: 16 registers,
/// 4096 memory cells, 2048 pixels.
pub open spec fn wf_machine(m: MachineView) -> bool {
    &&& m.regs.len() == 16
    &&& m.mem.len() == 4096
    &&& m.disp.len() == 2048
}

/// Adding an immediate to a register wraps modulo 256 and never touches
/// the flag register: a step on an instruction of the 0x7 family leaves
/// register 15 unchanged (unless it is itself the target) and stores the
/// wrapped sum.
pub proof fn lemma_add_immediate_wraps(m: MachineView, keys: Seq<bool>, sy: bool, rnd: u8)
    requires
        wf_machine(m),
        m.pc <= 4094,
        instr_at(m.mem, m.pc) as int / 0x1000 == 7,
    ensures
        step_spec(m, keys, sy, rnd) is Ok,
        ({
            let instr = instr_at(m.mem, m.pc);
            let x = (instr as int / 0x100) % 0x10;
            let kk = instr as int % 0x100;
            let mz = step_spec(m, keys, sy, rnd)->Ok_0;
            &&& mz.regs[x] == (m.regs[x] + kk) % 256
            &&& x != 15 ==> mz.regs[15] == m.regs[15]
        }),
{
}

/// The carry convention of register-to-register addition: a step on an
/// instruction of the 0x8 family with sub-selector 4 leaves register 15 at
/// exactly 1 when the unwrapped sum of the two operands exceeds 255 and at
/// exactly 0 otherwise, for every pair of operand bytes, and stores the
/// wrapped sum.
pub proof fn lemma_add_register_carry(m: MachineView, keys: Seq<bool>, sy: bool, rnd: u8)
    requires
        wf_machine(m),
        m.pc <= 4094,
        instr_at(m.mem, m.pc) as int / 0x1000 == 8,
        instr_at(m.mem, m.pc) as int % 0x10 == 4,
    ensures
        step_spec(m, keys, sy, rnd) is Ok,
        ({
            let instr = instr_at(m.mem, m.pc);
            let x = (instr as int / 0x100) % 0x10;
            let y = (instr as int / 0x10) % 0x10;
            let mz = step_spec(m, keys, sy, rnd)->Ok_0;
            &&& mz.regs[15] == (if m.regs[x] + m.regs[y] > 255 {
                1u8
            } else {
                0u8
            })
            &&& x != 15 ==> mz.regs[x] == (m.regs[x] + m.regs[y]) % 256
        }),
{
}

/// The borrow convention of subtraction: a step on an instruction of the
/// 0x8 family with sub-selector 5 leaves register 15 at exactly 1 when no
/// borrow occurs (the minuend register is at least the subtrahend) and at
/// exactly 0 otherwise, for every pair of operand bytes.
pub proof fn lemma_sub_borrow(m: MachineView, keys: Seq<bool>, sy: bool, rnd: u8)
    requires
        wf_machine(m),
        m.pc <= 4094,
        instr_at(m.mem, m.pc) as int / 0x1000 == 8,
        instr_at(m.mem, m.pc) as int % 0x10 == 5,
    ensures
        step_spec(m, keys, sy, rnd) is Ok,
        ({
            let instr = instr_at(m.mem, m.pc);
            let x = (instr as int / 0x100) % 0x10;
            let y = (instr as int / 0x10) % 0x10;
            let mz = step_spec(m, keys, sy, rnd)->Ok_0;
            &&& mz.regs[15] == (if m.regs[x] >= m.regs[y] {
                1u8
            } else {
                0u8
            })
            &&& x != 15 ==> mz.regs[x] == (m.regs[x] - m.regs[y]) % 256
        }),
{
}

/// The borrow convention of the reversed subtraction: a step on an
/// instruction of the 0x8 family with sub-selector 7 leaves register 15 at
/// exactly 1 when no borrow occurs (register `y` is at least register `x`)
/// and at exactly 0 otherwise, for every pair of operand bytes.
pub proof fn lemma_sub_reverse_borrow(m: MachineView, keys: Seq<bool>, sy: bool, rnd: u8)
    requires
        wf_machine(m),
        m.pc <= 4094,
        instr_at(m.mem, m.pc) as int / 0x1000 == 8,
        instr_at(m.mem, m.pc) as int % 0x10 == 7,
    ensures
        step_spec(m, keys, sy, rnd) is Ok,
        ({
            let instr = instr_at(m.mem, m.pc);
            let x = (instr as int / 0x100) % 0x10;
            let y = (instr as int / 0x10) % 0x10;
            let mz = step_spec(m, keys, sy, rnd)->Ok_0;
            &&& mz.regs[15] == (if m.regs[y] >= m.regs[x] {
                1u8
            } else {
                0u8
            })
            &&& x != 15 ==> mz.regs[x] == (m.regs[y] - m.regs[x]) % 256
        }),
{
}

/// The call and return round trip: a step on a call instruction followed
/// by a step on the return instruction it jumps to restores the program
/// counter to its value immediately after the call instruction's fetch,
/// and restores the call stack.
#[verifier::rlimit(60)]
pub proof fn lemma_call_return_round_trip(
    m: MachineView,
    keys1: Seq<bool>,
    keys2: Seq<bool>,
    sy: bool,
    rnd1: u8,
    rnd2: u8,
)
    requires
        wf_machine(m),
        m.pc <= 4094,
        instr_at(m.mem, m.pc) as int / 0x1000 == 2,
        instr_at(m.mem, m.pc) as int % 0x1000 <= 4094,
        instr_at(m.mem, (instr_at(m.mem, m.pc) as int % 0x1000) as u16) == 0x00EE,
    ensures
        step_spec(m, keys1, sy, rnd1) is Ok,
        step_spec(step_spec(m, keys1, sy, rnd1)->Ok_0, keys2, sy, rnd2) is Ok,
        ({
            let mz = step_spec(step_spec(m, keys1, sy, rnd1)->Ok_0, keys2, sy, rnd2)->Ok_0;
            &&& mz.pc == m.pc + 2
            &&& mz.stack == m.stack
        }),
{
    assert(step_spec(m, keys1, sy, rnd1) is Ok);
    let m1 = step_spec(m, keys1, sy, rnd1)->Ok_0;
    let nnn = instr_at(m.mem, m.pc) as int % 0x1000;
    assert(m1.pc == nnn);
    assert(m1.mem == m.mem && m1.stack == m.stack.push((m.pc + 2) as u16));
    assert(instr_at(m1.mem, m1.pc) == 0x00EE);
    assert(m1.stack.len() > 0 && m1.stack.last() == (m.pc + 2) as u16);
    assert(step_spec(m1, keys2, sy, rnd2) is Ok);
    let m2 = step_spec(m1, keys2, sy, rnd2)->Ok_0;
    assert(m2.pc == m.pc + 2);
    assert(m1.stack.drop_last() =~= m.stack);
}

/// The sprite draw is its own inverse, and the repeated draw observes a
/// collision exactly where the sprite has a pixel that the first draw
/// turned on: drawing the same sprite at the same location twice restores
/// the pre-draw display, and the second draw reports a collision if and
/// only if the sprite flips some pixel that was off before the first draw
/// (and is hence on after it).
pub proof fn lemma_draw_twice(
    disp: Seq<bool>,
    mem: Seq<u8>,
    idx: int,
    x0: int,
    y0: int,
    n: int,
)
    requires
        disp.len() == 2048,
    ensures
        sprite_drawn(sprite_drawn(disp, mem, idx, x0, y0, n), mem, idx, x0, y0, n) == disp,
        sprite_collides(sprite_drawn(disp, mem, idx, x0, y0, n), mem, idx, x0, y0, n) == exists|
            p: int,
        | 0 <= p < 2048 && sprite_flips(mem, idx, x0, y0, n, p % 64, p / 64) && !disp[p],
{
    let d1 = sprite_drawn(disp, mem, idx, x0, y0, n);
    assert(sprite_drawn(d1, mem, idx, x0, y0, n) =~= disp);
    if sprite_collides(d1, mem, idx, x0, y0, n) {
        let p = choose|p: int|
            0 <= p < 2048 && sprite_flips(mem, idx, x0, y0, n, p % 64, p / 64) && d1[p];
        assert(!disp[p]);
        assert(0 <= p < 2048 && sprite_flips(mem, idx, x0, y0, n, p % 64, p / 64) && !disp[p]);
    }
    if exists|p: int| 0 <= p < 2048 && sprite_flips(mem, idx, x0, y0, n, p % 64, p / 64)
        && !disp[p] {
        let p = choose|p: int|
            0 <= p < 2048 && sprite_flips(mem, idx, x0, y0, n, p % 64, p / 64) && !disp[p];
        assert(d1[p]);
        assert(sprite_collides(d1, mem, idx, x0, y0, n));
    }
}

/// The three decimal digits of a byte multiply out to the byte itself.
pub proof fn lemma_bcd_digits(v: u8)
    ensures
        100 * (v / 100) + 10 * ((v / 10) % 10) + v % 10 == v,
{
    lemma_fundamental_div_mod(v as int, 10);
    lemma_fundamental_div_mod(v as int / 10, 10);
    lemma_div_denominator(v as int, 10, 10);
}

/// The binary-coded-decimal store: a step on an instruction of the 0xF
/// family with sub-selector 0x33 stores three digits at the index register
/// that multiply out (hundreds, tens, ones) to the operand register's
/// value, for every byte.
pub proof fn lemma_bcd_store(m: MachineView, keys: Seq<bool>, sy: bool, rnd: u8)
    requires
        wf_machine(m),
        m.pc <= 4094,
        instr_at(m.mem, m.pc) as int / 0x1000 == 0xF,
        instr_at(m.mem, m.pc) as int % 0x100 == 0x33,
        m.index + 2 <= 4095,
    ensures
        step_spec(m, keys, sy, rnd) is Ok,
        ({
            let instr = instr_at(m.mem, m.pc);
            let x = (instr as int / 0x100) % 0x10;
            let mz = step_spec(m, keys, sy, rnd)->Ok_0;
            100 * mz.mem[m.index as int] + 10 * mz.mem[m.index + 1] + mz.mem[m.index + 2]
                == m.regs[x]
        }),
{
    let instr = instr_at(m.mem, m.pc);
    let x = (instr as int / 0x100) % 0x10;
    lemma_bcd_digits(m.regs[x]);
}

/// The register dump and load round trip: a step on a dump instruction
/// (0xF family, sub-selector 0x55) followed by a step on a load
/// instruction with the same operand register (sub-selector 0x65), from
/// the unchanged base index, restores the whole register file — provided
/// the dumped bytes do not overwrite the load instruction itself.
pub proof fn lemma_dump_load_round_trip(
    m: MachineView,
    keys1: Seq<bool>,
    keys2: Seq<bool>,
    sy: bool,
    rnd1: u8,
    rnd2: u8,
)
    requires
        wf_machine(m),
        m.pc <= 4092,
        instr_at(m.mem, m.pc) as int / 0x1000 == 0xF,
        instr_at(m.mem, m.pc) as int % 0x100 == 0x55,
        instr_at(m.mem, (m.pc + 2) as u16) as int / 0x1000 == 0xF,
        instr_at(m.mem, (m.pc + 2) as u16) as int % 0x100 == 0x65,
        (instr_at(m.mem, (m.pc + 2) as u16) as int / 0x100) % 0x10 == (instr_at(m.mem, m.pc) as int
            / 0x100) % 0x10,
        m.index + (instr_at(m.mem, m.pc) as int / 0x100) % 0x10 <= 4095,
        m.index > m.pc + 3 || m.index + (instr_at(m.mem, m.pc) as int / 0x100) % 0x10 < m.pc + 2,
    ensures
        step_spec(m, keys1, sy, rnd1) is Ok,
        step_spec(step_spec(m, keys1, sy, rnd1)->Ok_0, keys2, sy, rnd2) is Ok,
        step_spec(step_spec(m, keys1, sy, rnd1)->Ok_0, keys2, sy, rnd2)->Ok_0.regs == m.regs,
{
    let x = (instr_at(m.mem, m.pc) as int / 0x100) % 0x10;
    let m1 = step_spec(m, keys1, sy, rnd1)->Ok_0;
    assert(instr_at(m1.mem, m1.pc) == instr_at(m.mem, (m.pc + 2) as u16));
    let m2 = step_spec(m1, keys2, sy, rnd2)->Ok_0;
    assert(m2.regs =~= m.regs);
}

} // verus!
