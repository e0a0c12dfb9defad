use vstd::prelude::*;

use crate::error::Chip8Error;

verus! {

/// First address of the built-in font: 16 glyphs of 5 bytes each.
pub const FONT_START: u16 = 0x50;

/// First address at which a program image is loaded, and the initial value of
/// the program counter.
pub const ROM_START: u16 = 512;

/// The 80 bytes of the built-in bitmap font: one 5-byte sprite per
/// hexadecimal digit, 0 through F.
pub open spec fn font_seq() -> Seq<u8> {
    seq![
        0xF0, 0x90, 0x90, 0x90, 0xF0,
        0x20, 0x60, 0x20, 0x20, 0x70,
        0xF0, 0x10, 0xF0, 0x80, 0xF0,
        0xF0, 0x10, 0xF0, 0x10, 0xF0,
        0x90, 0x90, 0xF0, 0x10, 0x10,
        0xF0, 0x80, 0xF0, 0x10, 0xF0,
        0xF0, 0x80, 0xF0, 0x90, 0xF0,
        0xF0, 0x10, 0x20, 0x40, 0x40,
        0xF0, 0x90, 0xF0, 0x90, 0xF0,
        0xF0, 0x90, 0xF0, 0x10, 0xF0,
        0xF0, 0x90, 0xF0, 0x90, 0x90,
        0xE0, 0x90, 0xE0, 0x90, 0xE0,
        0xF0, 0x80, 0x80, 0x80, 0xF0,
        0xE0, 0x90, 0x90, 0x90, 0xE0,
        0xF0, 0x80, 0xF0, 0x80, 0xF0,
        0xF0, 0x80, 0xF0, 0x80, 0x80,
    ]
}

/// Memory contents right after construction: the font at `FONT_START`,
/// zero everywhere else.
pub open spec fn initial_memory() -> Seq<u8> {
    Seq::new(
        4096,
        |i: int|
            if FONT_START <= i < FONT_START + 80 {
                font_seq()[i - FONT_START]
            } else {
                0u8
            },
    )
}

/// A flat byte store of 4096 cells, addresses 0 through 4095. Its view is the
/// sequence of cell values; every access beyond address 4095 is refused with
/// `OutOfRange`.
pub struct Memory {
    cells: [u8; 4096],
}

impl View for Memory {
    type V = Seq<u8>;

    closed spec fn view(&self) -> Seq<u8> {
        self.cells@
    }
}

/// A memory's view always holds exactly the 4096 addressable cells.
pub broadcast proof fn lemma_memory_len(m: &Memory)
    ensures
        (#[trigger] m@).len() == 4096,
{
}

impl Memory {
    /// Constructs the store with the font seeded at `FONT_START` and every
    /// other cell zero.
    pub fn new() -> (r: Memory)
        ensures
            r@ == initial_memory(),
    {
        let mut cells: [u8; 4096] = [0; 4096];
        let font: [u8; 80] = [
            0xF0, 0x90, 0x90, 0x90, 0xF0,
            0x20, 0x60, 0x20, 0x20, 0x70,
            0xF0, 0x10, 0xF0, 0x80, 0xF0,
            0xF0, 0x10, 0xF0, 0x10, 0xF0,
            0x90, 0x90, 0xF0, 0x10, 0x10,
            0xF0, 0x80, 0xF0, 0x10, 0xF0,
            0xF0, 0x80, 0xF0, 0x90, 0xF0,
            0xF0, 0x10, 0x20, 0x40, 0x40,
            0xF0, 0x90, 0xF0, 0x90, 0xF0,
            0xF0, 0x90, 0xF0, 0x10, 0xF0,
            0xF0, 0x90, 0xF0, 0x90, 0x90,
            0xE0, 0x90, 0xE0, 0x90, 0xE0,
            0xF0, 0x80, 0x80, 0x80, 0xF0,
            0xE0, 0x90, 0x90, 0x90, 0xE0,
            0xF0, 0x80, 0xF0, 0x80, 0xF0,
            0xF0, 0x80, 0xF0, 0x80, 0x80,
        ];
        proof {
            assert(font@ =~= font_seq());
        }
        let mut j: usize = 0;
        while j < 80
            invariant
                j <= 80,
                font@ == font_seq(),
                forall|p: int|
                    0 <= p < 4096 ==> cells@[p] == (if FONT_START <= p < FONT_START + j {
                        font_seq()[p - FONT_START]
                    } else {
                        0u8
                    }),
            decreases 80 - j,
        {
            cells[0x50 + j] = font[j];
            j += 1;
        }
        proof {
            assert(cells@ =~= initial_memory());
        }
        Memory { cells }
    }

    /// Reads the cell at `idx`; `OutOfRange` beyond address 4095.
    pub fn get(&self, idx: u16) -> (r: Result<u8, Chip8Error>)
        ensures
            idx < 4096 ==> r == Ok::<u8, Chip8Error>(self@[idx as int]),
            idx >= 4096 ==> r == Err::<u8, Chip8Error>(Chip8Error::OutOfRange),
    {
        if idx < 4096 {
            Ok(self.cells[idx as usize])
        } else {
            Err(Chip8Error::OutOfRange)
        }
    }

    /// Writes `value` into the cell at `idx`; `OutOfRange` beyond address
    /// 4095, leaving the store unchanged.
    pub fn set(&mut self, idx: u16, value: u8) -> (r: Result<(), Chip8Error>)
        ensures
            idx < 4096 ==> r == Ok::<(), Chip8Error>(()) && final(self)@ == old(self)@.update(
                idx as int,
                value,
            ),
            idx >= 4096 ==> r == Err::<(), Chip8Error>(Chip8Error::OutOfRange) && final(self)@
                == old(self)@,
    {
        if idx < 4096 {
            self.cells[idx as usize] = value;
            Ok(())
        } else {
            Err(Chip8Error::OutOfRange)
        }
    }

    /// Reads a cell whose address the caller has already shown to be in
    /// range.
    pub(crate) fn read_cell(&self, idx: u16) -> (r: u8)
        requires
            idx < 4096,
        ensures
            r == self@[idx as int],
    {
        self.cells[idx as usize]
    }

    /// Writes a cell whose address the caller has already shown to be in
    /// range.
    pub(crate) fn write_cell(&mut self, idx: u16, value: u8)
        requires
            idx < 4096,
        ensures
            final(self)@ == old(self)@.update(idx as int, value),
    {
        self.cells[idx as usize] = value;
    }
}

} // verus!
