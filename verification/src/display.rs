use vstd::prelude::*;

use crate::error::Chip8Error;

verus! {

/// Width of the display in pixels.
pub const SCREEN_WIDTH: u8 = 64;

/// Height of the display in pixels.
pub const SCREEN_HEIGHT: u8 = 32;

/// Position of pixel `(x, y)` in the row-major view of the display.
pub open spec fn pixel_index(x: int, y: int) -> int {
    y * 64 + x
}

/// The display with every pixel off.
pub open spec fn blank_display() -> Seq<bool> {
    Seq::new(2048, |i: int| false)
}

/// A 64x32 grid of boolean pixels. Its view is the row-major sequence of the
/// 2048 pixel values; every access outside the grid is refused with
/// `OutOfRange`.
pub struct Display {
    pixels: [bool; 2048],
}

impl View for Display {
    type V = Seq<bool>;

    closed spec fn view(&self) -> Seq<bool> {
        self.pixels@
    }
}

/// A display's view always holds exactly the 2048 pixels of the 64x32 grid.
pub broadcast proof fn lemma_display_len(d: &Display)
    ensures
        (#[trigger] d@).len() == 2048,
{
}

impl Display {
    /// Constructs the display with every pixel off.
    pub fn new() -> (r: Display)
        ensures
            r@ == blank_display(),
    {
        let pixels: [bool; 2048] = [false; 2048];
        proof {
            assert(pixels@ =~= blank_display());
        }
        Display { pixels }
    }

    /// Turns every pixel off.
    pub fn clear(&mut self)
        ensures
            final(self)@ == blank_display(),
    {
        self.pixels = [false; 2048];
        proof {
            assert(self.pixels@ =~= blank_display());
        }
    }

    /// Reads the pixel at column `x`, row `y`; `OutOfRange` outside the grid.
    pub fn get_pixel(&self, x: u8, y: u8) -> (r: Result<bool, Chip8Error>)
        ensures
            x < 64 && y < 32 ==> r == Ok::<bool, Chip8Error>(
                self@[pixel_index(x as int, y as int)],
            ),
            !(x < 64 && y < 32) ==> r == Err::<bool, Chip8Error>(Chip8Error::OutOfRange),
    {
        if x < 64 && y < 32 {
            Ok(self.pixels[(y as usize) * 64 + (x as usize)])
        } else {
            Err(Chip8Error::OutOfRange)
        }
    }

    /// Flips the pixel at column `x`, row `y` and returns its previous value;
    /// a previous value of `true` is how the interpreter detects a sprite
    /// collision. `OutOfRange` outside the grid, leaving the display
    /// unchanged.
    pub fn toggle_pixel(&mut self, x: u8, y: u8) -> (r: Result<bool, Chip8Error>)
        ensures
            x < 64 && y < 32 ==> {
                &&& r == Ok::<bool, Chip8Error>(old(self)@[pixel_index(x as int, y as int)])
                &&& final(self)@ == old(self)@.update(
                    pixel_index(x as int, y as int),
                    !old(self)@[pixel_index(x as int, y as int)],
                )
            },
            !(x < 64 && y < 32) ==> r == Err::<bool, Chip8Error>(Chip8Error::OutOfRange)
                && final(self)@ == old(self)@,
    {
        if x < 64 && y < 32 {
            let idx: usize = (y as usize) * 64 + (x as usize);
            let prev = self.pixels[idx];
            self.pixels[idx] = !prev;
            Ok(prev)
        } else {
            Err(Chip8Error::OutOfRange)
        }
    }

    /// Borrows the pixel at column `x`, row `y` for mutation.
    pub fn get_pixel_mut(&mut self, x: u8, y: u8) -> (r: &mut bool)
        requires
            x < 64,
            y < 32,
        ensures
            *r == old(self)@[pixel_index(x as int, y as int)],
            final(self)@ == old(self)@.update(pixel_index(x as int, y as int), *final(r)),
    {
        &mut self.pixels[(y as usize) * 64 + (x as usize)]
    }
}

} // verus!
