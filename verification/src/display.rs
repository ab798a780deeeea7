//! The 64x32 monochrome screen: 2048 boolean pixels in row-major order
//! (pixel index = row * 64 + column).

use vstd::prelude::*;

verus! {

/// One boolean per pixel; `true` means the pixel is lit.
pub struct Display {
    data: [bool; 2048],
}

impl View for Display {
    type V = Seq<bool>;

    closed spec fn view(&self) -> Seq<bool> {
        self.data@
    }
}

impl Display {
    /// A blank screen: every pixel off.
    pub fn new() -> (d: Display)
        ensures
            d@.len() == 2048,
            forall|p: int| 0 <= p < 2048 ==> !d@[p],
    {
        Display { data: [false; 2048] }
    }

    /// Turns every pixel off.
    pub fn clear(&mut self)
        ensures
            final(self)@.len() == 2048,
            forall|p: int| 0 <= p < 2048 ==> !final(self)@[p],
    {
        self.data = [false; 2048];
    }

    /// A copy of all 2048 pixel states, for a renderer to consume.
    pub fn get_data(&self) -> (r: [bool; 2048])
        ensures
            r@ == self@,
    {
        self.data
    }

    /// Reads one pixel.
    pub fn get_pixel(&self, position: u16) -> (r: bool)
        requires
            position < 2048,
        ensures
            r == self@[position as int],
    {
        self.data[position as usize]
    }

    /// Writes one pixel.
    pub fn set_pixel(&mut self, position: u16, value: bool)
        requires
            position < 2048,
        ensures
            final(self)@ == old(self)@.update(position as int, value),
    {
        self.data[position as usize] = value;
    }
}

} // verus!
