//! The 4096-byte address space. The low region holds the built-in font
//! sprites (one 5-byte glyph per hexadecimal digit, digit `d` at address
//! `5 * d`); a loaded program occupies addresses from 0x200 onward.

use vstd::prelude::*;

verus! {

/// The 80 font bytes: 16 glyphs of 5 rows each, digit `d` starting at
/// index `5 * d`.
pub open spec fn font() -> Seq<u8> {
    seq![
        0xF0u8, 0x90, 0x90, 0x90, 0xF0,  // 0
        0x20, 0x60, 0x20, 0x20, 0x70,  // 1
        0xF0, 0x10, 0xF0, 0x80, 0xF0,  // 2
        0xF0, 0x10, 0xF0, 0x10, 0xF0,  // 3
        0x90, 0x90, 0xF0, 0x10, 0x10,  // 4
        0xF0, 0x80, 0xF0, 0x10, 0xF0,  // 5
        0xF0, 0x80, 0xF0, 0x90, 0xF0,  // 6
        0xF0, 0x10, 0x20, 0x40, 0x40,  // 7
        0xF0, 0x90, 0xF0, 0x90, 0xF0,  // 8
        0xF0, 0x90, 0xF0, 0x10, 0xF0,  // 9
        0xF0, 0x90, 0xF0, 0x90, 0x90,  // A
        0xE0, 0x90, 0xE0, 0x90, 0xE0,  // B
        0xF0, 0x80, 0x80, 0x80, 0xF0,  // C
        0xE0, 0x90, 0x90, 0x90, 0xE0,  // D
        0xF0, 0x80, 0xF0, 0x80, 0xF0,  // E
        0xF0, 0x80, 0xF0, 0x80, 0x80,  // F
    ]
}

/// A flat byte store covering addresses 0x000 through 0xFFF.
pub struct Memory {
    data: [u8; 4096],
}

impl View for Memory {
    type V = Seq<u8>;

    closed spec fn view(&self) -> Seq<u8> {
        self.data@
    }
}

impl Memory {
    /// Fresh memory: the font in the low 80 bytes, zero everywhere else.
    pub fn new() -> (m: Memory)
        ensures
            m@.len() == 4096,
            m@.subrange(0, 80) == font(),
            forall|a: int| 80 <= a < 4096 ==> m@[a] == 0,
    {
        let glyphs: [u8; 80] = [
            0xF0, 0x90, 0x90, 0x90, 0xF0,
            0x20, 0x60, 0x20, 0x20, 0x70,
            0xF0, 0x10, 0xF0, 0x80, 0xF0,
            0xF0, 0x10, 0xF0, 0x10, 0xF0,
            0x90, 0x90, 0xF0, 0x10, 0x10,
            0xF0, 0x80, 0xF0, 0x10, 0xF0,
            0xF0, 0x80, 0xF0, 0x90, 0xF0,
            0xF0, 0x10, 0x20, 0x40, 0x40,
            0xF0, 0x90, 0xF0, 0x90, 0xF0,
            0xF0, 0x90, 0xF0, 0x10, 0xF0,
            0xF0, 0x90, 0xF0, 0x90, 0x90,
            0xE0, 0x90, 0xE0, 0x90, 0xE0,
            0xF0, 0x80, 0x80, 0x80, 0xF0,
            0xE0, 0x90, 0x90, 0x90, 0xE0,
            0xF0, 0x80, 0xF0, 0x80, 0xF0,
            0xF0, 0x80, 0xF0, 0x80, 0x80,
        ];
        proof {
            assert(glyphs@ =~= font());
        }
        let mut data: [u8; 4096] = [0; 4096];
        let mut k: usize = 0;
        while k < 80
            invariant
                k <= 80,
                glyphs@ == font(),
                data@.len() == 4096,
                forall|a: int| 0 <= a < k ==> data@[a] == font()[a],
                forall|a: int| k <= a < 4096 ==> data@[a] == 0,
            decreases 80 - k,
        {
            data[k] = glyphs[k];
            k += 1;
        }
        let m = Memory { data };
        proof {
            assert(m@.subrange(0, 80) =~= font());
        }
        m
    }

    /// Reads the byte at `address`.
    pub fn read_byte(&self, address: u16) -> (r: u8)
        requires
            address < 4096,
        ensures
            r == self@[address as int],
    {
        self.data[address as usize]
    }

    /// Writes one byte at `address`.
    pub fn write_byte(&mut self, address: u16, value: u8)
        requires
            address < 4096,
        ensures
            final(self)@ == old(self)@.update(address as int, value),
    {
        self.data[address as usize] = value;
    }

    /// Copies `program` into memory starting at the conventional load
    /// address 0x200. A program longer than the remaining 3584 bytes is
    /// out of contract; the host checks the length before loading.
    pub fn load_program(&mut self, program: &Vec<u8>)
        requires
            program@.len() <= 3584,
        ensures
            final(self)@.len() == old(self)@.len(),
            forall|a: int|
                0x200 <= a < 0x200 + program@.len() ==> final(self)@[a] == program@[a - 0x200],
            forall|a: int|
                0 <= a < old(self)@.len() && !(0x200 <= a < 0x200 + program@.len())
                    ==> final(self)@[a] == old(self)@[a],
    {
        let mut k: usize = 0;
        while k < program.len()
            invariant
                k <= program@.len(),
                program@.len() <= 3584,
                self@.len() == 4096,
                old(self)@.len() == 4096,
                forall|a: int| 0x200 <= a < 0x200 + k ==> self@[a] == program@[a - 0x200],
                forall|a: int|
                    0 <= a < 4096 && !(0x200 <= a < 0x200 + k) ==> self@[a] == old(self)@[a],
            decreases program@.len() - k,
        {
            self.data[0x200 + k] = program[k];
            k += 1;
        }
    }
}

} // verus!
