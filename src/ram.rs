use vstd::prelude::*;

verus! {

/// Offset of the program image; the program counter counts from here.
pub const RAM_OFFSET: usize = 0x200;

/// Number of addressable bytes.
pub const RAM_SIZE: usize = 0x1000;

/// Number of bytes of one glyph sprite in the font table.
pub const LETTER_SIZE: usize = 5;

/// Number of bytes of the whole font table (16 glyphs).
pub const FONT_SIZE: usize = 80;

/// The font table: one 5-byte sprite for each hexadecimal digit.
pub open spec fn glyphs() -> Seq<u8> {
    seq![
        0xF0, 0x90, 0x90, 0x90, 0xF0, // 0
        0x20, 0x60, 0x20, 0x20, 0x70, // 1
        0xF0, 0x10, 0xF0, 0x80, 0xF0, // 2
        0xF0, 0x10, 0xF0, 0x10, 0xF0, // 3
        0x90, 0x90, 0xF0, 0x10, 0x10, // 4
        0xF0, 0x80, 0xF0, 0x10, 0xF0, // 5
        0xF0, 0x80, 0xF0, 0x90, 0xF0, // 6
        0xF0, 0x10, 0x20, 0x40, 0x40, // 7
        0xF0, 0x90, 0xF0, 0x90, 0xF0, // 8
        0xF0, 0x90, 0xF0, 0x10, 0xF0, // 9
        0xF0, 0x90, 0xF0, 0x90, 0x90, // A
        0xE0, 0x90, 0xE0, 0x90, 0xE0, // B
        0xF0, 0x80, 0x80, 0x80, 0xF0, // C
        0xE0, 0x90, 0x90, 0x90, 0xE0, // D
        0xF0, 0x80, 0xF0, 0x80, 0xF0, // E
        0xF0, 0x80, 0xF0, 0x80, 0x80, // F
    ]
}

/// The high byte of a 16-bit word.
pub open spec fn high_byte(w: u16) -> u8 {
    (w / 256) as u8
}

/// The low byte of a 16-bit word.
pub open spec fn low_byte(w: u16) -> u8 {
    (w % 256) as u8
}

/// The big-endian word stored at `addr` and `addr + 1`.
pub open spec fn word_at(mem: Seq<u8>, addr: int) -> u16 {
    (mem[addr] * 256 + mem[addr + 1]) as u16
}

/// `mem` with the bytes of `values` written from `offset` on.
pub open spec fn write_range(mem: Seq<u8>, offset: int, values: Seq<u8>) -> Seq<u8> {
    Seq::new(
        mem.len(),
        |a: int|
            if offset <= a < offset + values.len() {
                values[a - offset]
            } else {
                mem[a]
            },
    )
}

/// The memory image right after construction: the font table, then zeros.
pub open spec fn initial_memory() -> Seq<u8> {
    Seq::new(RAM_SIZE as nat, |a: int| if a < FONT_SIZE { glyphs()[a] } else { 0u8 })
}

/// Fixed-size byte-addressable memory.
pub struct RAM {
    memory: [u8; RAM_SIZE],
}

impl View for RAM {
    type V = Seq<u8>;

    closed spec fn view(&self) -> Seq<u8> {
        self.memory@
    }
}

impl RAM {
    /// The number of cells is fixed.
    pub proof fn lemma_len(&self)
        ensures
            self@.len() == RAM_SIZE,
    {
    }

    /// A memory holding the font table at address 0 and zeros elsewhere.
    pub fn new() -> (r: RAM)
        ensures
            r@ == initial_memory(),
    {
        let letters: [u8; FONT_SIZE] = [
            0xF0, 0x90, 0x90, 0x90, 0xF0, 0x20, 0x60, 0x20, 0x20, 0x70, 0xF0, 0x10, 0xF0, 0x80,
            0xF0, 0xF0, 0x10, 0xF0, 0x10, 0xF0, 0x90, 0x90, 0xF0, 0x10, 0x10, 0xF0, 0x80, 0xF0,
            0x10, 0xF0, 0xF0, 0x80, 0xF0, 0x90, 0xF0, 0xF0, 0x10, 0x20, 0x40, 0x40, 0xF0, 0x90,
            0xF0, 0x90, 0xF0, 0xF0, 0x90, 0xF0, 0x10, 0xF0, 0xF0, 0x90, 0xF0, 0x90, 0x90, 0xE0,
            0x90, 0xE0, 0x90, 0xE0, 0xF0, 0x80, 0x80, 0x80, 0xF0, 0xE0, 0x90, 0x90, 0x90, 0xE0,
            0xF0, 0x80, 0xF0, 0x80, 0xF0, 0xF0, 0x80, 0xF0, 0x80, 0x80,
        ];
        assert(letters@ =~= glyphs());
        let mut ram = RAM { memory: [0u8; RAM_SIZE] };
        assert(ram@ =~= Seq::new(RAM_SIZE as nat, |a: int| 0u8));
        ram.sets(0, &letters);
        assert(ram@ =~= initial_memory());
        ram
    }

    /// Writes one byte.
    pub fn set(&mut self, offset: usize, value: u8)
        requires
            offset < RAM_SIZE,
        ensures
            final(self)@ == old(self)@.update(offset as int, value),
    {
        self.memory[offset] = value;
    }

    /// Writes a word big-endian: the high byte at `offset`, the low byte after it.
    pub fn set_u16(&mut self, offset: usize, value: u16)
        requires
            offset + 1 < RAM_SIZE,
        ensures
            final(self)@ == old(self)@.update(offset as int, high_byte(value)).update(
                offset + 1,
                low_byte(value),
            ),
    {
        self.set(offset, (value / 256) as u8);
        self.set(offset + 1, (value % 256) as u8);
    }

    /// Writes `values` from `offset` on.
    pub fn sets(&mut self, offset: usize, values: &[u8])
        requires
            offset + values@.len() <= RAM_SIZE,
        ensures
            final(self)@ == write_range(old(self)@, offset as int, values@),
    {
        let mut count: usize = 0;
        while count < values.len()
            invariant
                count <= values@.len(),
                offset + values@.len() <= RAM_SIZE,
                self@.len() == RAM_SIZE,
                self@ =~= write_range(old(self)@, offset as int, values@.subrange(0, count as int)),
            decreases values@.len() - count,
        {
            self.set(offset + count, values[count]);
            count += 1;
        }
        assert(values@.subrange(0, count as int) =~= values@);
    }

    /// Reads one byte.
    pub fn get(&self, offset: usize) -> (r: u8)
        requires
            offset < RAM_SIZE,
        ensures
            r == self@[offset as int],
    {
        self.memory[offset]
    }

    /// Reads the big-endian word at `offset` and `offset + 1`.
    pub fn get_u16(&self, offset: usize) -> (r: u16)
        requires
            offset + 1 < RAM_SIZE,
        ensures
            r == word_at(self@, offset as int),
    {
        (self.get(offset) as u16) * 256 + self.get(offset + 1) as u16
    }
}

} // verus!
