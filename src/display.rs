use vstd::prelude::*;

verus! {

/// Width of the screen in pixels.
pub const PIXEL_WIDTH: usize = 64;

/// Height of the screen in pixels.
pub const PIXEL_HEIGHT: usize = 32;

/// Number of pixels of the screen.
pub const PIXEL_COUNT: usize = 2048;

/// Bit `b` of a sprite row, counted from the most significant bit.
pub open spec fn sprite_bit(value: u8, b: int) -> bool {
    value & (0x80u8 >> (b as u8)) != 0
}

/// The position in the pixel buffer of column `x`, row `y`, both taken
/// modulo the screen's size.
pub open spec fn pixel_index(x: int, y: int) -> int {
    (y % (PIXEL_HEIGHT as int)) * (PIXEL_WIDTH as int) + x % (PIXEL_WIDTH as int)
}

/// `pixels` with the first `upto` bits of the sprite row `value` XORed in
/// from column `x` of row `y`, wrapping around the edges.
pub open spec fn drawn_row(pixels: Seq<bool>, x: int, y: int, value: u8, upto: int) -> Seq<bool> {
    Seq::new(
        pixels.len(),
        |i: int|
            {
                let b = (i % 64 - x % 64 + 64) % 64;
                if i / 64 == y % 32 && b < upto {
                    pixels[i] != sprite_bit(value, b)
                } else {
                    pixels[i]
                }
            },
    )
}

/// Some lit pixel among the first `upto` ones of the row is turned off.
pub open spec fn row_collides(pixels: Seq<bool>, x: int, y: int, value: u8, upto: int) -> bool {
    exists|b: int| 0 <= b < upto && sprite_bit(value, b) && pixels[pixel_index(x + b, y)]
}

/// Column `x + bit` of row `y` is the one cell of the row whose offset from
/// column `x` is `bit`.
proof fn lemma_row_cell(x: int, y: int, bit: int, i: int)
    requires
        0 <= x,
        0 <= y,
        0 <= bit < 8,
        0 <= i < PIXEL_COUNT,
    ensures
        pixel_index(x + bit, y) == (y % 32) * 64 + (x % 64 + bit) % 64,
        0 <= pixel_index(x + bit, y) < PIXEL_COUNT,
        (i / 64 == y % 32 && (i % 64 - x % 64 + 64) % 64 == bit) <==> i == pixel_index(x + bit, y),
{
    assert(pixel_index(x + bit, y) == (y % 32) * 64 + (x % 64 + bit) % 64) by (nonlinear_arith)
        requires
            0 <= x,
            0 <= bit,
    ;
    {
        let p = pixel_index(x + bit, y);
        assert(p / 64 == y % 32 && p % 64 == (x % 64 + bit) % 64) by (nonlinear_arith)
            requires
                p == (y % 32) * 64 + (x % 64 + bit) % 64,
                0 <= y,
                0 <= x,
                0 <= bit,
        ;
        assert(i == (i / 64) * 64 + i % 64) by (nonlinear_arith)
            requires
                0 <= i,
        ;
    }
}

/// A monochrome pixel buffer onto which sprites are XOR-composited.
pub struct Display {
    v_ram: [bool; PIXEL_COUNT],
}

impl View for Display {
    type V = Seq<bool>;

    closed spec fn view(&self) -> Seq<bool> {
        self.v_ram@
    }
}

impl Display {
    /// The buffer always holds one value for each pixel.
    pub proof fn lemma_len(&self)
        ensures
            self@.len() == PIXEL_COUNT,
    {
    }

    /// A dark screen.
    pub fn new() -> (r: Display)
        ensures
            r@ == Seq::new(PIXEL_COUNT as nat, |i: int| false),
    {
        let r = Display { v_ram: [false; PIXEL_COUNT] };
        assert(r@ =~= Seq::new(PIXEL_COUNT as nat, |i: int| false));
        r
    }

    /// Turns every pixel off.
    pub fn clear_display(&mut self)
        ensures
            final(self)@ == Seq::new(PIXEL_COUNT as nat, |i: int| false),
    {
        let mut index: usize = 0;
        while index < PIXEL_COUNT
            invariant
                index <= PIXEL_COUNT,
                self@.len() == PIXEL_COUNT,
                forall|i: int| 0 <= i < index ==> !self@[i],
            decreases PIXEL_COUNT - index,
        {
            self.v_ram[index] = false;
            index += 1;
        }
        assert(self@ =~= Seq::new(PIXEL_COUNT as nat, |i: int| false));
    }

    /// XORs the 8-pixel sprite row `value` onto the screen from column `x` of
    /// row `y`; pixels past an edge wrap around to the other side. Returns
    /// whether a lit pixel was turned off.
    pub fn draw(&mut self, x: usize, y: usize, value: u8) -> (collision: bool)
        ensures
            final(self)@ == drawn_row(old(self)@, x as int, y as int, value, 8),
            collision == row_collides(old(self)@, x as int, y as int, value, 8),
    {
        let row = (y % PIXEL_HEIGHT) * PIXEL_WIDTH;
        let mut collision = false;
        let mut bit: usize = 0;
        assert(self@ =~= drawn_row(old(self)@, x as int, y as int, value, 0));
        while bit < 8
            invariant
                bit <= 8,
                row == (y % 32) * 64,
                self@ == drawn_row(old(self)@, x as int, y as int, value, bit as int),
                collision == row_collides(old(self)@, x as int, y as int, value, bit as int),
            decreases 8 - bit,
        {
            let index = row + (x % PIXEL_WIDTH + bit) % PIXEL_WIDTH;
            let on = value & (0x80u8 >> (bit as u8)) != 0;
            proof {
                lemma_row_cell(x as int, y as int, bit as int, 0);
            }
            let lit = self.v_ram[index];
            assert(lit == old(self)@[pixel_index(x + bit, y as int)]);
            if on && lit {
                collision = true;
            }
            let ghost before = self@;
            self.v_ram[index] = lit != on;
            proof {
                let next = drawn_row(old(self)@, x as int, y as int, value, bit + 1);
                assert forall|i: int| 0 <= i < PIXEL_COUNT implies self@[i] == next[i] by {
                    lemma_row_cell(x as int, y as int, bit as int, i);
                    if i != index {
                        assert(before[i] == self@[i]);
                    }
                }
                assert(self@ =~= next);
                assert(on == sprite_bit(value, bit as int));
                if on && lit {
                    assert(sprite_bit(value, bit as int) && old(self)@[pixel_index(
                        x + bit,
                        y as int,
                    )]);
                    assert(row_collides(old(self)@, x as int, y as int, value, bit + 1));
                }
                if row_collides(old(self)@, x as int, y as int, value, bit + 1) && !(on && lit) {
                    let b = choose|b: int|
                        0 <= b < bit + 1 && sprite_bit(value, b) && old(self)@[pixel_index(
                            x + b,
                            y as int,
                        )];
                    assert(b < bit);
                }
            }
            bit += 1;
        }
        collision
    }

    /// Whether the pixel at column `x`, row `y` is lit.
    pub fn pixel(&self, x: usize, y: usize) -> (r: bool)
        requires
            x < PIXEL_WIDTH,
            y < PIXEL_HEIGHT,
        ensures
            r == self@[y * 64 + x],
    {
        self.v_ram[y * PIXEL_WIDTH + x]
    }
}

} // verus!
