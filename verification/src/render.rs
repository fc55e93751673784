//! Drawing on a screen of pixels: colors, and the characters of a text
//! screen, eight pixels wide and high each.

use vstd::prelude::*;
use vstd::std_specs::convert::FromSpecImpl;

verus! {

/// A color: red, green and blue.
#[derive(Debug, Copy, Clone, PartialEq, Eq, Hash, Structural)]
pub struct Color {
    pub r: u8,
    pub g: u8,
    pub b: u8,
}

impl Color {
    /// The pixel of the color: blue in the lowest byte, then green, then
    /// red.
    pub open spec fn pixel(self) -> u32 {
        (self.b as u32 + self.g as u32 * 0x100 + self.r as u32 * 0x1_0000) as u32
    }
}

impl Default for Color {
    /// Black.
    fn default() -> (c: Self)
        ensures
            c == (Color { r: 0, g: 0, b: 0 }),
    {
        Color { r: 0, g: 0, b: 0 }
    }
}

impl From<Color> for u32 {
    /// The pixel of the color.
    fn from(c: Color) -> (p: u32) {
        let r: u32 = c.r as u32;
        let g: u32 = c.g as u32;
        let b: u32 = c.b as u32;
        assert(b | (g << 8) | (r << 16) == b + g * 0x100 + r * 0x1_0000) by (bit_vector)
            requires
                r < 0x100,
                g < 0x100,
                b < 0x100,
        ;
        b | (g << 8) | (r << 16)
    }
}

impl FromSpecImpl<Color> for u32 {
    open spec fn obeys_from_spec() -> bool {
        true
    }

    open spec fn from_spec(c: Color) -> u32 {
        c.pixel()
    }
}

/// How a sprite is drawn over what is there.
#[derive(Debug, Copy, Clone)]
pub enum Blending {
    /// Every pixel of the sprite is drawn.
    Opaque,
    /// The pixels of the given color are left out.
    Key(Color),
}

/// The place in the buffer of the pixel `i` of the character at `col`
/// and `row` on a screen of `cols` characters in a line: the pixels of
/// a character are counted line by line, eight to a line.
pub open spec fn pixel_place(col: usize, row: usize, cols: usize, i: int) -> int {
    (row * 8 + i / 8) * (cols * 8) + col * 8 + i % 8
}

/// True when one of the first `upto` pixels of the character that is
/// set stands at the place `p`.
pub open spec fn painted(character: Seq<u8>, col: usize, row: usize, cols: usize, p: int, upto: int) -> bool {
    exists|i: int|
        0 <= i < upto && #[trigger] character[i] > 0 && p == pixel_place(col, row, cols, i)
}

/// Draws a character in the color `color` at the column `col` and the
/// row `row` of a screen of `cols` by `rows` characters: each of its 64
/// pixels that is set gets the color, everything else stays. Outside of
/// the screen nothing is drawn.
pub fn draw_character(
    character: &[u8],
    target: &mut [u32],
    col: usize,
    row: usize,
    cols: usize,
    rows: usize,
    color: u32,
)
    requires
        col < cols && row < rows ==> character@.len() >= 64 && rows * 8 * (cols * 8) <= usize::MAX
            && forall|i: int|
            0 <= i < 64 && #[trigger] character@[i] > 0 ==> pixel_place(col, row, cols, i) < old(
                target,
            )@.len(),
    ensures
        final(target)@.len() == old(target)@.len(),
        forall|p: int|
            0 <= p < old(target)@.len() ==> #[trigger] final(target)@[p] == if col < cols && row
                < rows && painted(character@, col, row, cols, p, 64) {
                color
            } else {
                old(target)@[p]
            },
{
    if col < cols && row < rows {
        assert(cols * 8 <= rows * 8 * (cols * 8) && rows * 8 <= rows * 8 * (cols * 8)) by (nonlinear_arith)
            requires
                rows >= 1,
                cols >= 1,
        ;
        let w = cols * 8;
        let top = row * 8;
        let left = col * 8;
        let mut i: usize = 0;
        while i < 64
            invariant
                i <= 64,
                col < cols,
                row < rows,
                w == cols * 8,
                top == row * 8,
                left == col * 8,
                character@.len() >= 64,
                rows * 8 * (cols * 8) <= usize::MAX,
                target@.len() == old(target)@.len(),
                forall|k: int|
                    0 <= k < 64 && #[trigger] character@[k] > 0 ==> pixel_place(col, row, cols, k)
                        < target@.len(),
                forall|p: int|
                    0 <= p < target@.len() ==> #[trigger] target@[p] == if painted(
                        character@,
                        col,
                        row,
                        cols,
                        p,
                        i as int,
                    ) {
                        color
                    } else {
                        old(target)@[p]
                    },
            decreases 64 - i,
        {
            let sy = i / 8;
            let sx = i % 8;
            assert((top + sy) * w + left + sx < rows * 8 * (cols * 8)) by (nonlinear_arith)
                requires
                    top + sy < rows * 8,
                    left + sx < w,
                    w == cols * 8,
            ;
            assert((top + sy) * w <= (top + sy) * w + left + sx) by (nonlinear_arith)
                requires
                    left + sx >= 0,
            ;
            let pos = (top + sy) * w + left + sx;
            assert(pos == pixel_place(col, row, cols, i as int));
            let ghost before = target@;
            if character[i] > 0 {
                target[pos] = color;
            }
            proof {
                assert forall|p: int| 0 <= p < target@.len() implies #[trigger] target@[p] == if painted(
                    character@,
                    col,
                    row,
                    cols,
                    p,
                    i + 1,
                ) {
                    color
                } else {
                    old(target)@[p]
                } by {
                    if painted(character@, col, row, cols, p, i + 1) {
                        let k = choose|k: int|
                            0 <= k < i + 1 && #[trigger] character@[k] > 0 && p == pixel_place(
                                col,
                                row,
                                cols,
                                k,
                            );
                        if k < i {
                            assert(painted(character@, col, row, cols, p, i as int));
                        }
                    } else {
                        if painted(character@, col, row, cols, p, i as int) {
                            let k = choose|k: int|
                                0 <= k < i && #[trigger] character@[k] > 0 && p == pixel_place(
                                    col,
                                    row,
                                    cols,
                                    k,
                                );
                            assert(0 <= k < i + 1);
                        }
                        if character@[i as int] > 0 {
                            assert(p != pos);
                        }
                    }
                }
            }
            i = i + 1;
        }
    }
}

} // verus!
