use vstd::prelude::*;

verus! {

/// Width of the screen, in pixels.
pub const CHIP8_WIDTH: usize = 64;

/// Height of the screen, in pixels.
pub const CHIP8_HEIGHT: usize = 32;

/// Five-byte sprites of the hexadecimal digits 0 to F, in order.
pub const FONT_SET: [u8; 80] = [
    0xF0, 0x90, 0x90, 0x90, 0xF0, // 0
    0x20, 0x60, 0x20, 0x20, 0x70, // 1
    0xF0, 0x10, 0xF0, 0x80, 0xF0, // 2
    0xF0, 0x10, 0xF0, 0x10, 0xF0, // 3
    0x90, 0x90, 0xF0, 0x10, 0x10, // 4
    0xF0, 0x80, 0xF0, 0x10, 0xF0, // 5
    0xF0, 0x80, 0xF0, 0x90, 0xF0, // 6
    0xF0, 0x10, 0x20, 0x40, 0x40, // 7
    0xF0, 0x90, 0xF0, 0x90, 0xF0, // 8
    0xF0, 0x90, 0xF0, 0x10, 0xF0, // 9
    0xF0, 0x90, 0xF0, 0x90, 0x90, // A
    0xE0, 0x90, 0xE0, 0x90, 0xE0, // B
    0xF0, 0x80, 0x80, 0x80, 0xF0, // C
    0xE0, 0x90, 0x90, 0x90, 0xE0, // D
    0xF0, 0x80, 0xF0, 0x80, 0xF0, // E
    0xF0, 0x80, 0xF0, 0x80, 0x80, // F
];

/// Packs an RGB triple into a `0x00RRGGBB` word.
pub fn from_u8_rgb(r: u8, g: u8, b: u8) -> (c: u32)
    ensures
        c == (r as u32) * 0x10000 + (g as u32) * 0x100 + (b as u32),
{
    let (r, g, b) = (r as u32, g as u32, b as u32);
    let c = (r << 16) | (g << 8) | b;
    assert(c == r * 0x10000 + g * 0x100 + b) by (bit_vector)
        requires
            r < 256,
            g < 256,
            b < 256,
            c == (r << 16) | (g << 8) | b,
    ;
    c
}

/// Colour of a clear pixel in the render buffer.
pub open spec fn background() -> u32 {
    0
}

/// Colour of a set pixel in the render buffer (red).
pub open spec fn foreground() -> u32 {
    0x00FF0000
}

/// Colour that a pixel holding `v` is rendered in.
pub open spec fn pixel_color(v: u8) -> u32 {
    if v == 1 {
        foreground()
    } else {
        background()
    }
}

/// Whether bit `i` of a sprite row, counted from the most significant, is set.
pub open spec fn sprite_bit(b: u8, i: u8) -> bool {
    b & (0x80u8 >> i) != 0
}

/// Whether an odd number of the set bits in column `i` of sprite rows `0..k`
/// land on screen row `r` when the sprite's top row is `ym`.
pub open spec fn hits(sprite: Seq<u8>, k: int, ym: int, r: int, i: u8) -> bool
    decreases k,
{
    if k <= 0 {
        false
    } else {
        hits(sprite, k - 1, ym, r, i) != (((ym + k - 1) % 32 == r) && sprite_bit(
            sprite[k - 1],
            i,
        ))
    }
}

/// The sprite column that lands on screen column `c` when the sprite's left
/// column is `xm`.
pub open spec fn sprite_col(xm: int, c: int) -> int {
    (c - xm + 64) % 64
}

/// Whether drawing `sprite` at `(xm, ym)` toggles the cell `(r, c)` an odd
/// number of times.
pub open spec fn toggled(sprite: Seq<u8>, xm: int, ym: int, r: int, c: int) -> bool {
    sprite_col(xm, c) < 8 && hits(sprite, sprite.len() as int, ym, r, sprite_col(xm, c) as u8)
}

/// `v` with its low bit flipped when `t` holds.
pub open spec fn flip(v: u8, t: bool) -> u8 {
    if t {
        v ^ 1
    } else {
        v
    }
}

/// The grid after drawing `sprite` with its top-left corner at `(x, y)`.
pub open spec fn drawn(g: Seq<Seq<u8>>, x: int, y: int, sprite: Seq<u8>) -> Seq<Seq<u8>> {
    Seq::new(
        32,
        |r: int| Seq::new(64, |c: int| flip(g[r][c], toggled(sprite, x % 64, y % 32, r, c))),
    )
}

/// Whether drawing `sprite` at `(x, y)` on `g` writes a set bit onto a cell
/// that is set at that moment.
pub open spec fn collides(g: Seq<Seq<u8>>, x: int, y: int, sprite: Seq<u8>) -> bool {
    exists|j: int, i: u8|
        0 <= j < sprite.len() && i < 8 && #[trigger] sprite_bit(sprite[j], i) && flip(
            g[(y % 32 + j) % 32][(x % 64 + i) % 64],
            hits(sprite, j, y % 32, (y % 32 + j) % 32, i),
        ) == 1
}

/// Character `k` of the text dump of `vram`: one line per screen column, the
/// column's 32 pixels from top to bottom as `0` or `1`, then a line feed.
pub open spec fn text_char(vram: [[u8; 64]; 32], k: int) -> char {
    let i = k / 33;
    let j = k % 33;
    if j == 32 {
        '\n'
    } else if vram[j][i] == 1 {
        '1'
    } else {
        '0'
    }
}

/// Relies on String::from_utf8: bytes below 128 are ASCII, valid UTF-8, and
/// decode to the characters with the same codes.
#[verifier::external_body]
fn ascii_string(bytes: Vec<u8>) -> (s: String)
    requires
        forall|k: int| 0 <= k < bytes@.len() ==> #[trigger] bytes@[k] < 128,
    ensures
        s@ == bytes@.map_values(|b: u8| b as char),
{
    String::from_utf8(bytes).unwrap()
}

/// A 64 by 32 monochrome screen.
#[derive(Clone, Debug)]
pub struct Display {
    /// One byte per pixel, row by row; 1 is set.
    pub vram: [[u8; 64]; 32],
    /// Set whenever `vram` changes.
    pub update: bool,
    /// Packed RGB pixels for presentation.
    pub buffer: Vec<u32>,
}

proof fn lemma_flip_twice(v: u8)
    ensures
        (v ^ 1) ^ 1 == v,
{
    assert((v ^ 1) ^ 1 == v) by (bit_vector);
}

proof fn lemma_col(xm: int, i: int)
    requires
        0 <= xm < 64,
        0 <= i < 8,
    ensures
        sprite_col(xm, (xm + i) % 64) == i,
        forall|c: int| 0 <= c < 64 && sprite_col(xm, c) == i ==> c == (xm + i) % 64,
{
}

impl Display {
    /// The pixel grid, row by row.
    pub open spec fn grid(&self) -> Seq<Seq<u8>> {
        Seq::new(32, |r: int| self.vram[r]@)
    }

    /// A clear screen, marked as changed, with a black render buffer.
    pub fn new() -> (d: Display)
        ensures
            forall|r: int, c: int| 0 <= r < 32 && 0 <= c < 64 ==> d.vram[r][c] == 0,
            d.one_bit(),
            d.update,
            d.buffer@.len() == CHIP8_WIDTH * CHIP8_HEIGHT,
            forall|k: int| 0 <= k < d.buffer@.len() ==> d.buffer@[k] == background(),
    {
        let buffer_width = CHIP8_WIDTH;
        let buffer_height = CHIP8_HEIGHT;
        Display {
            vram: [[0u8; 64]; 32],
            buffer: vec![from_u8_rgb(0, 0, 0); buffer_height * buffer_width],
            update: true,
        }
    }

    /// XOR-draws one sprite row `row` on screen row `y`, its leftmost bit at
    /// column `xm`, wrapping at the right edge. Returns whether a set bit met
    /// a set pixel.
    fn draw_row(&mut self, xm: usize, y: usize, row: u8) -> (hit: bool)
        requires
            xm < 64,
            y < 32,
        ensures
            forall|r: int, c: int|
                0 <= r < 32 && 0 <= c < 64 ==> #[trigger] final(self).vram[r][c] == flip(
                    old(self).vram[r][c],
                    r == y && sprite_col(xm as int, c) < 8 && sprite_bit(
                        row,
                        sprite_col(xm as int, c) as u8,
                    ),
                ),
            hit == exists|i: u8|
                i < 8 && #[trigger] sprite_bit(row, i) && old(self).vram[y as int][(xm + i)
                    % 64] == 1,
            final(self).update == old(self).update,
            final(self).buffer == old(self).buffer,
    {
        let ghost before = self.vram;
        let mut hit = false;
        let mut i: u8 = 0;
        let mut x: usize = xm;
        while i < 8
            invariant
                xm < 64,
                y < 32,
                i <= 8,
                x == (xm + i) % 64,
                self.update == old(self).update,
                self.buffer == old(self).buffer,
                before == old(self).vram,
                forall|r: int, c: int|
                    0 <= r < 32 && 0 <= c < 64 ==> #[trigger] self.vram[r][c] == flip(
                        before[r][c],
                        r == y && sprite_col(xm as int, c) < i && sprite_bit(
                            row,
                            sprite_col(xm as int, c) as u8,
                        ),
                    ),
                hit == exists|ii: u8|
                    ii < i && #[trigger] sprite_bit(row, ii) && before[y as int][(xm + ii) % 64]
                        == 1,
            decreases 8 - i,
        {
            proof {
                lemma_col(xm as int, i as int);
            }
            let ghost v = self.vram[y as int][x as int];
            assert(v == before[y as int][x as int]);
            // 0x80 >> i selects bit i of the row, most significant first
            if (row & (0x80 >> i)) != 0x00 {
                if self.vram[y][x] == 0x01 {
                    hit = true;
                }
                proof {
                    lemma_flip_twice(v);
                }
                self.vram[y][x] = self.vram[y][x] ^ 0x01;
            }
            assert(hit == exists|ii: u8|
                ii < i + 1 && #[trigger] sprite_bit(row, ii) && before[y as int][(xm + ii) % 64]
                    == 1) by {
                if sprite_bit(row, i) && v == 1 {
                    assert(sprite_bit(row, i) && before[y as int][(xm + i) % 64] == 1);
                }
            }
            i += 1;
            x = if x == CHIP8_WIDTH - 1 {
                0
            } else {
                x + 1
            };
        }
        hit
    }

    /// XOR-draws `sprite`, one byte per row and most significant bit first,
    /// with its top-left corner at `(xpos, ypos)`, wrapping around both edges.
    /// Returns whether a set sprite bit met a set pixel.
    pub fn draw(&mut self, xpos: usize, ypos: usize, sprite: &[u8]) -> (collision: bool)
        ensures
            final(self).grid() == drawn(old(self).grid(), xpos as int, ypos as int, sprite@),
            collision == collides(old(self).grid(), xpos as int, ypos as int, sprite@),
            final(self).update,
            final(self).buffer == old(self).buffer,
            old(self).one_bit() ==> final(self).one_bit(),
    {
        let ghost g0 = self.grid();
        let ghost sp = sprite@;
        let xm = xpos % CHIP8_WIDTH;
        let ym = ypos % CHIP8_HEIGHT;
        let mut collision = false;
        let h = sprite.len();
        let mut j: usize = 0;
        let mut y: usize = ym;
        while j < h
            invariant
                h == sp.len(),
                sp == sprite@,
                j <= h,
                xm == xpos % 64,
                ym == ypos % 32,
                y == (ym + j) % 32,
                self.buffer == old(self).buffer,
                g0 == old(self).grid(),
                forall|r: int, c: int|
                    0 <= r < 32 && 0 <= c < 64 ==> #[trigger] self.vram[r][c] == flip(
                        g0[r][c],
                        sprite_col(xm as int, c) < 8 && hits(
                            sp,
                            j as int,
                            ym as int,
                            r,
                            sprite_col(xm as int, c) as u8,
                        ),
                    ),
                collision == exists|jj: int, i: u8|
                    0 <= jj < j && i < 8 && #[trigger] sprite_bit(sp[jj], i) && flip(
                        g0[(ym + jj) % 32][(xm + i) % 64],
                        hits(sp, jj, ym as int, (ym + jj) % 32, i),
                    ) == 1,
            decreases h - j,
        {
            let ghost before = self.vram;
            let ghost col_before = collision;
            let hit = self.draw_row(xm, y, sprite[j]);
            collision = collision || hit;
            proof {
                assert forall|r: int, c: int| 0 <= r < 32 && 0 <= c < 64 implies #[trigger]
                    self.vram[r][c] == flip(
                        g0[r][c],
                        sprite_col(xm as int, c) < 8 && hits(
                            sp,
                            j + 1,
                            ym as int,
                            r,
                            sprite_col(xm as int, c) as u8,
                        ),
                    ) by {
                    assert(before[r][c] == flip(
                        g0[r][c],
                        sprite_col(xm as int, c) < 8 && hits(
                            sp,
                            j as int,
                            ym as int,
                            r,
                            sprite_col(xm as int, c) as u8,
                        ),
                    ));
                    lemma_flip_twice(g0[r][c]);
                }
                assert forall|i: u8| i < 8 && #[trigger] sprite_bit(sp[j as int], i) implies before[y as int][(xm + i) % 64] == flip(
                    g0[(ym + j) % 32][(xm + i) % 64],
                    hits(sp, j as int, ym as int, (ym + j) % 32, i),
                ) by {
                    lemma_col(xm as int, i as int);
                }
                assert(collision == exists|jj: int, i: u8|
                    0 <= jj < j + 1 && i < 8 && #[trigger] sprite_bit(sp[jj], i) && flip(
                        g0[(ym + jj) % 32][(xm + i) % 64],
                        hits(sp, jj, ym as int, (ym + jj) % 32, i),
                    ) == 1) by {
                    if hit {
                        let i = choose|i: u8|
                            i < 8 && #[trigger] sprite_bit(sp[j as int], i) && before[y as int][(xm
                                + i) % 64] == 1;
                        assert(sprite_bit(sp[j as int], i));
                    }
                }
            }
            j += 1;
            y = if y == CHIP8_HEIGHT - 1 {
                0
            } else {
                y + 1
            };
        }
        self.update = true;
        proof {
            assert(self.grid() =~= drawn(g0, xpos as int, ypos as int, sp)) by {
                assert forall|r: int| 0 <= r < 32 implies #[trigger] self.grid()[r] =~= drawn(
                    g0,
                    xpos as int,
                    ypos as int,
                    sp,
                )[r] by {
                    assert forall|c: int| 0 <= c < 64 implies self.grid()[r][c] == drawn(
                        g0,
                        xpos as int,
                        ypos as int,
                        sp,
                    )[r][c] by {
                        assert(self.vram[r][c] == self.grid()[r][c]);
                    }
                }
            }
            if old(self).one_bit() {
                assert forall|r: int, c: int| 0 <= r < 32 && 0 <= c < 64 implies #[trigger]
                    self.vram[r][c] <= 1 by {
                    let v = g0[r][c];
                    assert(v == old(self).vram[r][c]);
                    assert(v <= 1 ==> v ^ 1 <= 1) by (bit_vector);
                    assert(self.vram[r][c] == self.grid()[r][c]);
                }
            }
        }
        collision
    }

    /// The screen as packed RGB words, row by row: red for a set pixel,
    /// black otherwise.
    pub fn to_render_buffer(&self) -> (out: Vec<u32>)
        ensures
            out@.len() == CHIP8_WIDTH * CHIP8_HEIGHT,
            forall|k: int|
                0 <= k < CHIP8_WIDTH * CHIP8_HEIGHT ==> #[trigger] out@[k] == pixel_color(
                    self.vram[k / 64][k % 64],
                ),
    {
        let fg = from_u8_rgb(255, 0, 0);
        let bg = from_u8_rgb(0, 0, 0);
        let mut out: Vec<u32> = Vec::new();
        let mut k: usize = 0;
        while k < CHIP8_WIDTH * CHIP8_HEIGHT
            invariant
                k <= CHIP8_WIDTH * CHIP8_HEIGHT,
                out@.len() == k,
                fg == foreground(),
                bg == background(),
                forall|m: int| 0 <= m < k ==> #[trigger] out@[m] == pixel_color(self.vram[m / 64][m % 64]),
            decreases CHIP8_WIDTH * CHIP8_HEIGHT - k,
        {
            let v = self.vram[k / CHIP8_WIDTH][k % CHIP8_WIDTH];
            out.push(
                if v == 1 {
                    fg
                } else {
                    bg
                },
            );
            k += 1;
        }
        out
    }

    /// Every pixel holds 0 or 1.
    pub open spec fn one_bit(&self) -> bool {
        forall|r: int, c: int| 0 <= r < 32 && 0 <= c < 64 ==> #[trigger] self.vram[r][c] <= 1
    }

    /// A text dump of the screen: one line per column, each pixel as `0` or `1`.
    pub fn to_text(&self) -> (text: String)
        requires
            self.one_bit(),
        ensures
            text@ == Seq::new((CHIP8_WIDTH * (CHIP8_HEIGHT + 1)) as nat, |k: int| text_char(self.vram, k)),
    {
        let n = CHIP8_WIDTH * (CHIP8_HEIGHT + 1);
        let mut bytes: Vec<u8> = Vec::new();
        let mut k: usize = 0;
        while k < n
            invariant
                n == 64 * 33,
                k <= n,
                bytes@.len() == k,
                forall|m: int| 0 <= m < k ==> #[trigger] bytes@[m] < 128 && bytes@[m] as char == text_char(self.vram, m),
            decreases n - k,
        {
            let i = k / (CHIP8_HEIGHT + 1);
            let j = k % (CHIP8_HEIGHT + 1);
            let b: u8 = if j == CHIP8_HEIGHT {
                0x0A // line feed
            } else if self.vram[j][i] == 1 {
                0x31
            } else {
                0x30
            };
            bytes.push(b);
            k += 1;
        }
        let ghost bs = bytes@;
        let text = ascii_string(bytes);
        assert(text@ =~= Seq::new((CHIP8_WIDTH * (CHIP8_HEIGHT + 1)) as nat, |k: int| text_char(self.vram, k)));
        text
    }
}

} // verus!
