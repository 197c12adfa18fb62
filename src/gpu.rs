//! The monochrome 64x32 display and its XOR sprite primitive.
use vstd::prelude::*;

verus! {

/// The width of the video buffer in pixels.
pub const VRAM_WIDTH: usize = 64;

/// The height of the video buffer in pixels.
pub const VRAM_HEIGHT: usize = 32;

/// A coordinate on the video buffer, as (column, row).
pub type Coordinate = (usize, usize);

/// Bit `col` of a sprite row as 0 or 1; column 0 is the most significant bit.
pub open spec fn row_bit(row: u8, col: int) -> u8 {
    if 0 <= col < 8 {
        (row >> ((7 - col) as u8)) & 1u8
    } else {
        0
    }
}

/// The sprite bit that lands on pixel (`px`, `py`) when `sprite` is drawn at
/// (`x`, `y`): both axes wrap around the screen.
pub open spec fn sprite_mask(x: int, y: int, sprite: Seq<u8>, px: int, py: int) -> u8 {
    let r = (py - y) % (VRAM_HEIGHT as int);
    let c = (px - x) % (VRAM_WIDTH as int);
    if r < sprite.len() {
        row_bit(sprite[r], c)
    } else {
        0
    }
}

/// A frame is 32 rows of 64 pixels.
pub open spec fn is_frame(f: Seq<Seq<u8>>) -> bool {
    &&& f.len() == VRAM_HEIGHT
    &&& forall|py: int| 0 <= py < VRAM_HEIGHT ==> (#[trigger] f[py]).len() == VRAM_WIDTH
}

/// The all-dark frame.
pub open spec fn blank_frame() -> Seq<Seq<u8>> {
    Seq::new(VRAM_HEIGHT as nat, |py: int| Seq::new(VRAM_WIDTH as nat, |px: int| 0u8))
}

/// The frame after `sprite` is XOR-ed onto `f` at (`x`, `y`).
pub open spec fn draw_frame(f: Seq<Seq<u8>>, x: int, y: int, sprite: Seq<u8>) -> Seq<Seq<u8>> {
    Seq::new(
        VRAM_HEIGHT as nat,
        |py: int| Seq::new(VRAM_WIDTH as nat, |px: int| f[py][px] ^ sprite_mask(x, y, sprite, px, py)),
    )
}

/// Whether drawing `sprite` onto `f` at (`x`, `y`) turns a lit pixel off: some
/// set sprite bit lands on a pixel whose value has its low bit set.
pub open spec fn draw_collides(f: Seq<Seq<u8>>, x: int, y: int, sprite: Seq<u8>) -> bool {
    exists|r: int, c: int|
        0 <= r < sprite.len() && 0 <= c < 8 && #[trigger] collides_at(f, x, y, sprite, r, c)
}

/// Whether bit `c` of row `r` of the sprite lands on a lit pixel of `f`.
pub open spec fn collides_at(f: Seq<Seq<u8>>, x: int, y: int, sprite: Seq<u8>, r: int, c: int) -> bool {
    f[(y + r) % (VRAM_HEIGHT as int)][(x + c) % (VRAM_WIDTH as int)] & row_bit(sprite[r], c) == 1
}

/// Offsets wrap: pixel `px` lies `c` columns right of `x` (mod 64) exactly when
/// it is the wrapped position of `x + c`.
proof fn lemma_wrap_offset(x: int, c: int, px: int)
    requires
        x >= 0,
        0 <= c < 64,
        0 <= px < 64,
    ensures
        ((px - x) % 64 == c) <==> (px == (x % 64 + c) % 64),
        (x % 64 + c) % 64 == (x + c) % 64,
        0 <= (px - x) % 64 < 64,
{
}

proof fn lemma_xor_zero(p: u8)
    ensures
        p ^ 0u8 == p,
{
    assert(p ^ 0u8 == p) by (bit_vector);
}

proof fn lemma_xor_twice(p: u8, m: u8)
    ensures
        (p ^ m) ^ m == p,
{
    assert((p ^ m) ^ m == p) by (bit_vector);
}

proof fn lemma_and_bit(p: u8, b: u8)
    requires
        b <= 1,
    ensures
        p & b <= 1,
{
    assert(b <= 1 ==> p & b <= 1) by (bit_vector);
}

proof fn lemma_or_bits(a: u8, b: u8)
    requires
        a <= 1,
        b <= 1,
    ensures
        a | b <= 1,
        (a | b == 1) <==> (a == 1 || b == 1),
{
    assert(a <= 1 && b <= 1 ==> a | b <= 1 && ((a | b == 1) <==> (a == 1 || b == 1))) by (bit_vector);
}

proof fn lemma_row_bit_range(row: u8, c: int)
    ensures
        row_bit(row, c) <= 1,
{
    if 0 <= c < 8 {
        let s = (7 - c) as u8;
        assert((row >> s) & 1u8 <= 1) by (bit_vector);
    }
}

/// Drawing the rows of a sprite one after another: drawing row `r` one
/// screen row further down, after rows `0..r`, is drawing rows `0..=r`, and the
/// row sees the pixels as they were before the whole sprite.
proof fn lemma_draw_next_row(f0: Seq<Seq<u8>>, x: int, y: int, s: Seq<u8>, r: int)
    requires
        is_frame(f0),
        x >= 0,
        y >= 0,
        0 <= r < s.len(),
        s.len() <= 32,
    ensures
        draw_frame(draw_frame(f0, x, y, s.take(r)), x, y % 32 + r, seq![s[r]]) == draw_frame(
            f0,
            x,
            y,
            s.take(r + 1),
        ),
        forall|c: int|
            0 <= c < 8 ==> (#[trigger] collides_at(
                draw_frame(f0, x, y, s.take(r)),
                x,
                y % 32 + r,
                seq![s[r]],
                0,
                c,
            ) <==> collides_at(f0, x, y, s, r, c)),
{
    let mid = draw_frame(f0, x, y, s.take(r));
    let lhs = draw_frame(mid, x, y % 32 + r, seq![s[r]]);
    let rhs = draw_frame(f0, x, y, s.take(r + 1));
    assert forall|px: int, py: int| 0 <= px < 64 && 0 <= py < 32 implies #[trigger] lhs[py][px]
        == rhs[py][px] by {
        let big_r = (py - y) % 32;
        assert(0 <= big_r < 32);
        assert(((py - (y % 32 + r)) % 32 == 0) <==> big_r == r);
        let m = sprite_mask(x, y, s.take(r), px, py);
        let m1 = sprite_mask(x, y, s.take(r + 1), px, py);
        let mr = sprite_mask(x, y % 32 + r, seq![s[r]], px, py);
        assert(seq![s[r]][0] == s[r]);
        assert(lhs[py][px] == mid[py][px] ^ mr);
        assert(mid[py][px] == f0[py][px] ^ m);
        assert(rhs[py][px] == f0[py][px] ^ m1);
        if big_r < r {
            assert(mr == 0);
            assert(m == m1);
            lemma_xor_zero(f0[py][px] ^ m);
        } else if big_r == r {
            assert(m == 0);
            assert(mr == m1);
            lemma_xor_zero(f0[py][px]);
        } else {
            assert(m == 0);
            assert(mr == 0);
            assert(m1 == 0);
            lemma_xor_zero(f0[py][px]);
        }
    }
    assert(lhs =~~= rhs);
    assert forall|c: int| 0 <= c < 8 implies (#[trigger] collides_at(mid, x, y % 32 + r, seq![s[r]], 0, c)
        <==> collides_at(f0, x, y, s, r, c)) by {
        let py = (y + r) % 32;
        let px = (x + c) % 64;
        assert((y % 32 + r + 0) % 32 == py);
        assert((py - y) % 32 == r);
        assert(sprite_mask(x, y, s.take(r), px, py) == 0);
        lemma_xor_zero(f0[py][px]);
        assert(mid[py][px] == f0[py][px]);
        assert(seq![s[r]][0] == s[r]);
    }
}

/// Where a set sprite bit lands, the first draw lights the pixel exactly when
/// its low bit was clear.
proof fn lemma_first_draw_lights(f: Seq<Seq<u8>>, x: int, y: int, sprite: Seq<u8>)
    requires
        is_frame(f),
        x >= 0,
        y >= 0,
        sprite.len() <= VRAM_HEIGHT,
    ensures
        forall|r: int, c: int|
            0 <= r < sprite.len() && 0 <= c < 8 && row_bit(sprite[r], c) == 1 ==> (
            #[trigger] draw_frame(f, x, y, sprite)[(y + r) % 32][(x + c) % 64] & 1 == 1 <==> f[(y
                + r) % 32][(x + c) % 64] & 1 == 0),
{
    let once = draw_frame(f, x, y, sprite);
    assert forall|r: int, c: int| 0 <= r < sprite.len() && 0 <= c < 8 && row_bit(sprite[r], c) == 1
        implies (#[trigger] once[(y + r) % 32][(x + c) % 64] & 1 == 1 <==> f[(y + r) % 32][(x + c)
        % 64] & 1 == 0) by {
        let py = (y + r) % 32;
        let px = (x + c) % 64;
        lemma_wrap_offset(x, c, px);
        assert((py - y) % 32 == r);
        assert(sprite_mask(x, y, sprite, px, py) == row_bit(sprite[r], c));
        let p = f[py][px];
        assert(once[py][px] == p ^ 1u8);
        assert((p ^ 1u8) & 1u8 == 1 <==> p & 1u8 == 0) by (bit_vector);
    }
}

/// Drawing the same sprite twice at the same place leaves the frame as it
/// was, and the second draw reports a collision exactly when some set sprite
/// bit lands on a pixel that the first draw left lit: one whose low bit was
/// clear before the first draw.
pub proof fn lemma_draw_twice_restores(f: Seq<Seq<u8>>, x: int, y: int, sprite: Seq<u8>)
    requires
        is_frame(f),
        x >= 0,
        y >= 0,
        sprite.len() <= VRAM_HEIGHT,
    ensures
        draw_frame(draw_frame(f, x, y, sprite), x, y, sprite) == f,
        draw_collides(draw_frame(f, x, y, sprite), x, y, sprite) <==> exists|r: int, c: int|
            0 <= r < sprite.len() && 0 <= c < 8 && row_bit(sprite[r], c) == 1
                && #[trigger] draw_frame(f, x, y, sprite)[(y + r) % 32][(x + c) % 64] & 1 == 1,
        draw_collides(draw_frame(f, x, y, sprite), x, y, sprite) <==> exists|r: int, c: int|
            0 <= r < sprite.len() && 0 <= c < 8 && row_bit(sprite[r], c) == 1
                && #[trigger] f[(y + r) % 32][(x + c) % 64] & 1 == 0,
{
    let once = draw_frame(f, x, y, sprite);
    let twice = draw_frame(once, x, y, sprite);
    assert forall|px: int, py: int| 0 <= px < 64 && 0 <= py < 32 implies #[trigger] twice[py][px]
        == f[py][px] by {
        lemma_xor_twice(f[py][px], sprite_mask(x, y, sprite, px, py));
    }
    assert(twice =~~= f);
    assert forall|r: int, c: int| 0 <= r < sprite.len() && 0 <= c < 8 implies #[trigger] collides_at(
        once,
        x,
        y,
        sprite,
        r,
        c,
    ) <==> (row_bit(sprite[r], c) == 1 && once[(y + r) % 32][(x + c) % 64] & 1 == 1) by {
        let p = once[(y + r) % 32][(x + c) % 64];
        let b = row_bit(sprite[r], c);
        lemma_row_bit_range(sprite[r], c);
        assert(b <= 1 ==> ((p & b == 1) <==> (b == 1 && p & 1 == 1))) by (bit_vector);
    }
    if draw_collides(once, x, y, sprite) {
        let (r, c) = choose|r: int, c: int|
            0 <= r < sprite.len() && 0 <= c < 8 && #[trigger] collides_at(once, x, y, sprite, r, c);
        assert(once[(y + r) % 32][(x + c) % 64] & 1 == 1);
    }
    if exists|r: int, c: int|
        0 <= r < sprite.len() && 0 <= c < 8 && row_bit(sprite[r], c) == 1
            && #[trigger] once[(y + r) % 32][(x + c) % 64] & 1 == 1 {
        let (r, c) = choose|r: int, c: int|
            0 <= r < sprite.len() && 0 <= c < 8 && row_bit(sprite[r], c) == 1
                && #[trigger] once[(y + r) % 32][(x + c) % 64] & 1 == 1;
        assert(collides_at(once, x, y, sprite, r, c));
    }
    lemma_first_draw_lights(f, x, y, sprite);
    if exists|r: int, c: int|
        0 <= r < sprite.len() && 0 <= c < 8 && row_bit(sprite[r], c) == 1
            && #[trigger] f[(y + r) % 32][(x + c) % 64] & 1 == 0 {
        let (r, c) = choose|r: int, c: int|
            0 <= r < sprite.len() && 0 <= c < 8 && row_bit(sprite[r], c) == 1
                && #[trigger] f[(y + r) % 32][(x + c) % 64] & 1 == 0;
        assert(once[(y + r) % 32][(x + c) % 64] & 1 == 1);
    }
    if draw_collides(once, x, y, sprite) {
        let (r, c) = choose|r: int, c: int|
            0 <= r < sprite.len() && 0 <= c < 8 && row_bit(sprite[r], c) == 1
                && #[trigger] once[(y + r) % 32][(x + c) % 64] & 1 == 1;
        assert(f[(y + r) % 32][(x + c) % 64] & 1 == 0);
    }
}

/// The graphics processing unit: owns the monochrome pixel grid.
pub struct GPU {
    /// The video buffer, one byte per pixel, indexed `[row][column]`.
    pub video_buffer: [[u8; VRAM_WIDTH]; VRAM_HEIGHT],
}

impl View for GPU {
    type V = Seq<Seq<u8>>;

    /// The frame as rows of pixels.
    open spec fn view(&self) -> Seq<Seq<u8>> {
        Seq::new(VRAM_HEIGHT as nat, |py: int| self.video_buffer[py]@)
    }
}

impl GPU {
    /// Creates a display with every pixel off.
    pub fn new() -> (g: GPU)
        ensures
            g@ == blank_frame(),
    {
        let g = GPU { video_buffer: [[0u8; VRAM_WIDTH]; VRAM_HEIGHT] };
        assert(g@ =~~= blank_frame());
        g
    }

    /// XORs `value` into the pixel at `coords` and returns the old pixel ANDed
    /// with `value`: nonzero exactly when a set bit of `value` met a set bit.
    pub fn xor_pixel(&mut self, coords: Coordinate, value: u8) -> (collision: u8)
        requires
            coords.0 < VRAM_WIDTH,
            coords.1 < VRAM_HEIGHT,
        ensures
            final(self)@ == old(self)@.update(
                coords.1 as int,
                old(self)@[coords.1 as int].update(
                    coords.0 as int,
                    old(self)@[coords.1 as int][coords.0 as int] ^ value,
                ),
            ),
            collision == old(self)@[coords.1 as int][coords.0 as int] & value,
    {
        let (x, y) = coords;
        let mut line = self.video_buffer[y];
        let collision = line[x] & value;
        line[x] = line[x] ^ value;
        self.video_buffer[y] = line;
        assert(self@ =~~= old(self)@.update(
            y as int,
            old(self)@[y as int].update(x as int, old(self)@[y as int][x as int] ^ value),
        ));
        collision
    }

    /// Draws one 8-pixel sprite row at `coords`, most significant bit leftmost,
    /// wrapping both coordinates around the screen. Returns 1 when a lit pixel
    /// was turned off, else 0.
    pub fn draw_sprite_row(&mut self, coords: Coordinate, row: u8) -> (collision: u8)
        ensures
            final(self)@ == draw_frame(old(self)@, coords.0 as int, coords.1 as int, seq![row]),
            collision == (if draw_collides(old(self)@, coords.0 as int, coords.1 as int, seq![row]) {
                1u8
            } else {
                0u8
            }),
    {
        let ghost f0 = self@;
        let ghost x = coords.0 as int;
        let ghost y = coords.1 as int;
        let ghost sprite = seq![row];
        let mut collision: u8 = 0;
        let wrapped_y = coords.1 % VRAM_HEIGHT;
        let base_x = coords.0 % VRAM_WIDTH;
        let mut c: usize = 0;
        assert forall|px: int, py: int| 0 <= px < 64 && 0 <= py < 32 implies #[trigger] self@[py][px]
            == f0[py][px] ^ (if py == wrapped_y && (px - x) % 64 < c {
            row_bit(row, (px - x) % 64)
        } else {
            0u8
        }) by {
            lemma_xor_zero(f0[py][px]);
        }
        while c < 8
            invariant
                c <= 8,
                x == coords.0 as int,
                y == coords.1 as int,
                f0 == old(self)@,
                sprite == seq![row],
                is_frame(f0),
                wrapped_y == y % 32,
                base_x == x % 64,
                is_frame(self@),
                forall|px: int, py: int|
                    0 <= px < 64 && 0 <= py < 32 ==> #[trigger] self@[py][px] == f0[py][px] ^ (
                    if py == wrapped_y && (px - x) % 64 < c {
                        row_bit(row, (px - x) % 64)
                    } else {
                        0u8
                    }),
                collision <= 1,
                collision == 1 <==> exists|c2: int|
                    0 <= c2 < c && #[trigger] collides_at(f0, x, y, sprite, 0, c2),
            decreases 8 - c,
        {
            let wrapped_x = (base_x + c) % VRAM_WIDTH;
            let bit = (row >> (7 - c as u8)) & 1;
            proof {
                lemma_wrap_offset(x, c as int, wrapped_x as int);
                assert(bit == row_bit(row, c as int));
                lemma_row_bit_range(row, c as int);
            }
            let ghost before = self@;
            let hit = self.xor_pixel((wrapped_x, wrapped_y), bit);
            proof {
                let p = f0[wrapped_y as int][wrapped_x as int];
                assert(before[wrapped_y as int][wrapped_x as int] == p) by {
                    lemma_xor_zero(p);
                }
                lemma_and_bit(p, bit);
                lemma_or_bits(collision, hit);
                assert((x + c) % 64 == wrapped_x);
                assert(sprite[0] == row);
                assert((y + 0) % 32 == wrapped_y);
                assert(collides_at(f0, x, y, sprite, 0, c as int) <==> hit == 1);
                assert forall|px: int, py: int| 0 <= px < 64 && 0 <= py < 32 implies #[trigger] self@[py][px]
                    == f0[py][px] ^ (if py == wrapped_y && (px - x) % 64 < c + 1 {
                    row_bit(row, (px - x) % 64)
                } else {
                    0u8
                }) by {
                    lemma_wrap_offset(x, c as int, px);
                    if py == wrapped_y && px == wrapped_x {
                        lemma_xor_zero(f0[py][px]);
                    }
                }
            }
            collision = collision | hit;
            c += 1;
        }
        proof {
            assert forall|px: int, py: int| 0 <= px < 64 && 0 <= py < 32 implies #[trigger] self@[py][px]
                == draw_frame(f0, x, y, sprite)[py][px] by {
                lemma_wrap_offset(y, 0, py);
                lemma_row_bit_range(row, (px - x) % 64);
            }
            assert(self@ =~~= draw_frame(f0, x, y, sprite));
            if draw_collides(f0, x, y, sprite) {
                let (r, c2) = choose|r: int, c2: int|
                    0 <= r < sprite.len() && 0 <= c2 < 8 && #[trigger] collides_at(f0, x, y, sprite, r, c2);
                assert(r == 0);
                assert(collides_at(f0, x, y, sprite, 0, c2));
            }
        }
        collision
    }

    /// Turns every pixel off.
    pub fn clear(&mut self)
        ensures
            final(self)@ == blank_frame(),
    {
        self.video_buffer = [[0u8; VRAM_WIDTH]; VRAM_HEIGHT];
        assert(self@ =~~= blank_frame());
    }

    /// Resets the display to its just-created state: every pixel off.
    pub fn reset(&mut self)
        ensures
            final(self)@ == blank_frame(),
    {
        self.clear();
    }

    /// Draws `sprite`, one byte per row, with its top-left corner at `coords`;
    /// both axes wrap around the screen. Returns 1 when a lit pixel was turned
    /// off, else 0.
    pub fn draw_sprite(&mut self, coords: Coordinate, sprite: Vec<u8>) -> (collision: u8)
        requires
            sprite@.len() <= 15,
        ensures
            final(self)@ == draw_frame(old(self)@, coords.0 as int, coords.1 as int, sprite@),
            collision == (if draw_collides(old(self)@, coords.0 as int, coords.1 as int, sprite@) {
                1u8
            } else {
                0u8
            }),
    {
        let ghost f0 = self@;
        let ghost x = coords.0 as int;
        let ghost y = coords.1 as int;
        let top = coords.1 % VRAM_HEIGHT;
        let mut collision: u8 = 0;
        let mut r: usize = 0;
        assert(sprite@.take(0) =~= Seq::<u8>::empty());
        assert forall|px: int, py: int| 0 <= px < 64 && 0 <= py < 32 implies #[trigger] self@[py][px]
            == draw_frame(f0, x, y, sprite@.take(0))[py][px] by {
            lemma_xor_zero(f0[py][px]);
        }
        assert(self@ =~~= draw_frame(f0, x, y, sprite@.take(0)));
        while r < sprite.len()
            invariant
                r <= sprite@.len() <= 15,
                x == coords.0 as int,
                y == coords.1 as int,
                top == y % 32,
                f0 == old(self)@,
                is_frame(f0),
                self@ == draw_frame(f0, x, y, sprite@.take(r as int)),
                collision <= 1,
                collision == 1 <==> exists|r2: int, c: int|
                    0 <= r2 < r && 0 <= c < 8 && #[trigger] collides_at(f0, x, y, sprite@, r2, c),
            decreases sprite@.len() - r,
        {
            let ghost before = self@;
            let hit = self.draw_sprite_row((coords.0, top + r), sprite[r]);
            proof {
                lemma_draw_next_row(f0, x, y, sprite@, r as int);
                lemma_or_bits(collision, hit);
                if hit == 1 {
                    let (r2, c) = choose|r2: int, c: int|
                        0 <= r2 < 1 && 0 <= c < 8 && #[trigger] collides_at(
                            before,
                            x,
                            top + r,
                            seq![sprite@[r as int]],
                            r2,
                            c,
                        );
                    assert(r2 == 0);
                    assert(collides_at(f0, x, y, sprite@, r as int, c));
                }
                if exists|c: int| 0 <= c < 8 && #[trigger] collides_at(f0, x, y, sprite@, r as int, c) {
                    let c = choose|c: int| 0 <= c < 8 && #[trigger] collides_at(f0, x, y, sprite@, r as int, c);
                    assert(collides_at(before, x, top + r, seq![sprite@[r as int]], 0, c));
                }
            }
            collision = collision | hit;
            r += 1;
        }
        assert(sprite@.take(r as int) =~= sprite@);
        collision
    }
}

} // verus!
