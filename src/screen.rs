use vstd::prelude::*;

verus! {

/// Display width in pixels.
pub const WIDTH: usize = 64;
/// Display height in pixels.
pub const HEIGHT: usize = 32;
/// Bytes per display row: eight pixels to a byte, most significant bit leftmost.
pub const ROW_BYTES: usize = 8;
/// Bytes in the framebuffer.
pub const BUFFER_LEN: usize = 256;

/// A pixel coordinate that lies off the display.
#[derive(Debug, Clone, Copy, PartialEq, Eq, Structural)]
pub struct ScreenError(pub usize, pub usize);

/// What a sprite row `val` drawn at pixel column `x` (below the width)
/// contributes to byte column `c` of its display row. The eight pixels
/// straddle two byte columns when `x` is not a multiple of eight; the second
/// column wraps around to the left edge.
pub open spec fn row_mask(val: u8, x: int, c: int) -> u8 {
    let s = (x % 8) as u8;
    let c0 = x / 8;
    if c == c0 {
        val >> s
    } else if c == (c0 + 1) % 8 && s != 0 {
        val << ((8 - s) as u8)
    } else {
        0
    }
}

/// The framebuffer `buf` with sprite row `val` XOR-ed into display row `row`.
#[verifier::opaque]
pub open spec fn xor_row(buf: Seq<u8>, val: u8, x: int, row: int) -> Seq<u8> {
    Seq::new(
        buf.len(),
        |k: int|
            if row * 8 <= k < row * 8 + 8 {
                buf[k] ^ row_mask(val, x, k - row * 8)
            } else {
                buf[k]
            },
    )
}

/// Whether XOR-ing sprite row `val` into display row `row` turns off a lit pixel.
#[verifier::opaque]
pub open spec fn row_collides(buf: Seq<u8>, val: u8, x: int, row: int) -> bool {
    exists|c: int| 0 <= c < 8 && #[trigger] (buf[row * 8 + c] & row_mask(val, x, c)) != 0
}

/// The display row that row `i` of a sprite drawn at row `y` lands on.
pub open spec fn target_row(y: int, i: int) -> int {
    (y + i) % (HEIGHT as int)
}

/// The framebuffer after drawing `sprite` (one byte per row) with its top-left
/// pixel at (`x`, `y`), rows wrapping around the bottom edge.
pub open spec fn drawn(buf: Seq<u8>, sprite: Seq<u8>, x: int, y: int) -> Seq<u8>
    decreases sprite.len(),
{
    if sprite.len() == 0 {
        buf
    } else {
        xor_row(
            drawn(buf, sprite.drop_last(), x, y),
            sprite.last(),
            x,
            target_row(y, sprite.len() - 1),
        )
    }
}

/// Whether drawing `sprite` at (`x`, `y`) turns off any lit pixel.
pub open spec fn collides(buf: Seq<u8>, sprite: Seq<u8>, x: int, y: int) -> bool
    decreases sprite.len(),
{
    if sprite.len() == 0 {
        false
    } else {
        collides(buf, sprite.drop_last(), x, y) || row_collides(
            drawn(buf, sprite.drop_last(), x, y),
            sprite.last(),
            x,
            target_row(y, sprite.len() - 1),
        )
    }
}

/// The header of a binary PBM image of the display: the binary-bitmap magic
/// number, the width and height in decimal, and a newline.
pub open spec fn pbm_header() -> Seq<u8> {
    seq![0x50u8, 0x34, 0x20, 0x36, 0x34, 0x20, 0x33, 0x32, 0x0A]
}

/// A framebuffer as a binary PBM image: the header, then every byte inverted,
/// since the format marks dark pixels with 1.
pub open spec fn pbm_of(buf: Seq<u8>) -> Seq<u8> {
    pbm_header() + Seq::new(buf.len(), |k: int| !buf[k])
}

/// The 1-bit-per-pixel framebuffer, row-major, eight pixels to a byte.
#[derive(Debug)]
pub struct Screen {
    buf: Vec<u8>,
}

impl View for Screen {
    type V = Seq<u8>;

    closed spec fn view(&self) -> Seq<u8> {
        self.buf@
    }
}

/// A framebuffer with every pixel off.
pub fn blank_buffer() -> (r: Vec<u8>)
    ensures
        r@.len() == BUFFER_LEN,
        forall|k: int| 0 <= k < BUFFER_LEN ==> #[trigger] r@[k] == 0,
{
    let mut r: Vec<u8> = Vec::new();
    let mut n: usize = 0;
    while n < BUFFER_LEN
        invariant
            n <= BUFFER_LEN,
            r@.len() == n,
            forall|k: int| 0 <= k < n ==> #[trigger] r@[k] == 0,
        decreases BUFFER_LEN - n,
    {
        r.push(0);
        n = n + 1;
    }
    r
}

proof fn lemma_byte_zero(b: u8)
    ensures
        b ^ 0u8 == b,
        0u8 ^ b == b,
        b & 0u8 == 0u8,
{
    assert(b ^ 0u8 == b && 0u8 ^ b == b && b & 0u8 == 0u8) by (bit_vector);
}

proof fn lemma_byte_xor_cancel(b: u8, m: u8, n: u8)
    ensures
        (b ^ m) ^ m == b,
        (b ^ m) ^ n == b ^ (m ^ n),
{
    assert((b ^ m) ^ m == b) by (bit_vector);
    assert((b ^ m) ^ n == b ^ (m ^ n)) by (bit_vector);
}

/// The XOR of every sprite-row contribution that drawing `sprite` at (`x`, `y`)
/// makes to framebuffer byte `k`.
pub open spec fn sprite_mask(sprite: Seq<u8>, x: int, y: int, k: int) -> u8
    decreases sprite.len(),
{
    if sprite.len() == 0 {
        0
    } else {
        let row = target_row(y, sprite.len() - 1);
        let m = if row * 8 <= k < row * 8 + 8 {
            row_mask(sprite.last(), x, k - row * 8)
        } else {
            0
        };
        sprite_mask(sprite.drop_last(), x, y, k) ^ m
    }
}

/// Drawing a sprite XORs each framebuffer byte with a mask that depends on the
/// sprite and its position alone.
pub proof fn lemma_drawn_is_mask(buf: Seq<u8>, sprite: Seq<u8>, x: int, y: int)
    ensures
        drawn(buf, sprite, x, y).len() == buf.len(),
        forall|k: int|
            0 <= k < buf.len() ==> #[trigger] drawn(buf, sprite, x, y)[k] == buf[k] ^ sprite_mask(
                sprite,
                x,
                y,
                k,
            ),
    decreases sprite.len(),
{
    reveal(xor_row);
    if sprite.len() == 0 {
        assert forall|k: int| 0 <= k < buf.len() implies #[trigger] drawn(buf, sprite, x, y)[k]
            == buf[k] ^ sprite_mask(sprite, x, y, k) by {
            lemma_byte_zero(buf[k]);
        }
    } else {
        lemma_drawn_is_mask(buf, sprite.drop_last(), x, y);
        let row = target_row(y, sprite.len() - 1);
        assert forall|k: int| 0 <= k < buf.len() implies #[trigger] drawn(buf, sprite, x, y)[k]
            == buf[k] ^ sprite_mask(sprite, x, y, k) by {
            let m = if row * 8 <= k < row * 8 + 8 {
                row_mask(sprite.last(), x, k - row * 8)
            } else {
                0
            };
            lemma_byte_zero(buf[k] ^ sprite_mask(sprite.drop_last(), x, y, k));
            lemma_byte_xor_cancel(buf[k], sprite_mask(sprite.drop_last(), x, y, k), m);
        }
    }
}

/// Drawing the same sprite twice at the same place leaves the framebuffer as
/// it was: XOR drawing is its own inverse.
pub proof fn lemma_draw_twice_restores(buf: Seq<u8>, sprite: Seq<u8>, x: int, y: int)
    ensures
        drawn(drawn(buf, sprite, x, y), sprite, x, y) == buf,
{
    let once = drawn(buf, sprite, x, y);
    lemma_drawn_is_mask(buf, sprite, x, y);
    lemma_drawn_is_mask(once, sprite, x, y);
    assert forall|k: int| 0 <= k < buf.len() implies #[trigger] drawn(once, sprite, x, y)[k]
        == buf[k] by {
        lemma_byte_xor_cancel(buf[k], sprite_mask(sprite, x, y, k), 0);
    }
    assert(drawn(once, sprite, x, y) =~= buf);
}

/// No row of `sprite` lands on display row `r`: its mask at a byte of row `r` is 0.
proof fn lemma_sprite_mask_off_rows(sprite: Seq<u8>, x: int, y: int, r: int, c: int)
    requires
        0 <= c < 8,
        forall|j: int| 0 <= j < sprite.len() ==> #[trigger] target_row(y, j) != r,
    ensures
        sprite_mask(sprite, x, y, r * 8 + c) == 0,
    decreases sprite.len(),
{
    if sprite.len() > 0 {
        let last = sprite.len() - 1;
        assert(target_row(y, last) != r);
        assert forall|j: int| 0 <= j < sprite.drop_last().len() implies #[trigger] target_row(y, j)
            != r by {
            assert(target_row(y, j) != r);
        }
        lemma_sprite_mask_off_rows(sprite.drop_last(), x, y, r, c);
        let row = target_row(y, last);
        assert(!(row * 8 <= r * 8 + c < row * 8 + 8)) by (nonlinear_arith)
            requires
                row != r,
                0 <= c < 8,
        ;
        lemma_byte_zero(0u8);
    }
}

/// Two rows of a sprite no taller than the display land on different rows.
proof fn lemma_target_rows_differ(y: int, i: int, j: int)
    requires
        0 <= y,
        0 <= i < j < HEIGHT,
    ensures
        target_row(y, i) != target_row(y, j),
{
}

/// The mask at byte `c` of the display row that sprite row `i` lands on is
/// that row's own contribution, when the sprite is no taller than the display.
proof fn lemma_sprite_mask_on_row(sprite: Seq<u8>, x: int, y: int, i: int, c: int)
    requires
        0 <= y,
        sprite.len() <= HEIGHT,
        0 <= i < sprite.len(),
        0 <= c < 8,
    ensures
        sprite_mask(sprite, x, y, target_row(y, i) * 8 + c) == row_mask(sprite[i], x, c),
    decreases sprite.len(),
{
    let r = target_row(y, i);
    let last = sprite.len() - 1;
    let k = r * 8 + c;
    if i == last {
        assert forall|j: int| 0 <= j < sprite.drop_last().len() implies #[trigger] target_row(y, j)
            != r by {
            lemma_target_rows_differ(y, j, i);
        }
        lemma_sprite_mask_off_rows(sprite.drop_last(), x, y, r, c);
        lemma_byte_zero(row_mask(sprite[i], x, c));
        assert(k - r * 8 == c);
    } else {
        lemma_sprite_mask_on_row(sprite.drop_last(), x, y, i, c);
        lemma_target_rows_differ(y, i, last);
        let row = target_row(y, last);
        assert(!(row * 8 <= k < row * 8 + 8)) by (nonlinear_arith)
            requires
                row != r,
                k == r * 8 + c,
                0 <= c < 8,
        ;
        lemma_byte_zero(row_mask(sprite[i], x, c));
    }
}

/// Row `i` of a sprite no taller than the display is XOR-ed into display row
/// `(y + i) mod height`, wrapping past the bottom edge, and its eight pixels
/// go into the byte columns that `row_mask` gives: from `x / 8` on, the
/// second column wrapping to the left edge when `x` is not a multiple of 8.
pub proof fn lemma_sprite_rows_wrap(buf: Seq<u8>, sprite: Seq<u8>, x: int, y: int, i: int, c: int)
    requires
        buf.len() == BUFFER_LEN,
        0 <= y < HEIGHT,
        sprite.len() <= HEIGHT,
        0 <= i < sprite.len(),
        0 <= c < 8,
    ensures
        drawn(buf, sprite, x, y)[((y + i) % 32) * 8 + c] == buf[((y + i) % 32) * 8 + c] ^ row_mask(
            sprite[i],
            x,
            c,
        ),
{
    let k = target_row(y, i) * 8 + c;
    assert(0 <= k < BUFFER_LEN) by (nonlinear_arith)
        requires
            k == target_row(y, i) * 8 + c,
            0 <= target_row(y, i) < 32,
            0 <= c < 8,
    ;
    lemma_drawn_is_mask(buf, sprite, x, y);
    lemma_sprite_mask_on_row(sprite, x, y, i, c);
}

/// Drawing the rows above row `i` leaves the display row that row `i` lands
/// on untouched, when the sprite is no taller than the display.
proof fn lemma_earlier_rows_leave_row(buf: Seq<u8>, sprite: Seq<u8>, x: int, y: int, i: int)
    requires
        buf.len() == BUFFER_LEN,
        0 <= y < HEIGHT,
        sprite.len() <= HEIGHT,
        0 <= i < sprite.len(),
    ensures
        row_collides(drawn(buf, sprite.take(i), x, y), sprite[i], x, target_row(y, i))
            == row_collides(buf, sprite[i], x, target_row(y, i)),
{
    reveal(row_collides);
    let r = target_row(y, i);
    let pre = sprite.take(i);
    lemma_drawn_is_mask(buf, pre, x, y);
    assert forall|c: int| 0 <= c < 8 implies #[trigger] drawn(buf, pre, x, y)[r * 8 + c] == buf[r * 8 + c] by {
        assert forall|j: int| 0 <= j < pre.len() implies #[trigger] target_row(y, j) != r by {
            lemma_target_rows_differ(y, j, i);
        }
        lemma_sprite_mask_off_rows(pre, x, y, r, c);
        assert(0 <= r * 8 + c < BUFFER_LEN) by (nonlinear_arith)
            requires
                0 <= r < 32,
                0 <= c < 8,
        ;
        lemma_byte_zero(buf[r * 8 + c]);
    }
    let d = drawn(buf, pre, x, y);
    let v = sprite[i];
    if row_collides(d, v, x, r) {
        let c = choose|c: int| 0 <= c < 8 && #[trigger] (d[r * 8 + c] & row_mask(v, x, c)) != 0;
        assert((buf[r * 8 + c] & row_mask(v, x, c)) != 0);
    }
    if row_collides(buf, v, x, r) {
        let c = choose|c: int| 0 <= c < 8 && #[trigger] (buf[r * 8 + c] & row_mask(v, x, c)) != 0;
        assert((d[r * 8 + c] & row_mask(v, x, c)) != 0);
    }
}

/// Whether some row of `sprite`, XOR-ed straight into `buf`, meets a lit pixel.
pub open spec fn any_row_collides(buf: Seq<u8>, sprite: Seq<u8>, x: int, y: int) -> bool {
    exists|i: int| 0 <= i < sprite.len() && #[trigger] row_collides(buf, sprite[i], x, target_row(y, i))
}

/// For a sprite no taller than the display, the collision flag is whether
/// any of its rows meets a pixel lit before the draw.
proof fn lemma_collides_any_row(buf: Seq<u8>, sprite: Seq<u8>, x: int, y: int)
    requires
        buf.len() == BUFFER_LEN,
        0 <= y < HEIGHT,
        sprite.len() <= HEIGHT,
    ensures
        collides(buf, sprite, x, y) == any_row_collides(buf, sprite, x, y),
    decreases sprite.len(),
{
    if sprite.len() > 0 {
        let pre = sprite.drop_last();
        let last = sprite.len() - 1;
        lemma_collides_any_row(buf, pre, x, y);
        assert(sprite.take(last) =~= pre);
        lemma_earlier_rows_leave_row(buf, sprite, x, y, last);
        if any_row_collides(buf, pre, x, y) {
            let i = choose|i: int| 0 <= i < pre.len() && #[trigger] row_collides(buf, pre[i], x, target_row(y, i));
            assert(row_collides(buf, sprite[i], x, target_row(y, i)));
        }
        if any_row_collides(buf, sprite, x, y) {
            let i = choose|i: int| 0 <= i < sprite.len() && #[trigger] row_collides(buf, sprite[i], x, target_row(y, i));
            if i < last {
                assert(row_collides(buf, pre[i], x, target_row(y, i)));
            }
        }
    }
}

/// A sprite pixel that drawing `sprite` at (`x`, `y`) plots over a dark pixel of `buf`.
pub open spec fn lights_dark_pixel(buf: Seq<u8>, sprite: Seq<u8>, x: int, y: int) -> bool {
    exists|i: int, c: int|
        0 <= i < sprite.len() && 0 <= c < 8 && (!buf[target_row(y, i) * 8 + c] & #[trigger] row_mask(
            sprite[i],
            x,
            c,
        )) != 0
}

/// Drawing a sprite no taller than the display a second time at the same
/// place reports a collision exactly when the first draw lit some pixel:
/// a set sprite bit that fell on a pixel dark before both draws.
pub proof fn lemma_second_draw_collision(buf: Seq<u8>, sprite: Seq<u8>, x: int, y: int)
    requires
        buf.len() == BUFFER_LEN,
        0 <= y < HEIGHT,
        sprite.len() <= HEIGHT,
    ensures
        collides(drawn(buf, sprite, x, y), sprite, x, y) == lights_dark_pixel(buf, sprite, x, y),
{
    reveal(row_collides);
    let once = drawn(buf, sprite, x, y);
    lemma_drawn_is_mask(buf, sprite, x, y);
    lemma_collides_any_row(once, sprite, x, y);
    assert forall|i: int, c: int| 0 <= i < sprite.len() && 0 <= c < 8 implies (#[trigger] (once[target_row(
        y,
        i,
    ) * 8 + c] & row_mask(sprite[i], x, c)) != 0) == ((!buf[target_row(y, i) * 8 + c] & row_mask(
        sprite[i],
        x,
        c,
    )) != 0) by {
        lemma_sprite_rows_wrap(buf, sprite, x, y, i, c);
        let b = buf[target_row(y, i) * 8 + c];
        let m = row_mask(sprite[i], x, c);
        assert((((b ^ m) & m) != 0) == ((!b & m) != 0)) by (bit_vector);
    }
    if lights_dark_pixel(buf, sprite, x, y) {
        let (i, c) = choose|i: int, c: int|
            0 <= i < sprite.len() && 0 <= c < 8 && (!buf[target_row(y, i) * 8 + c] & #[trigger] row_mask(
                sprite[i],
                x,
                c,
            )) != 0;
        assert((once[target_row(y, i) * 8 + c] & row_mask(sprite[i], x, c)) != 0);
        assert(row_collides(once, sprite[i], x, target_row(y, i)));
    }
    if any_row_collides(once, sprite, x, y) {
        let i = choose|i: int| 0 <= i < sprite.len() && #[trigger] row_collides(once, sprite[i], x, target_row(y, i));
        let c = choose|c: int| 0 <= c < 8 && #[trigger] (once[target_row(y, i) * 8 + c] & row_mask(sprite[i], x, c)) != 0;
        assert((!buf[target_row(y, i) * 8 + c] & row_mask(sprite[i], x, c)) != 0);
    }
}

/// Drawing a sprite no taller than the display on a blank display, as after
/// a clear, reports no collision.
pub proof fn lemma_no_collision_on_blank(buf: Seq<u8>, sprite: Seq<u8>, x: int, y: int)
    requires
        buf.len() == BUFFER_LEN,
        forall|k: int| 0 <= k < BUFFER_LEN ==> #[trigger] buf[k] == 0,
        0 <= y < HEIGHT,
        sprite.len() <= HEIGHT,
    ensures
        !collides(buf, sprite, x, y),
{
    reveal(row_collides);
    lemma_collides_any_row(buf, sprite, x, y);
    if any_row_collides(buf, sprite, x, y) {
        let i = choose|i: int| 0 <= i < sprite.len() && #[trigger] row_collides(buf, sprite[i], x, target_row(y, i));
        let r = target_row(y, i);
        let c = choose|c: int| 0 <= c < 8 && #[trigger] (buf[r * 8 + c] & row_mask(sprite[i], x, c)) != 0;
        assert(0 <= r * 8 + c < BUFFER_LEN) by (nonlinear_arith)
            requires
                0 <= r < 32,
                0 <= c < 8,
        ;
        let m = row_mask(sprite[i], x, c);
        assert((0u8 & m) == 0) by (bit_vector);
    }
}

impl Screen {
    pub open spec fn wf(&self) -> bool {
        self@.len() == BUFFER_LEN
    }

    /// A display with every pixel off.
    pub fn new() -> (s: Screen)
        ensures
            s.wf(),
            forall|k: int| 0 <= k < BUFFER_LEN ==> #[trigger] s@[k] == 0,
    {
        Screen { buf: blank_buffer() }
    }

    /// Index of the byte that holds pixel (`x`, `y`), or `None` off the display.
    fn fix_index(x: u8, y: u8) -> (r: Option<usize>)
        ensures
            x < WIDTH && y < HEIGHT ==> r == Some((x / 8 + y * 8) as usize),
            !(x < WIDTH && y < HEIGHT) ==> r is None,
    {
        if x as usize >= WIDTH || y as usize >= HEIGHT {
            None
        } else {
            Some(x as usize / 8 + y as usize * ROW_BYTES)
        }
    }

    /// XORs sprite row `val` into display row `row` at pixel column `x`,
    /// reporting whether a lit pixel went off.
    fn xor_sprite_row(&mut self, val: u8, x: u8, row: u8) -> (hit: bool)
        requires
            old(self).wf(),
            x < WIDTH,
            row < HEIGHT,
        ensures
            final(self).wf(),
            final(self)@ == xor_row(old(self)@, val, x as int, row as int),
            hit == row_collides(old(self)@, val, x as int, row as int),
    {
        reveal(xor_row);
        reveal(row_collides);
        let ghost b = self@;
        let s: u8 = x % 8;
        let c0: usize = x as usize / 8;
        let k0: usize = match Self::fix_index(x, row) {
            Some(k) => k,
            None => 0,
        };
        let m0: u8 = val >> s;
        let old0: u8 = self.buf[k0];
        let mut hit = old0 & m0 != 0;
        self.buf.set(k0, old0 ^ m0);
        let ghost c1 = (c0 + 1) % 8;
        if s != 0 {
            let x1: u8 = (x + 8) % 64;
            let k1: usize = match Self::fix_index(x1, row) {
                Some(k) => k,
                None => 0,
            };
            assert(k1 == row * 8 + c1);
            let m1: u8 = val << (8 - s);
            let old1: u8 = self.buf[k1];
            hit = hit || old1 & m1 != 0;
            self.buf.set(k1, old1 ^ m1);
        }
        assert forall|k: int| 0 <= k < b.len() implies #[trigger] self@[k] == xor_row(b, val, x as int, row as int)[k] by {
            lemma_byte_zero(b[k]);
        }
        assert(self@ =~= xor_row(b, val, x as int, row as int));
        if hit {
            if old0 & m0 != 0 {
                assert(b[row * 8 + c0] & row_mask(val, x as int, c0 as int) != 0);
            } else {
                assert(b[row * 8 + c1] & row_mask(val, x as int, c1) != 0);
            }
        } else {
            assert forall|c: int| 0 <= c < 8 implies #[trigger] (b[row * 8 + c] & row_mask(val, x as int, c)) == 0 by {
                lemma_byte_zero(b[row * 8 + c]);
            }
        }
        hit
    }

    /// XOR-draws `sprite`, one byte per row with the leftmost pixel in the
    /// most significant bit, at (`x` mod width, `y` mod height). Pixels past
    /// the right or bottom edge wrap to the opposite edge. Returns whether any
    /// lit pixel was turned off.
    pub fn print_sprite(&mut self, sprite: &[u8], x: u8, y: u8) -> (hit: bool)
        requires
            old(self).wf(),
        ensures
            final(self).wf(),
            final(self)@ == drawn(old(self)@, sprite@, (x % 64) as int, (y % 32) as int),
            hit == collides(old(self)@, sprite@, (x % 64) as int, (y % 32) as int),
    {
        let ghost b = self@;
        let x: u8 = x % 64;
        let y: u8 = y % 32;
        let mut hit = false;
        let mut row: u8 = y;
        let mut i: usize = 0;
        while i < sprite.len()
            invariant
                self.wf(),
                i <= sprite@.len(),
                x < WIDTH,
                y < HEIGHT,
                row == target_row(y as int, i as int),
                self@ == drawn(b, sprite@.take(i as int), x as int, y as int),
                hit == collides(b, sprite@.take(i as int), x as int, y as int),
            decreases sprite@.len() - i,
        {
            let ghost before = self@;
            let h = self.xor_sprite_row(sprite[i], x, row);
            hit = hit || h;
            proof {
                let t = sprite@.take(i + 1);
                assert(t.drop_last() =~= sprite@.take(i as int));
                assert(t.last() == sprite@[i as int]);
                assert(t.len() - 1 == i);
                assert(drawn(b, t, x as int, y as int) == xor_row(
                    drawn(b, sprite@.take(i as int), x as int, y as int),
                    sprite@[i as int],
                    x as int,
                    target_row(y as int, i as int),
                ));
                assert(collides(b, t, x as int, y as int) == (collides(
                    b,
                    sprite@.take(i as int),
                    x as int,
                    y as int,
                ) || row_collides(
                    drawn(b, sprite@.take(i as int), x as int, y as int),
                    sprite@[i as int],
                    x as int,
                    target_row(y as int, i as int),
                )));
                assert((row as int + 1) % 32 == target_row(y as int, i + 1));
            }
            row = (row + 1) % 32;
            i = i + 1;
        }
        assert(sprite@.take(i as int) =~= sprite@);
        hit
    }

    /// Index of the byte that holds pixel (`x`, `y`), counting rows of eight bytes.
    fn get_index(x: usize, y: usize) -> (r: usize)
        requires
            y < HEIGHT,
        ensures
            r == x / 8 + y * 8,
    {
        x / 8 + y * ROW_BYTES
    }

    /// Lights pixel (`x`, `y`); a coordinate off the display is refused.
    pub fn put_pixel(&mut self, x: usize, y: usize) -> (r: Result<(), ScreenError>)
        requires
            old(self).wf(),
        ensures
            final(self).wf(),
            (x < WIDTH && y < HEIGHT) ==> r is Ok && final(self)@ == old(self)@.update(
                (x / 8 + y * 8) as int,
                old(self)@[x / 8 + y * 8] | (0x80u8 >> ((x % 8) as u8)),
            ),
            !(x < WIDTH && y < HEIGHT) ==> r == Err::<(), ScreenError>(ScreenError(x, y))
                && final(self)@ == old(self)@,
    {
        if x >= WIDTH || y >= HEIGHT {
            return Err(ScreenError(x, y));
        }
        let k = Self::get_index(x, y);
        let bit: u8 = 0x80u8 >> ((x % 8) as u8);
        let v = self.buf[k] | bit;
        self.buf.set(k, v);
        Ok(())
    }

    /// Turns pixel (`x`, `y`) off; a coordinate off the display is refused.
    pub fn clear_pixel(&mut self, x: usize, y: usize) -> (r: Result<(), ScreenError>)
        requires
            old(self).wf(),
        ensures
            final(self).wf(),
            (x < WIDTH && y < HEIGHT) ==> r is Ok && final(self)@ == old(self)@.update(
                (x / 8 + y * 8) as int,
                old(self)@[x / 8 + y * 8] & !(0x80u8 >> ((x % 8) as u8)),
            ),
            !(x < WIDTH && y < HEIGHT) ==> r == Err::<(), ScreenError>(ScreenError(x, y))
                && final(self)@ == old(self)@,
    {
        if x >= WIDTH || y >= HEIGHT {
            return Err(ScreenError(x, y));
        }
        let k = Self::get_index(x, y);
        let bit: u8 = 0x80u8 >> ((x % 8) as u8);
        let v = self.buf[k] & !bit;
        self.buf.set(k, v);
        Ok(())
    }

    /// The framebuffer with every bit inverted, as a bitmap format that marks
    /// dark pixels with 1 expects it.
    pub fn as_bytes(&self) -> (r: Vec<u8>)
        requires
            self.wf(),
        ensures
            r@.len() == BUFFER_LEN,
            forall|k: int| 0 <= k < BUFFER_LEN ==> #[trigger] r@[k] == !self@[k],
    {
        let mut r: Vec<u8> = Vec::new();
        let mut k: usize = 0;
        while k < BUFFER_LEN
            invariant
                self.wf(),
                k <= BUFFER_LEN,
                r@.len() == k,
                forall|j: int| 0 <= j < k ==> #[trigger] r@[j] == !self@[j],
            decreases BUFFER_LEN - k,
        {
            r.push(!self.buf[k]);
            k = k + 1;
        }
        r
    }

    /// The display as a binary PBM image: the header, then the rows with dark
    /// pixels set.
    pub fn to_pbm(&self) -> (r: Vec<u8>)
        requires
            self.wf(),
        ensures
            r@ == pbm_of(self@),
    {
        let mut r: Vec<u8> = vec![0x50u8, 0x34, 0x20, 0x36, 0x34, 0x20, 0x33, 0x32, 0x0A];
        assert(r@ =~= pbm_header());
        let body = self.as_bytes();
        let mut k: usize = 0;
        while k < BUFFER_LEN
            invariant
                self.wf(),
                body@.len() == BUFFER_LEN,
                forall|j: int| 0 <= j < BUFFER_LEN ==> #[trigger] body@[j] == !self@[j],
                k <= BUFFER_LEN,
                r@.len() == pbm_header().len() + k,
                r@.subrange(0, pbm_header().len() as int) == pbm_header(),
                forall|j: int| 0 <= j < k ==> #[trigger] r@[pbm_header().len() + j] == !self@[j],
            decreases BUFFER_LEN - k,
        {
            let ghost before = r@;
            r.push(body[k]);
            assert(r@.subrange(0, pbm_header().len() as int) =~= before.subrange(0, pbm_header().len() as int));
            k = k + 1;
        }
        assert forall|j: int| 0 <= j < r@.len() implies #[trigger] r@[j] == pbm_of(self@)[j] by {
            if j < pbm_header().len() {
                assert(r@.subrange(0, pbm_header().len() as int)[j] == r@[j]);
            } else {
                let m = j - pbm_header().len();
                assert(r@[pbm_header().len() + m] == !self@[m]);
            }
        }
        assert(r@ =~= pbm_of(self@));
        r
    }

    /// Turns every pixel off.
    pub fn clear(&mut self)
        ensures
            final(self).wf(),
            forall|k: int| 0 <= k < BUFFER_LEN ==> #[trigger] final(self)@[k] == 0,
    {
        self.buf = blank_buffer();
    }

    /// A copy of the framebuffer, handed to whoever presents it.
    pub fn extract_buffer(&self) -> (r: Vec<u8>)
        ensures
            r@ == self@,
    {
        self.buf.clone()
    }

    /// A framebuffer with every pixel off.
    pub fn default_buffer() -> (r: Vec<u8>)
        ensures
            r@.len() == BUFFER_LEN,
            forall|k: int| 0 <= k < BUFFER_LEN ==> #[trigger] r@[k] == 0,
    {
        blank_buffer()
    }
}

impl Default for Screen {
    fn default() -> (s: Screen)
        ensures
            s.wf(),
            forall|k: int| 0 <= k < BUFFER_LEN ==> #[trigger] s@[k] == 0,
    {
        Screen::new()
    }
}

} // verus!
