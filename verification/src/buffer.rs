//! The four-color frame buffer: a 250x122 canvas held as three packed
//! monochrome bitplanes (black/white, red, yellow).
//!
//! Each plane stores one bit per pixel, row-major, most significant bit
//! first within a byte. A bit value of 1 means the plane is inactive
//! (clear) at that pixel; 0 means active. The all-ones state of every
//! plane is the white background.

use vstd::prelude::*;

verus! {

/// Canvas width in pixels.
pub const WIDTH: usize = 250;

/// Canvas height in pixels.
pub const HEIGHT: usize = 122;

/// Bytes per bitplane: one bit per pixel, rounded up to whole bytes.
pub const BUF_SIZE: usize = (WIDTH * HEIGHT + 7) / 8;

/// The four colors the panel can show.
#[derive(Copy, Clone, Eq, PartialEq, Structural, Debug)]
pub enum QuadColor {
    Black,
    White,
    Red,
    Yellow,
}

/// Mathematical model of a [`DisplayBuffer`]: the byte contents of the
/// three bitplanes.
#[verifier::ext_equal]
pub struct PlanesView {
    pub bw: Seq<u8>,
    pub red: Seq<u8>,
    pub yellow: Seq<u8>,
}

impl PlanesView {
    /// Every plane has exactly [`BUF_SIZE`] bytes.
    pub open spec fn wf(self) -> bool {
        &&& self.bw.len() == BUF_SIZE
        &&& self.red.len() == BUF_SIZE
        &&& self.yellow.len() == BUF_SIZE
    }
}

/// Whether `(x, y)` lies on the canvas.
pub open spec fn in_bounds(x: int, y: int) -> bool {
    0 <= x < WIDTH && 0 <= y < HEIGHT
}

/// Byte index of pixel `(x, y)` within a plane.
pub open spec fn byte_index(x: int, y: int) -> int {
    (y * WIDTH + x) / 8
}

/// Bit position of pixel `(x, y)` within its byte: bit 7 is the leftmost
/// pixel of the byte.
pub open spec fn bit_index(x: int) -> u8 {
    (7 - (x % 8)) as u8
}

/// `b` with bit `k` forced to 1.
pub open spec fn with_bit_high(b: u8, k: u8) -> u8 {
    b | (1u8 << k)
}

/// `b` with bit `k` forced to 0.
pub open spec fn with_bit_low(b: u8, k: u8) -> u8 {
    b & !(1u8 << k)
}

/// Whether bit `k` of `b` is 1.
pub open spec fn bit_high(b: u8, k: u8) -> bool {
    b & (1u8 << k) != 0
}

/// Whether the plane `p` has its bit set (inactive) at pixel `(x, y)`.
pub open spec fn plane_bit(p: Seq<u8>, x: int, y: int) -> bool {
    bit_high(p[byte_index(x, y)], bit_index(x))
}

/// The color a pixel shows: an active red plane wins, then yellow, then
/// black; a pixel on no active plane is white.
pub open spec fn color_at(v: PlanesView, x: int, y: int) -> QuadColor {
    if !plane_bit(v.red, x, y) {
        QuadColor::Red
    } else if !plane_bit(v.yellow, x, y) {
        QuadColor::Yellow
    } else if !plane_bit(v.bw, x, y) {
        QuadColor::Black
    } else {
        QuadColor::White
    }
}

/// The plane byte that a draw of `c` leaves behind, given the old byte `b`,
/// the bit position `k`, and whether `c` is the color this plane encodes:
/// the bit is cleared (made active) for the matching plane and set
/// (made inactive) for the other two.
pub open spec fn drawn_byte(b: u8, k: u8, active: bool) -> u8 {
    if active {
        with_bit_low(b, k)
    } else {
        with_bit_high(b, k)
    }
}

/// What a single pixel draw does to the planes. Out-of-bounds coordinates
/// leave the buffer untouched; in bounds, all three planes are first
/// cleared at the pixel and then exactly the plane of `c` is activated
/// (none for white), so a draw is last-write-wins for its pixel.
pub open spec fn draw_spec(v: PlanesView, x: int, y: int, c: QuadColor) -> PlanesView {
    if in_bounds(x, y) {
        let i = byte_index(x, y);
        let k = bit_index(x);
        PlanesView {
            bw: v.bw.update(i, drawn_byte(v.bw[i], k, c == QuadColor::Black)),
            red: v.red.update(i, drawn_byte(v.red[i], k, c == QuadColor::Red)),
            yellow: v.yellow.update(i, drawn_byte(v.yellow[i], k, c == QuadColor::Yellow)),
        }
    } else {
        v
    }
}

/// What a sequence of pixel draws does to the planes, first element first.
pub open spec fn draw_all_spec(v: PlanesView, ps: Seq<(i32, i32, QuadColor)>) -> PlanesView
    decreases ps.len(),
{
    if ps.len() == 0 {
        v
    } else {
        draw_all_spec(draw_spec(v, ps[0].0 as int, ps[0].1 as int, ps[0].2), ps.skip(1))
    }
}

/// At byte `i`, bit `k`, at most one of the three planes is active.
pub open spec fn exclusive_at(v: PlanesView, i: int, k: u8) -> bool {
    let b = !bit_high(v.bw[i], k);
    let r = !bit_high(v.red[i], k);
    let y = !bit_high(v.yellow[i], k);
    &&& !(b && r)
    &&& !(b && y)
    &&& !(r && y)
}

/// At every bit position at most one plane is active, so every pixel shows
/// one color of the four without ambiguity.
pub open spec fn planes_exclusive(v: PlanesView) -> bool {
    forall|i: int, k: u8| 0 <= i < v.bw.len() && k < 8 ==> #[trigger] exclusive_at(v, i, k)
}

/// All three planes hold only 0xFF bytes: the cleared, all-white state.
pub open spec fn all_clear(v: PlanesView) -> bool {
    &&& forall|i: int| 0 <= i < v.bw.len() ==> v.bw[i] == 0xFFu8
    &&& forall|i: int| 0 <= i < v.red.len() ==> v.red[i] == 0xFFu8
    &&& forall|i: int| 0 <= i < v.yellow.len() ==> v.yellow[i] == 0xFFu8
}

/// The four-color canvas: three independent bitplanes of [`BUF_SIZE`]
/// packed bytes each.
pub struct DisplayBuffer {
    pub bw: Vec<u8>,
    pub red: Vec<u8>,
    pub yellow: Vec<u8>,
}

impl View for DisplayBuffer {
    type V = PlanesView;

    open spec fn view(&self) -> PlanesView {
        PlanesView { bw: self.bw@, red: self.red@, yellow: self.yellow@ }
    }
}

/// One bitplane in its cleared state: [`BUF_SIZE`] bytes of 0xFF.
fn solid_plane() -> (r: Vec<u8>)
    ensures
        r@.len() == BUF_SIZE,
        forall|i: int| 0 <= i < r@.len() ==> r@[i] == 0xFFu8,
{
    let mut v: Vec<u8> = Vec::new();
    while v.len() < BUF_SIZE
        invariant
            v@.len() <= BUF_SIZE,
            forall|i: int| 0 <= i < v@.len() ==> v@[i] == 0xFFu8,
        decreases BUF_SIZE - v@.len(),
    {
        v.push(0xFF);
    }
    v
}

impl DisplayBuffer {
    /// Everything the buffer's methods assume of it: all three planes have
    /// their full length.
    pub open spec fn wf(&self) -> bool {
        self@.wf()
    }

    /// A fresh buffer: every plane all ones, so every pixel is white.
    pub fn new() -> (r: DisplayBuffer)
        ensures
            r.wf(),
            all_clear(r@),
    {
        DisplayBuffer { bw: solid_plane(), red: solid_plane(), yellow: solid_plane() }
    }

    /// Resets every plane to all ones, restoring the all-white state.
    pub fn clear(&mut self)
        ensures
            final(self).wf(),
            all_clear(final(self)@),
    {
        self.bw = solid_plane();
        self.red = solid_plane();
        self.yellow = solid_plane();
    }

    /// The canvas dimensions, width then height.
    pub fn size(&self) -> (r: (u32, u32))
        ensures
            r.0 == WIDTH,
            r.1 == HEIGHT,
    {
        (WIDTH as u32, HEIGHT as u32)
    }

    /// Draws one pixel. Out-of-bounds coordinates are dropped silently;
    /// in bounds, the pixel is set to exactly `color`, overwriting whatever
    /// was there.
    pub fn draw_pixel(&mut self, x: i32, y: i32, color: QuadColor)
        requires
            old(self).wf(),
        ensures
            final(self).wf(),
            final(self)@ == draw_spec(old(self)@, x as int, y as int, color),
    {
        if x >= 0 && x < WIDTH as i32 && y >= 0 && y < HEIGHT as i32 {
            let xu: usize = x as usize;
            let yu: usize = y as usize;
            proof {
                assert(yu * WIDTH + xu < WIDTH * HEIGHT) by (nonlinear_arith)
                    requires
                        xu < WIDTH,
                        yu < HEIGHT,
                        WIDTH == 250,
                        HEIGHT == 122,
                ;
            }
            let idx: usize = (yu * WIDTH + xu) / 8;
            let bit: u8 = 7 - ((xu % 8) as u8);
            proof {
                assert(idx < BUF_SIZE);
                assert(idx == byte_index(x as int, y as int));
                assert(bit == bit_index(x as int));
            }
            let mask: u8 = 1u8 << bit;
            let b_bw: u8 = self.bw[idx];
            let b_red: u8 = self.red[idx];
            let b_yellow: u8 = self.yellow[idx];
            self.bw[idx] = if color == QuadColor::Black {
                b_bw & !mask
            } else {
                b_bw | mask
            };
            self.red[idx] = if color == QuadColor::Red {
                b_red & !mask
            } else {
                b_red | mask
            };
            self.yellow[idx] = if color == QuadColor::Yellow {
                b_yellow & !mask
            } else {
                b_yellow | mask
            };
            proof {
                assert(self@ =~= draw_spec(old(self)@, x as int, y as int, color));
            }
        }
    }

    /// Applies a sequence of pixel draws in order: each one follows the
    /// single-pixel rule, so a later draw at the same coordinate overrides
    /// an earlier one and out-of-bounds entries are dropped.
    pub fn draw_iter(&mut self, pixels: &Vec<(i32, i32, QuadColor)>)
        requires
            old(self).wf(),
        ensures
            final(self).wf(),
            final(self)@ == draw_all_spec(old(self)@, pixels@),
    {
        let mut i: usize = 0;
        proof {
            assert(pixels@.skip(0) =~= pixels@);
        }
        while i < pixels.len()
            invariant
                self.wf(),
                i <= pixels@.len(),
                draw_all_spec(self@, pixels@.skip(i as int)) == draw_all_spec(
                    old(self)@,
                    pixels@,
                ),
            decreases pixels@.len() - i,
        {
            let p = pixels[i];
            proof {
                assert(pixels@.skip(i as int)[0] == pixels@[i as int]);
                assert(pixels@.skip(i as int).skip(1) =~= pixels@.skip(i as int + 1));
            }
            self.draw_pixel(p.0, p.1, p.2);
            i = i + 1;
        }
        proof {
            assert(pixels@.skip(pixels@.len() as int) =~= Seq::<(i32, i32, QuadColor)>::empty());
        }
    }

    /// The color pixel `(x, y)` currently shows: an active red plane wins,
    /// then yellow, then black; otherwise white.
    pub fn pixel_color(&self, x: u32, y: u32) -> (c: QuadColor)
        requires
            self.wf(),
            x < WIDTH,
            y < HEIGHT,
        ensures
            c == color_at(self@, x as int, y as int),
    {
        let xu: usize = x as usize;
        let yu: usize = y as usize;
        proof {
            assert(yu * WIDTH + xu < WIDTH * HEIGHT) by (nonlinear_arith)
                requires
                    xu < WIDTH,
                    yu < HEIGHT,
                    WIDTH == 250,
                    HEIGHT == 122,
            ;
        }
        let idx: usize = (yu * WIDTH + xu) / 8;
        let bit: u8 = 7 - ((xu % 8) as u8);
        let b_bw: u8 = self.bw[idx];
        let b_red: u8 = self.red[idx];
        let b_yellow: u8 = self.yellow[idx];
        let c: QuadColor = if (b_red >> bit) & 1 == 0 {
            QuadColor::Red
        } else if (b_yellow >> bit) & 1 == 0 {
            QuadColor::Yellow
        } else if (b_bw >> bit) & 1 == 0 {
            QuadColor::Black
        } else {
            QuadColor::White
        };
        proof {
            assert(idx == byte_index(x as int, y as int));
            assert(bit == bit_index(x as int));
            assert(((b_bw >> bit) & 1 == 0) <==> !bit_high(b_bw, bit)) by (bit_vector)
                requires
                    bit < 8,
            ;
            assert(((b_red >> bit) & 1 == 0) <==> !bit_high(b_red, bit)) by (bit_vector)
                requires
                    bit < 8,
            ;
            assert(((b_yellow >> bit) & 1 == 0) <==> !bit_high(b_yellow, bit)) by (bit_vector)
                requires
                    bit < 8,
            ;
        }
        c
    }
}

/// Forcing a bit high or low is idempotent.
proof fn lemma_bit_force_idempotent(b: u8, k: u8)
    by (bit_vector)
    ensures
        with_bit_high(with_bit_high(b, k), k) == with_bit_high(b, k),
        with_bit_low(with_bit_low(b, k), k) == with_bit_low(b, k),
{
}

/// A forced bit reads back as forced.
proof fn lemma_bit_force_reads_back(b: u8, k: u8)
    by (bit_vector)
    requires
        k < 8,
    ensures
        bit_high(with_bit_high(b, k), k),
        !bit_high(with_bit_low(b, k), k),
{
}

/// Drawing the same pixel twice with the same color leaves the planes
/// exactly as drawing it once does.
pub proof fn lemma_draw_idempotent(v: PlanesView, x: int, y: int, c: QuadColor)
    requires
        v.wf(),
    ensures
        draw_spec(draw_spec(v, x, y, c), x, y, c) == draw_spec(v, x, y, c),
{
    if in_bounds(x, y) {
        let i = byte_index(x, y);
        let k = bit_index(x);
        let v1 = draw_spec(v, x, y, c);
        let v2 = draw_spec(v1, x, y, c);
        lemma_bit_force_idempotent(v.bw[i], k);
        lemma_bit_force_idempotent(v.red[i], k);
        lemma_bit_force_idempotent(v.yellow[i], k);
        assert(v2.bw =~= v1.bw);
        assert(v2.red =~= v1.red);
        assert(v2.yellow =~= v1.yellow);
        assert(v2 =~= v1);
    }
}

/// After a single in-bounds draw the pixel holds exactly the drawn color:
/// the plane of `c` is the only active one there — none for white — and
/// reading the pixel back gives `c`, whatever was drawn before.
pub proof fn lemma_draw_reads_back(v: PlanesView, x: int, y: int, c: QuadColor)
    requires
        v.wf(),
        in_bounds(x, y),
    ensures
        plane_bit(draw_spec(v, x, y, c).bw, x, y) == (c != QuadColor::Black),
        plane_bit(draw_spec(v, x, y, c).red, x, y) == (c != QuadColor::Red),
        plane_bit(draw_spec(v, x, y, c).yellow, x, y) == (c != QuadColor::Yellow),
        color_at(draw_spec(v, x, y, c), x, y) == c,
{
    let i = byte_index(x, y);
    let k = bit_index(x);
    lemma_bit_force_reads_back(v.bw[i], k);
    lemma_bit_force_reads_back(v.red[i], k);
    lemma_bit_force_reads_back(v.yellow[i], k);
}

/// A draw at an out-of-bounds coordinate leaves every plane byte unchanged.
pub proof fn lemma_draw_out_of_bounds(v: PlanesView, x: int, y: int, c: QuadColor)
    requires
        !in_bounds(x, y),
    ensures
        draw_spec(v, x, y, c) == v,
{
}

/// Forcing one bit leaves every other bit of the byte as it was.
proof fn lemma_bit_force_leaves_others(b: u8, k0: u8, k: u8)
    by (bit_vector)
    requires
        k0 < 8,
        k < 8,
        k != k0,
    ensures
        bit_high(with_bit_high(b, k0), k) == bit_high(b, k),
        bit_high(with_bit_low(b, k0), k) == bit_high(b, k),
{
}

/// On fully cleared planes no plane is active anywhere.
pub proof fn lemma_all_clear_exclusive(v: PlanesView)
    requires
        v.wf(),
        all_clear(v),
    ensures
        planes_exclusive(v),
{
    assert forall|i: int, k: u8| 0 <= i < v.bw.len() && k < 8 implies #[trigger] exclusive_at(
        v,
        i,
        k,
    ) by {
        assert(bit_high(0xFFu8, k)) by (bit_vector)
            requires
                k < 8,
        ;
    }
}

/// A draw never makes two planes active at one bit position: the
/// exclusivity of the planes is an invariant of drawing.
pub proof fn lemma_draw_preserves_exclusive(v: PlanesView, x: int, y: int, c: QuadColor)
    requires
        v.wf(),
        planes_exclusive(v),
    ensures
        planes_exclusive(draw_spec(v, x, y, c)),
{
    if in_bounds(x, y) {
        let i0 = byte_index(x, y);
        let k0 = bit_index(x);
        let v1 = draw_spec(v, x, y, c);
        assert forall|i: int, k: u8| 0 <= i < v1.bw.len() && k < 8 implies #[trigger] exclusive_at(
            v1,
            i,
            k,
        ) by {
            assert(exclusive_at(v, i, k));
            if i == i0 {
                if k == k0 {
                    lemma_bit_force_reads_back(v.bw[i0], k0);
                    lemma_bit_force_reads_back(v.red[i0], k0);
                    lemma_bit_force_reads_back(v.yellow[i0], k0);
                } else {
                    lemma_bit_force_leaves_others(v.bw[i0], k0, k);
                    lemma_bit_force_leaves_others(v.red[i0], k0, k);
                    lemma_bit_force_leaves_others(v.yellow[i0], k0, k);
                }
            }
        }
    }
}

/// Exclusivity survives any sequence of draws.
pub proof fn lemma_draw_all_preserves_exclusive(v: PlanesView, ps: Seq<(i32, i32, QuadColor)>)
    requires
        v.wf(),
        planes_exclusive(v),
    ensures
        planes_exclusive(draw_all_spec(v, ps)),
    decreases ps.len(),
{
    if ps.len() > 0 {
        let v1 = draw_spec(v, ps[0].0 as int, ps[0].1 as int, ps[0].2);
        lemma_draw_preserves_exclusive(v, ps[0].0 as int, ps[0].1 as int, ps[0].2);
        assert(v1.wf());
        lemma_draw_all_preserves_exclusive(v1, ps.skip(1));
    }
}

/// On fully cleared planes every in-bounds pixel reads white.
pub proof fn lemma_cleared_reads_white(v: PlanesView, x: int, y: int)
    requires
        v.wf(),
        all_clear(v),
        in_bounds(x, y),
    ensures
        color_at(v, x, y) == QuadColor::White,
{
    let k = bit_index(x);
    assert(0 <= byte_index(x, y) < BUF_SIZE) by {
        assert(y * WIDTH + x < WIDTH * HEIGHT) by (nonlinear_arith)
            requires
                0 <= x < WIDTH,
                0 <= y < HEIGHT,
                WIDTH == 250,
                HEIGHT == 122,
        ;
        assert(0 <= y * WIDTH + x) by (nonlinear_arith)
            requires
                0 <= x,
                0 <= y,
                WIDTH == 250,
        ;
    }
    assert(bit_high(0xFFu8, k)) by (bit_vector)
        requires
            k < 8,
    ;
}

impl Default for DisplayBuffer {
    /// Same as [`DisplayBuffer::new`].
    fn default() -> (r: DisplayBuffer)
        ensures
            r.wf(),
            all_clear(r@),
    {
        DisplayBuffer::new()
    }
}

} // verus!
