//! Rectangles and points of canvas space, and the two per-pixel passes
//! over an image: fading it and finding the box around its content.

use vstd::prelude::*;
use crate::constants::ALPHA_TRANSPARENT_U8;
use crate::raster::{lemma_same, lemma_tabulate, lemma_with, Image, Raster, Rgba};
use crate::rounding::{round24, rounded24};

verus! {

/// A rectangle of pixels: its top-left corner and its size.
#[derive(Clone, Copy, Debug, Default, PartialEq, Eq, Structural)]
pub struct Rect {
    pub x: u32,
    pub y: u32,
    pub width: u32,
    pub height: u32,
}

/// A position in canvas space: a column and a row.
#[derive(Clone, Copy, Debug, Default, PartialEq, Eq, Structural)]
pub struct Point(pub i32, pub i32);

impl Point {
    /// The point in column `x` of row `y`.
    pub fn new(x: i32, y: i32) -> (p: Point)
        ensures
            p == Point(x, y),
    {
        Self(x, y)
    }

    /// The column of the point.
    pub fn x(self) -> (x: i32)
        ensures
            x == self.0,
    {
        self.0
    }

    /// The row of the point.
    pub fn y(self) -> (y: i32)
        ensures
            y == self.1,
    {
        self.1
    }
}

/// The alpha value `a` at `percent` per cent opacity: `a · percent / 100`
/// rounded to the nearest whole number, halves upwards, and kept within
/// `0..=255`. At 100 per cent or more nothing changes.
pub open spec fn scale_alpha(a: u8, percent: int) -> u8 {
    if percent >= 100 {
        a
    } else if percent <= 0 {
        0
    } else {
        ((a * percent + 50) / 100) as u8
    }
}

/// Full opacity leaves alpha as it is, and none removes it.
pub proof fn lemma_opacity_extremes(a: u8)
    ensures
        scale_alpha(a, 100) == a,
        scale_alpha(a, 0) == 0,
{
}

/// More opacity never gives less alpha, more alpha never gives less, and
/// the result never exceeds what was there.
pub proof fn lemma_opacity_monotonic(a: u8, b: u8, p: int, q: int)
    requires
        a <= b,
        p <= q,
    ensures
        scale_alpha(a, p) <= scale_alpha(a, q),
        scale_alpha(a, p) <= scale_alpha(b, p),
        scale_alpha(a, p) <= a,
{
    if 0 < p < 100 {
        lemma_scaled_bounds(a, p);
        lemma_scaled_bounds(b, p);
    }
    if 0 < q < 100 {
        lemma_scaled_bounds(a, q);
    }
    if 0 < p && q < 100 {
        assert(a * p <= a * q) by (nonlinear_arith)
            requires
                0 <= a,
                p <= q,
        ;
    }
    if 0 < p < 100 {
        assert(a * p <= b * p) by (nonlinear_arith)
            requires
                a <= b,
                0 < p,
        ;
    }
}

/// Between the extremes the rounded product fits in eight bits.
proof fn lemma_scaled_bounds(a: u8, percent: int)
    requires
        0 < percent < 100,
    ensures
        0 <= (a * percent + 50) / 100 <= a,
        scale_alpha(a, percent) == (a * percent + 50) / 100,
{
    assert(0 <= a * percent <= a * 99) by (nonlinear_arith)
        requires
            0 <= a,
            0 < percent < 100,
    ;
}

impl Rgba {
    /// This pixel with its alpha at `percent` per cent opacity.
    pub open spec fn faded(self, percent: int) -> Rgba {
        Rgba { r: self.r, g: self.g, b: self.b, a: scale_alpha(self.a, percent) }
    }
}

impl Raster {
    /// This grid with the alpha of every pixel at `percent` per cent.
    pub open spec fn faded(self, percent: int) -> Raster {
        Raster::tabulate(self.width, self.height, |u: int, v: int| self.at(u, v).faded(percent))
    }

    /// Whether the pixel at `(x, y)` is one that a search for `color`
    /// is after: one of that colour when `find_color` is set, one of any
    /// other colour when it is not.
    pub open spec fn sought(self, x: int, y: int, color: Rgba, find_color: bool) -> bool {
        self.holds(x, y) && ((self.at(x, y) == color) == find_color)
    }

    /// Whether `rect` is the smallest rectangle around the sought pixels:
    /// it contains them all, and each of its four sides touches one.
    pub open spec fn bounded_by(self, rect: Rect, color: Rgba, find_color: bool) -> bool {
        &&& rect.width >= 1
        &&& rect.height >= 1
        &&& rect.x + rect.width <= self.width
        &&& rect.y + rect.height <= self.height
        &&& forall|x: int, y: int| #[trigger]
            self.sought(x, y, color, find_color) ==> rect.x <= x < rect.x + rect.width && rect.y
                <= y < rect.y + rect.height
        &&& exists|y: int| #[trigger] self.sought(rect.x as int, y, color, find_color)
        &&& exists|y: int| #[trigger]
            self.sought(rect.x + rect.width - 1, y, color, find_color)
        &&& exists|x: int| #[trigger] self.sought(x, rect.y as int, color, find_color)
        &&& exists|x: int| #[trigger]
            self.sought(x, rect.y + rect.height - 1, color, find_color)
    }

    /// Whether `res` is what a search for `color` finds: the smallest
    /// rectangle around the sought pixels, or nothing where there are none.
    pub open spec fn bounds_are(self, res: Option<Rect>, color: Rgba, find_color: bool) -> bool {
        match res {
            None => forall|x: int, y: int| !#[trigger] self.sought(x, y, color, find_color),
            Some(rect) => self.bounded_by(rect, color, find_color),
        }
    }
}

/// Fading a whole image in place.
pub trait OpacityExt: View<V = Raster> {
    /// Sets the alpha of every pixel to `percent` per cent of what it is.
    fn opacity(&mut self, percent: i32)
        ensures
            final(self)@ == old(self)@.faded(percent as int),
    ;
}

/// The alpha value `a` at `percent` per cent opacity.
pub fn scaled_alpha(a: u8, percent: i32) -> (out: u8)
    ensures
        out == scale_alpha(a, percent as int),
{
    if percent >= 100 {
        a
    } else if percent <= 0 {
        0
    } else {
        proof {
            lemma_scaled_bounds(a, percent as int);
        }
        ((a as u32 * percent as u32 + 50) / 100) as u8
    }
}

impl OpacityExt for Image {
    fn opacity(&mut self, percent: i32) {
        let width = self.width();
        let height = self.height();
        let ghost before = self@;
        proof {
            self.lemma_view_wf();
            lemma_tabulate(
                before.width,
                before.height,
                |u: int, v: int| before.at(u, v).faded(percent as int),
            );
        }
        let mut y: u32 = 0;
        while y < height
            invariant
                y <= height,
                before.wf(),
                self@.wf(),
                self@.width == width == before.width,
                self@.height == height == before.height,
                forall|u: int, v: int|
                    0 <= u < width && 0 <= v < y ==> #[trigger] self@.at(u, v) == before.at(
                        u,
                        v,
                    ).faded(percent as int),
                forall|u: int, v: int|
                    0 <= u < width && y <= v < height ==> #[trigger] self@.at(u, v) == before.at(
                        u,
                        v,
                    ),
            decreases height - y,
        {
            let mut x: u32 = 0;
            while x < width
                invariant
                    x <= width,
                    y < height,
                    before.wf(),
                    self@.wf(),
                    self@.width == width == before.width,
                    self@.height == height == before.height,
                    forall|u: int, v: int|
                        0 <= u < width && (0 <= v < y || (v == y && u < x)) ==> #[trigger] self@.at(
                            u,
                            v,
                        ) == before.at(u, v).faded(percent as int),
                    forall|u: int, v: int|
                        0 <= u < width && (y < v < height || (v == y && x <= u))
                            ==> #[trigger] self@.at(u, v) == before.at(u, v),
                decreases width - x,
            {
                let p = self.get_pixel(x, y);
                let q = Rgba { r: p.r, g: p.g, b: p.b, a: scaled_alpha(p.a, percent) };
                proof {
                    lemma_with(self@, x as int, y as int, q);
                }
                self.put_pixel(x, y, q);
                x += 1;
            }
            y += 1;
        }
        proof {
            lemma_same(self@, before.faded(percent as int));
        }
    }
}

/// Finding the box around the content of an image.
pub trait ColorBoundsExt: View<V = Raster> {
    /// The smallest rectangle around the pixels of the colour `color`, or,
    /// when `find_color` is not set, around the pixels of any other
    /// colour; `None` when there is no such pixel.
    fn get_color_bounds_rect(&self, color: Rgba, find_color: bool) -> (res: Option<Rect>)
        ensures
            self@.bounds_are(res, color, find_color),
    ;
}

impl ColorBoundsExt for Image {
    fn get_color_bounds_rect(&self, color: Rgba, find_color: bool) -> (res: Option<Rect>) {
        let width = self.width();
        let height = self.height();
        let mut min_x: u32 = width;
        let mut min_y: u32 = height;
        let mut max_x: u32 = 0;
        let mut max_y: u32 = 0;
        let mut found = false;
        let ghost mut at_left: int = 0;
        let ghost mut at_right: int = 0;
        let ghost mut at_top: int = 0;
        let ghost mut at_bottom: int = 0;
        let ghost grid = self@;
        let mut y: u32 = 0;
        while y < height
            invariant
                y <= height,
                grid == self@,
                grid.width == width,
                grid.height == height,
                forall|u: int, v: int|
                    v < y && #[trigger] grid.sought(u, v, color, find_color) ==> found && min_x <= u
                        <= max_x && min_y <= v <= max_y,
                found ==> min_x <= max_x < width && min_y <= max_y < height,
                found ==> grid.sought(min_x as int, at_left, color, find_color),
                found ==> grid.sought(max_x as int, at_right, color, find_color),
                found ==> grid.sought(at_top, min_y as int, color, find_color),
                found ==> grid.sought(at_bottom, max_y as int, color, find_color),
            decreases height - y,
        {
            let mut x: u32 = 0;
            while x < width
                invariant
                    x <= width,
                    y < height,
                    grid == self@,
                    grid.width == width,
                    grid.height == height,
                    forall|u: int, v: int|
                        (v < y || (v == y && u < x)) && #[trigger] grid.sought(
                            u,
                            v,
                            color,
                            find_color,
                        ) ==> found && min_x <= u <= max_x && min_y <= v <= max_y,
                    found ==> min_x <= max_x < width && min_y <= max_y < height,
                    found ==> grid.sought(min_x as int, at_left, color, find_color),
                    found ==> grid.sought(max_x as int, at_right, color, find_color),
                    found ==> grid.sought(at_top, min_y as int, color, find_color),
                    found ==> grid.sought(at_bottom, max_y as int, color, find_color),
                decreases width - x,
            {
                let pixel = self.get_pixel(x, y);
                let matches = if find_color {
                    pixel == color
                } else {
                    pixel != color
                };
                if matches {
                    assert(grid.sought(x as int, y as int, color, find_color));
                    if !found || x < min_x {
                        min_x = x;
                        proof {
                            at_left = y as int;
                        }
                    }
                    if !found || y < min_y {
                        min_y = y;
                        proof {
                            at_top = x as int;
                        }
                    }
                    if !found || x > max_x {
                        max_x = x;
                        proof {
                            at_right = y as int;
                        }
                    }
                    if !found || y > max_y {
                        max_y = y;
                        proof {
                            at_bottom = x as int;
                        }
                    }
                    found = true;
                }
                x += 1;
            }
            y += 1;
        }
        if found {
            let rect = Rect {
                x: min_x,
                y: min_y,
                width: max_x - min_x + 1,
                height: max_y - min_y + 1,
            };
            proof {
                assert(grid.sought(rect.x as int, at_left, color, find_color));
                assert(grid.sought(rect.x + rect.width - 1, at_right, color, find_color));
                assert(grid.sought(at_top, rect.y as int, color, find_color));
                assert(grid.sought(at_bottom, rect.y + rect.height - 1, color, find_color));
            }
            Some(rect)
        } else {
            None
        }
    }
}

/// At full opacity a grid stays as it is; at none, every pixel keeps its
/// colour and loses its alpha.
pub proof fn lemma_faded_extremes(grid: Raster)
    requires
        grid.wf(),
    ensures
        grid.faded(100) == grid,
        grid.faded(0).wf(),
        grid.faded(0).width == grid.width,
        grid.faded(0).height == grid.height,
        forall|x: int, y: int|
            grid.holds(x, y) ==> #[trigger] grid.faded(0).at(x, y) == (Rgba {
                r: grid.at(x, y).r,
                g: grid.at(x, y).g,
                b: grid.at(x, y).b,
                a: 0,
            }),
{
    lemma_tabulate(grid.width, grid.height, |u: int, v: int| grid.at(u, v).faded(100));
    lemma_tabulate(grid.width, grid.height, |u: int, v: int| grid.at(u, v).faded(0));
    lemma_same(grid.faded(100), grid);
}

/// One, in the units in which the blend transform counts shares of the
/// full channel value: 2 to the power of -40.
pub const WHOLE_SHARE: u128 = 0x100_0000_0000;

/// The share `c / 255` of the full channel value, in single precision.
pub open spec fn share(c: u8) -> nat {
    rounded24((c * 0x100_0000_0000) as nat, 255)
}

/// The alpha that the blend transform gives a pixel of the colour
/// `(r, g, b)`: the mean of the three shares, each operation in single
/// precision, brought back to the scale of a channel and cut to a whole
/// number.
pub open spec fn blended_alpha(r: u8, g: u8, b: u8) -> u8 {
    let sum = rounded24(rounded24(share(r) + share(g), 1) + share(b), 1);
    let mean = rounded24(sum, 3);
    let level = rounded24(mean * 255, 1) / 0x100_0000_0000;
    if level > 255 {
        255u8
    } else {
        level as u8
    }
}

/// The colour channel `c` of a pixel of alpha `a` after the blend
/// transform: `c · a / 255`, cut to a whole number.
pub open spec fn blended_channel(c: u8, a: u8) -> u8 {
    ((c * a) / 255) as u8
}

impl Rgba {
    /// This pixel after the blend transform: its colour multiplied by its
    /// alpha, and its alpha replaced by the mean of its colour channels. A
    /// fully transparent pixel stays as it is.
    pub open spec fn blend(self) -> Rgba {
        if self.a == 0 {
            self
        } else {
            Rgba {
                r: blended_channel(self.r, self.a),
                g: blended_channel(self.g, self.a),
                b: blended_channel(self.b, self.a),
                a: blended_alpha(self.r, self.g, self.b),
            }
        }
    }
}

impl Raster {
    /// This grid with the blend transform applied to every pixel.
    pub open spec fn blend_applied(self) -> Raster {
        Raster::tabulate(self.width, self.height, |u: int, v: int| self.at(u, v).blend())
    }
}

/// Applying the blend transform to a whole image in place.
pub trait BlendExt: View<V = Raster> {
    /// Multiplies the colour channels of every pixel by its alpha and sets
    /// its alpha to the mean of its colour channels:
    ///
    /// - R' = R * A
    /// - G' = G * A
    /// - B' = B * A
    /// - A' = (R + G + B) / 3
    ///
    /// with every channel counted as a share of its full value. Pixels
    /// with zero alpha are left unchanged.
    fn blend(&mut self)
        ensures
            final(self)@ == old(self)@.blend_applied(),
    ;
}

/// The shares of the 256 channel values.
fn share_table() -> (table: Vec<u128>)
    ensures
        table@.len() == 256,
        forall|c: int| 0 <= c < 256 ==> #[trigger] table@[c] == share(c as u8),
        forall|c: int| 0 <= c < 256 ==> #[trigger] table@[c] <= 0x200_0000_0001,
{
    let mut table: Vec<u128> = Vec::new();
    let mut c: u128 = 0;
    while c < 256
        invariant
            c <= 256,
            table@.len() == c,
            forall|k: int| 0 <= k < c ==> #[trigger] table@[k] == share(k as u8),
            forall|k: int| 0 <= k < c ==> #[trigger] table@[k] <= 0x200_0000_0001,
        decreases 256 - c,
    {
        let value = round24(c * WHOLE_SHARE, 255);
        table.push(value);
        c += 1;
    }
    table
}

/// The alpha that the blend transform gives a pixel of the colour
/// `(r, g, b)`, from the table of shares.
fn blend_alpha(table: &Vec<u128>, r: u8, g: u8, b: u8) -> (a: u8)
    requires
        table@.len() == 256,
        forall|c: int| 0 <= c < 256 ==> #[trigger] table@[c] == share(c as u8),
        forall|c: int| 0 <= c < 256 ==> #[trigger] table@[c] <= 0x200_0000_0001,
    ensures
        a == blended_alpha(r, g, b),
{
    let first = round24(table[r as usize] + table[g as usize], 1);
    let sum = round24(first + table[b as usize], 1);
    let mean = round24(sum, 3);
    let level = round24(mean * 255, 1) / WHOLE_SHARE;
    if level > 255 {
        255
    } else {
        level as u8
    }
}

impl BlendExt for Image {
    fn blend(&mut self) {
        let table = share_table();
        let width = self.width();
        let height = self.height();
        let ghost before = self@;
        proof {
            self.lemma_view_wf();
            lemma_tabulate(before.width, before.height, |u: int, v: int| before.at(u, v).blend());
        }
        let mut y: u32 = 0;
        while y < height
            invariant
                y <= height,
                table@.len() == 256,
                forall|c: int| 0 <= c < 256 ==> #[trigger] table@[c] == share(c as u8),
                forall|c: int| 0 <= c < 256 ==> #[trigger] table@[c] <= 0x200_0000_0001,
                before.wf(),
                self@.wf(),
                self@.width == width == before.width,
                self@.height == height == before.height,
                forall|u: int, v: int|
                    0 <= u < width && 0 <= v < y ==> #[trigger] self@.at(u, v) == before.at(
                        u,
                        v,
                    ).blend(),
                forall|u: int, v: int|
                    0 <= u < width && y <= v < height ==> #[trigger] self@.at(u, v) == before.at(
                        u,
                        v,
                    ),
            decreases height - y,
        {
            let mut x: u32 = 0;
            while x < width
                invariant
                    x <= width,
                    y < height,
                    table@.len() == 256,
                    forall|c: int| 0 <= c < 256 ==> #[trigger] table@[c] == share(c as u8),
                    forall|c: int| 0 <= c < 256 ==> #[trigger] table@[c] <= 0x200_0000_0001,
                    before.wf(),
                    self@.wf(),
                    self@.width == width == before.width,
                    self@.height == height == before.height,
                    forall|u: int, v: int|
                        0 <= u < width && (0 <= v < y || (v == y && u < x)) ==> #[trigger] self@.at(
                            u,
                            v,
                        ) == before.at(u, v).blend(),
                    forall|u: int, v: int|
                        0 <= u < width && (y < v < height || (v == y && x <= u))
                            ==> #[trigger] self@.at(u, v) == before.at(u, v),
                decreases width - x,
            {
                let p = self.get_pixel(x, y);
                if p.a != ALPHA_TRANSPARENT_U8 {
                    assert(p.r * p.a <= 255 * 255) by (nonlinear_arith)
                        requires
                            p.r <= 255,
                            p.a <= 255,
                    ;
                    assert(p.g * p.a <= 255 * 255) by (nonlinear_arith)
                        requires
                            p.g <= 255,
                            p.a <= 255,
                    ;
                    assert(p.b * p.a <= 255 * 255) by (nonlinear_arith)
                        requires
                            p.b <= 255,
                            p.a <= 255,
                    ;
                    let q = Rgba {
                        r: ((p.r as u32 * p.a as u32) / 255) as u8,
                        g: ((p.g as u32 * p.a as u32) / 255) as u8,
                        b: ((p.b as u32 * p.a as u32) / 255) as u8,
                        a: blend_alpha(&table, p.r, p.g, p.b),
                    };
                    proof {
                        lemma_with(self@, x as int, y as int, q);
                    }
                    self.put_pixel(x, y, q);
                }
                x += 1;
            }
            y += 1;
        }
        proof {
            lemma_same(self@, before.blend_applied());
        }
    }
}

} // verus!
