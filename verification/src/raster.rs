//! RGBA pixel grids: the executable `Image`, held as raw bytes, and its
//! mathematical model `Raster`, over which every contract is stated.

use vstd::prelude::*;
use vstd::arithmetic::div_mod::{lemma_fundamental_div_mod, lemma_fundamental_div_mod_converse};
use vstd::arithmetic::mul::lemma_mul_is_commutative;

verus! {

/// One pixel: red, green, blue and alpha, eight bits each.
#[derive(Clone, Copy, Debug, Default, PartialEq, Eq, Structural)]
pub struct Rgba {
    pub r: u8,
    pub g: u8,
    pub b: u8,
    pub a: u8,
}

impl Rgba {
    /// Fully transparent black, the colour of a fresh canvas.
    pub open spec fn transparent() -> Rgba {
        Rgba { r: 0, g: 0, b: 0, a: 0 }
    }

    /// The pixel with the given channels.
    pub fn new(r: u8, g: u8, b: u8, a: u8) -> (p: Rgba)
        ensures
            p == (Rgba { r, g, b, a }),
    {
        Rgba { r, g, b, a }
    }
}

/// A grid of pixels, stored row by row from the top.
pub struct Raster {
    pub width: nat,
    pub height: nat,
    pub pixels: Seq<Rgba>,
}

impl Raster {
    /// There is exactly one pixel for each position of the grid.
    pub open spec fn wf(self) -> bool {
        self.pixels.len() == self.width * self.height
    }

    /// Whether `(x, y)` is a position of the grid.
    pub open spec fn holds(self, x: int, y: int) -> bool {
        0 <= x < self.width && 0 <= y < self.height
    }

    /// The pixel in column `x` of row `y`.
    pub open spec fn at(self, x: int, y: int) -> Rgba {
        self.pixels[y * self.width + x]
    }

    /// The grid of the given size whose pixel at `(x, y)` is `f(x, y)`.
    pub open spec fn tabulate(width: nat, height: nat, f: spec_fn(int, int) -> Rgba) -> Raster {
        Raster {
            width,
            height,
            pixels: Seq::new(width * height, |i: int| f(i % (width as int), i / (width as int))),
        }
    }

    /// The grid of the given size with every pixel equal to `p`.
    pub open spec fn filled(width: nat, height: nat, p: Rgba) -> Raster {
        Raster::tabulate(width, height, |x: int, y: int| p)
    }

    /// This grid with the pixel at `(x, y)` replaced by `p`.
    pub open spec fn with(self, x: int, y: int, p: Rgba) -> Raster {
        Raster {
            width: self.width,
            height: self.height,
            pixels: self.pixels.update(y * self.width + x, p),
        }
    }
}

/// Positions of a grid and indices of its row-major storage correspond.
pub proof fn lemma_index(width: nat, height: nat, x: int, y: int)
    requires
        0 <= x < width,
        0 <= y < height,
    ensures
        0 <= y * width + x < width * height,
        (y * width + x) % (width as int) == x,
        (y * width + x) / (width as int) == y,
{
    lemma_fundamental_div_mod_converse(y * width + x, width as int, y, x);
    lemma_mul_is_commutative(y, width as int);
    assert(y * width + x < width * height) by (nonlinear_arith)
        requires
            0 <= x < width,
            0 <= y < height,
    ;
    assert(0 <= y * width) by (nonlinear_arith)
        requires
            0 <= y,
            0 <= width,
    ;
}

/// The four bytes of the pixel at a position lie within the storage.
proof fn lemma_cell(width: nat, height: nat, x: int, y: int)
    requires
        0 <= x < width,
        0 <= y < height,
    ensures
        0 <= y * width <= y * width + x < width * height,
        4 * (y * width + x) + 3 < 4 * width * height,
        (y * width + x) % (width as int) == x,
        (y * width + x) / (width as int) == y,
{
    lemma_index(width, height, x, y);
    assert(0 <= y * width) by (nonlinear_arith)
        requires
            0 <= y,
            0 <= width,
    ;
    assert(4 * width * height == 4 * (width * height)) by (nonlinear_arith);
}

/// Every index of the row-major storage is the index of a position.
pub proof fn lemma_position(width: nat, height: nat, i: int)
    requires
        0 <= i < width * height,
    ensures
        0 <= i % (width as int) < width,
        0 <= i / (width as int) < height,
        (i / (width as int)) * width + i % (width as int) == i,
{
    assert(width > 0) by (nonlinear_arith)
        requires
            0 <= i < width * height,
    ;
    lemma_fundamental_div_mod(i, width as int);
    lemma_mul_is_commutative(i / (width as int), width as int);
    let q = i / (width as int);
    let r = i % (width as int);
    assert(0 <= q < height) by (nonlinear_arith)
        requires
            0 <= r < width,
            q * width + r == i,
            0 <= i < width * height,
    ;
}

/// A tabulated grid is well formed and holds `f(x, y)` at `(x, y)`.
pub proof fn lemma_tabulate(width: nat, height: nat, f: spec_fn(int, int) -> Rgba)
    ensures
        Raster::tabulate(width, height, f).wf(),
        Raster::tabulate(width, height, f).width == width,
        Raster::tabulate(width, height, f).height == height,
        forall|x: int, y: int|
            0 <= x < width && 0 <= y < height ==> #[trigger] Raster::tabulate(width, height, f).at(
                x,
                y,
            ) == f(x, y),
{
    let t = Raster::tabulate(width, height, f);
    assert forall|x: int, y: int| 0 <= x < width && 0 <= y < height implies #[trigger] t.at(x, y)
        == f(x, y) by {
        lemma_index(width, height, x, y);
    }
}

/// Two well-formed grids of one size that agree at every position are
/// the same grid.
pub proof fn lemma_same(a: Raster, b: Raster)
    requires
        a.wf(),
        b.wf(),
        a.width == b.width,
        a.height == b.height,
        forall|x: int, y: int| a.holds(x, y) ==> #[trigger] a.at(x, y) == b.at(x, y),
    ensures
        a == b,
{
    assert forall|i: int| 0 <= i < a.pixels.len() implies a.pixels[i] == b.pixels[i] by {
        lemma_position(a.width, a.height, i);
        let x = i % (a.width as int);
        let y = i / (a.width as int);
        assert(a.holds(x, y));
        assert(a.at(x, y) == b.at(x, y));
    }
    assert(a.pixels =~= b.pixels);
}

/// Replacing one pixel changes that position and no other.
pub proof fn lemma_with(r: Raster, x: int, y: int, p: Rgba)
    requires
        r.wf(),
        r.holds(x, y),
    ensures
        r.with(x, y, p).wf(),
        r.with(x, y, p).width == r.width,
        r.with(x, y, p).height == r.height,
        r.with(x, y, p).at(x, y) == p,
        forall|u: int, v: int|
            r.holds(u, v) && (u != x || v != y) ==> #[trigger] r.with(x, y, p).at(u, v) == r.at(
                u,
                v,
            ),
{
    lemma_index(r.width, r.height, x, y);
    assert forall|u: int, v: int| r.holds(u, v) && (u != x || v != y) implies #[trigger] r.with(
        x,
        y,
        p,
    ).at(u, v) == r.at(u, v) by {
        lemma_index(r.width, r.height, u, v);
    }
}

/// An RGBA image: `width × height` pixels of four bytes, row by row from
/// the top.
#[derive(Debug)]
pub struct Image {
    width: u32,
    height: u32,
    data: Vec<u8>,
}

impl Clone for Image {
    fn clone(&self) -> (out: Image)
        ensures
            out@ == self@,
    {
        proof {
            use_type_invariant(self);
        }
        Image { width: self.width, height: self.height, data: self.data.clone() }
    }
}

/// The pixel that starts at byte `4 * i` of `data`.
pub open spec fn pixel_of(data: Seq<u8>, i: int) -> Rgba {
    Rgba { r: data[4 * i], g: data[4 * i + 1], b: data[4 * i + 2], a: data[4 * i + 3] }
}

impl View for Image {
    type V = Raster;

    closed spec fn view(&self) -> Raster {
        Raster {
            width: self.width as nat,
            height: self.height as nat,
            pixels: Seq::new(
                (self.width as nat) * (self.height as nat),
                |i: int| pixel_of(self.data@, i),
            ),
        }
    }
}

impl Image {
    #[verifier::type_invariant]
    spec fn well_sized(self) -> bool {
        &&& self.data@.len() == 4 * (self.width as nat) * (self.height as nat)
        &&& Image::fits(self.width, self.height)
    }

    /// The model of an image is always a well-formed grid.
    pub proof fn lemma_view_wf(&self)
        ensures
            self@.wf(),
            self@.width <= u32::MAX,
            self@.height <= u32::MAX,
    {
    }

    /// Whether an image of this size can be held in memory at all.
    pub open spec fn fits(width: u32, height: u32) -> bool {
        4 * (width as nat) * (height as nat) <= usize::MAX
    }

    /// A fully transparent image of the given size.
    pub fn new(width: u32, height: u32) -> (out: Image)
        requires
            Image::fits(width, height),
        ensures
            out@ == Raster::filled(width as nat, height as nat, Rgba::transparent()),
    {
        assert((width as nat) * (height as nat) <= usize::MAX) by (nonlinear_arith)
            requires
                4 * (width as nat) * (height as nat) <= usize::MAX,
        ;
        let cells: usize = (width as usize) * (height as usize);
        assert(4 * cells == 4 * (width as nat) * (height as nat)) by (nonlinear_arith)
            requires
                cells == (width as nat) * (height as nat),
        ;
        let data: Vec<u8> = vec![0u8; 4 * cells];
        let out = Image { width, height, data };
        proof {
            assert(out@.pixels =~= Raster::filled(
                width as nat,
                height as nat,
                Rgba::transparent(),
            ).pixels);
        }
        out
    }

    /// An image over the given bytes, four per pixel and row by row, if
    /// there are exactly as many as the size asks for.
    pub fn from_raw(width: u32, height: u32, data: Vec<u8>) -> (out: Option<Image>)
        ensures
            out is Some <==> data@.len() == 4 * (width as nat) * (height as nat),
            out matches Some(img) ==> img@.width == width && img@.height == height && img@.wf()
                && forall|i: int|
                0 <= i < (width as nat) * (height as nat) ==> #[trigger] img@.pixels[i] == pixel_of(
                    data@,
                    i,
                ),
    {
        assert(4 * (width as nat) * (height as nat) <= 4 * 0x1_0000_0000 * 0x1_0000_0000)
            by (nonlinear_arith)
            requires
                width <= 0xffff_ffff,
                height <= 0xffff_ffff,
        ;
        assert(0 <= 4 * (width as nat) <= 4 * 0x1_0000_0000);
        let wide: u128 = 4 * (width as u128) * (height as u128);
        if data.len() as u128 == wide {
            Some(Image { width, height, data })
        } else {
            None
        }
    }

    /// The bytes of the image, four per pixel and row by row.
    pub fn into_raw(self) -> (data: Vec<u8>)
        ensures
            data@.len() == 4 * self@.width * self@.height,
            forall|i: int|
                0 <= i < self@.width * self@.height ==> #[trigger] self@.pixels[i] == pixel_of(
                    data@,
                    i,
                ),
    {
        proof {
            use_type_invariant(&self);
        }
        self.data
    }

    /// The number of columns.
    pub fn width(&self) -> (w: u32)
        ensures
            w == self@.width,
    {
        self.width
    }

    /// The number of rows.
    pub fn height(&self) -> (h: u32)
        ensures
            h == self@.height,
    {
        self.height
    }

    /// The pixel in column `x` of row `y`.
    pub fn get_pixel(&self, x: u32, y: u32) -> (p: Rgba)
        requires
            self@.holds(x as int, y as int),
        ensures
            p == self@.at(x as int, y as int),
    {
        proof {
            use_type_invariant(self);
            lemma_cell(self.width as nat, self.height as nat, x as int, y as int);
        }
        let i: usize = (y as usize) * (self.width as usize) + (x as usize);
        Rgba {
            r: self.data[4 * i],
            g: self.data[4 * i + 1],
            b: self.data[4 * i + 2],
            a: self.data[4 * i + 3],
        }
    }

    /// Replaces the pixel in column `x` of row `y`.
    pub fn put_pixel(&mut self, x: u32, y: u32, p: Rgba)
        requires
            old(self)@.holds(x as int, y as int),
        ensures
            final(self)@ == old(self)@.with(x as int, y as int, p),
    {
        proof {
            use_type_invariant(&*self);
            lemma_cell(self.width as nat, self.height as nat, x as int, y as int);
        }
        let i: usize = (y as usize) * (self.width as usize) + (x as usize);
        self.data[4 * i] = p.r;
        self.data[4 * i + 1] = p.g;
        self.data[4 * i + 2] = p.b;
        self.data[4 * i + 3] = p.a;
        proof {
            let before = old(self).data@;
            let after = self.data@;
            let want = old(self)@.with(x as int, y as int, p).pixels;
            assert(after.len() == before.len());
            assert forall|j: int| 0 <= j < self@.pixels.len() implies self@.pixels[j] == want[j] by {
                assert(4 * j + 3 < 4 * (self.width as nat) * (self.height as nat))
                    by (nonlinear_arith)
                    requires
                        0 <= j < (self.width as nat) * (self.height as nat),
                ;
                if j != i {
                    assert(pixel_of(after, j) == pixel_of(before, j));
                } else {
                    assert(pixel_of(after, j) == p);
                }
            }
            assert(self@.pixels =~= want);
        }
    }
}

/// The smaller of two numbers.
pub open spec fn least(a: int, b: int) -> int {
    if a <= b {
        a
    } else {
        b
    }
}

impl Raster {
    /// The part of the grid inside the rectangle with corner `(x, y)` and
    /// the given size. A rectangle that reaches past the grid is cut back
    /// to what the grid holds.
    pub open spec fn cropped(self, x: nat, y: nat, width: nat, height: nat) -> Raster {
        let x0 = least(x as int, self.width as int);
        let y0 = least(y as int, self.height as int);
        Raster::tabulate(
            least(width as int, self.width - x0) as nat,
            least(height as int, self.height - y0) as nat,
            |u: int, v: int| self.at(x0 + u, y0 + v),
        )
    }

    /// The mirror image, left and right exchanged.
    pub open spec fn flipped_horizontal(self) -> Raster {
        Raster::tabulate(self.width, self.height, |u: int, v: int| self.at(self.width - 1 - u, v))
    }

    /// The mirror image, top and bottom exchanged.
    pub open spec fn flipped_vertical(self) -> Raster {
        Raster::tabulate(
            self.width,
            self.height,
            |u: int, v: int| self.at(u, self.height - 1 - v),
        )
    }

    /// The grid turned a quarter clockwise: the left column becomes the
    /// top row.
    pub open spec fn rotated90(self) -> Raster {
        Raster::tabulate(
            self.height,
            self.width,
            |u: int, v: int| self.at(v, self.height - 1 - u),
        )
    }

    /// The grid turned upside down.
    pub open spec fn rotated180(self) -> Raster {
        Raster::tabulate(
            self.width,
            self.height,
            |u: int, v: int| self.at(self.width - 1 - u, self.height - 1 - v),
        )
    }

    /// The grid turned three quarters clockwise: the top row becomes the
    /// left column.
    pub open spec fn rotated270(self) -> Raster {
        Raster::tabulate(self.height, self.width, |u: int, v: int| self.at(self.width - 1 - v, u))
    }
}

/// Where each pixel of a rearranged image comes from.
#[derive(Clone, Copy)]
enum Layout {
    Shifted { x: u32, y: u32 },
    FlipHorizontal,
    FlipVertical,
    Rotate90,
    Rotate180,
    Rotate270,
}

impl Layout {
    spec fn source_x(self, src: Raster, u: int, v: int) -> int {
        match self {
            Layout::Shifted { x, y } => x + u,
            Layout::FlipHorizontal => src.width - 1 - u,
            Layout::FlipVertical => u,
            Layout::Rotate90 => v,
            Layout::Rotate180 => src.width - 1 - u,
            Layout::Rotate270 => src.width - 1 - v,
        }
    }

    spec fn source_y(self, src: Raster, u: int, v: int) -> int {
        match self {
            Layout::Shifted { x, y } => y + v,
            Layout::FlipHorizontal => v,
            Layout::FlipVertical => src.height - 1 - v,
            Layout::Rotate90 => src.height - 1 - u,
            Layout::Rotate180 => src.height - 1 - v,
            Layout::Rotate270 => u,
        }
    }

    /// Whether every pixel of a `width × height` result comes from a
    /// position of `src`.
    spec fn suits(self, src: Raster, width: nat, height: nat) -> bool {
        match self {
            Layout::Shifted { x, y } => x + width <= src.width && y + height <= src.height,
            Layout::FlipHorizontal => width == src.width && height == src.height,
            Layout::FlipVertical => width == src.width && height == src.height,
            Layout::Rotate90 => width == src.height && height == src.width,
            Layout::Rotate180 => width == src.width && height == src.height,
            Layout::Rotate270 => width == src.height && height == src.width,
        }
    }
}

impl Image {
    /// The image of the given size whose pixel at `(u, v)` is the pixel of
    /// `self` that `layout` names.
    fn rearranged(&self, layout: Layout, width: u32, height: u32) -> (out: Image)
        requires
            layout.suits(self@, width as nat, height as nat),
        ensures
            out@.wf(),
            out@.width == width,
            out@.height == height,
            forall|u: int, v: int|
                0 <= u < width && 0 <= v < height ==> #[trigger] out@.at(u, v) == self@.at(
                    layout.source_x(self@, u, v),
                    layout.source_y(self@, u, v),
                ),
    {
        proof {
            use_type_invariant(self);
            assert((width as nat) * (height as nat) <= (self.width as nat) * (self.height as nat))
                by (nonlinear_arith)
                requires
                    (width <= self.width && height <= self.height) || (width <= self.height
                        && height <= self.width),
            ;
            assert(4 * (width as nat) * (height as nat) == 4 * ((width as nat) * (height as nat)))
                by (nonlinear_arith);
            assert(4 * (self.width as nat) * (self.height as nat) == 4 * ((self.width as nat) * (
            self.height as nat))) by (nonlinear_arith);
        }
        let mut out = Image::new(width, height);
        proof {
            lemma_tabulate(width as nat, height as nat, |x: int, y: int| Rgba::transparent());
        }
        let mut v: u32 = 0;
        while v < height
            invariant
                v <= height,
                layout.suits(self@, width as nat, height as nat),
                self@.width == self.width,
                self@.height == self.height,
                out@.wf(),
                out@.width == width,
                out@.height == height,
                forall|a: int, b: int|
                    0 <= a < width && 0 <= b < v ==> #[trigger] out@.at(a, b) == self@.at(
                        layout.source_x(self@, a, b),
                        layout.source_y(self@, a, b),
                    ),
            decreases height - v,
        {
            let mut u: u32 = 0;
            while u < width
                invariant
                    u <= width,
                    v < height,
                    layout.suits(self@, width as nat, height as nat),
                    self@.width == self.width,
                    self@.height == self.height,
                    out@.wf(),
                    out@.width == width,
                    out@.height == height,
                    forall|a: int, b: int|
                        0 <= a < width && (0 <= b < v || (b == v && a < u)) ==> #[trigger] out@.at(
                            a,
                            b,
                        ) == self@.at(
                            layout.source_x(self@, a, b),
                            layout.source_y(self@, a, b),
                        ),
                decreases width - u,
            {
                let (sx, sy): (u32, u32) = match layout {
                    Layout::Shifted { x, y } => (x + u, y + v),
                    Layout::FlipHorizontal => (self.width - 1 - u, v),
                    Layout::FlipVertical => (u, self.height - 1 - v),
                    Layout::Rotate90 => (v, self.height - 1 - u),
                    Layout::Rotate180 => (self.width - 1 - u, self.height - 1 - v),
                    Layout::Rotate270 => (self.width - 1 - v, u),
                };
                let p = self.get_pixel(sx, sy);
                proof {
                    lemma_with(out@, u as int, v as int, p);
                }
                out.put_pixel(u, v, p);
                u += 1;
            }
            v += 1;
        }
        out
    }

    /// Copies the part of the image inside the rectangle with corner
    /// `(x, y)` and the given size, cut back to what the image holds.
    pub fn crop(&self, x: u32, y: u32, width: u32, height: u32) -> (out: Image)
        ensures
            out@ == self@.cropped(x as nat, y as nat, width as nat, height as nat),
    {
        let x0 = if x <= self.width {
            x
        } else {
            self.width
        };
        let y0 = if y <= self.height {
            y
        } else {
            self.height
        };
        let w = if width <= self.width - x0 {
            width
        } else {
            self.width - x0
        };
        let h = if height <= self.height - y0 {
            height
        } else {
            self.height - y0
        };
        let out = self.rearranged(Layout::Shifted { x: x0, y: y0 }, w, h);
        proof {
            let want = self@.cropped(x as nat, y as nat, width as nat, height as nat);
            lemma_tabulate(w as nat, h as nat, |u: int, v: int| self@.at(x0 + u, y0 + v));
            lemma_same(out@, want);
        }
        out
    }

    /// The mirror image, left and right exchanged.
    pub fn flip_horizontal(&self) -> (out: Image)
        ensures
            out@ == self@.flipped_horizontal(),
    {
        let out = self.rearranged(Layout::FlipHorizontal, self.width, self.height);
        proof {
            lemma_tabulate(
                self@.width,
                self@.height,
                |u: int, v: int| self@.at(self@.width - 1 - u, v),
            );
            lemma_same(out@, self@.flipped_horizontal());
        }
        out
    }

    /// The mirror image, top and bottom exchanged.
    pub fn flip_vertical(&self) -> (out: Image)
        ensures
            out@ == self@.flipped_vertical(),
    {
        let out = self.rearranged(Layout::FlipVertical, self.width, self.height);
        proof {
            lemma_tabulate(
                self@.width,
                self@.height,
                |u: int, v: int| self@.at(u, self@.height - 1 - v),
            );
            lemma_same(out@, self@.flipped_vertical());
        }
        out
    }

    /// The image turned a quarter clockwise.
    pub fn rotate90(&self) -> (out: Image)
        ensures
            out@ == self@.rotated90(),
    {
        let out = self.rearranged(Layout::Rotate90, self.height, self.width);
        proof {
            lemma_tabulate(
                self@.height,
                self@.width,
                |u: int, v: int| self@.at(v, self@.height - 1 - u),
            );
            lemma_same(out@, self@.rotated90());
        }
        out
    }

    /// The image turned upside down.
    pub fn rotate180(&self) -> (out: Image)
        ensures
            out@ == self@.rotated180(),
    {
        let out = self.rearranged(Layout::Rotate180, self.width, self.height);
        proof {
            lemma_tabulate(
                self@.width,
                self@.height,
                |u: int, v: int| self@.at(self@.width - 1 - u, self@.height - 1 - v),
            );
            lemma_same(out@, self@.rotated180());
        }
        out
    }

    /// The image turned three quarters clockwise.
    pub fn rotate270(&self) -> (out: Image)
        ensures
            out@ == self@.rotated270(),
    {
        let out = self.rearranged(Layout::Rotate270, self.height, self.width);
        proof {
            lemma_tabulate(
                self@.height,
                self@.width,
                |u: int, v: int| self@.at(self@.width - 1 - v, u),
            );
            lemma_same(out@, self@.rotated270());
        }
        out
    }
}

/// The pixel that `Pixel::blend` of the `image` crate makes of `bottom`
/// when the partly transparent pixel `top` is blended onto it. This is
/// what `image::imageops::overlay` does to every pixel that it covers.
pub uninterp spec fn composited(bottom: Rgba, top: Rgba) -> Rgba;

/// What drawing `top` over `bottom` leaves: a fully transparent pixel
/// leaves what was there, a fully opaque one replaces it, and anything in
/// between is composited.
pub open spec fn drawn_over(bottom: Rgba, top: Rgba) -> Rgba {
    if top.a == 0 {
        bottom
    } else if top.a == 255 {
        top
    } else {
        composited(bottom, top)
    }
}

impl Raster {
    /// This grid after `top` is drawn over it with its corner at `(x, y)`.
    /// Whatever of `top` falls outside the grid is left out.
    pub open spec fn overlaid(self, top: Raster, x: int, y: int) -> Raster {
        Raster::tabulate(
            self.width,
            self.height,
            |u: int, v: int|
                if top.holds(u - x, v - y) {
                    drawn_over(self.at(u, v), top.at(u - x, v - y))
                } else {
                    self.at(u, v)
                },
        )
    }
}

/// Calls `image::imageops::overlay` on the two pixel buffers.
///
/// Trusted: the size of `bottom` stays as it is; each of its pixels that
/// `top`, placed at `(x, y)`, does not cover is unchanged; each covered
/// pixel is unchanged under a fully transparent pixel of `top`, replaced
/// under a fully opaque one, and otherwise becomes what the crate's alpha
/// compositing of the two pixels gives.
#[verifier::external_body]
fn overlay_buffers(bottom: &mut Image, top: &Image, x: i64, y: i64)
    ensures
        final(bottom).width == old(bottom).width,
        final(bottom).height == old(bottom).height,
        final(bottom).data@.len() == old(bottom).data@.len(),
        forall|u: int, v: int|
            #![trigger final(bottom)@.at(u, v)]
            old(bottom)@.holds(u, v) ==> final(bottom)@.at(u, v) == (if !top@.holds(u - x, v - y)
                || top@.at(u - x, v - y).a == 0 {
                old(bottom)@.at(u, v)
            } else if top@.at(u - x, v - y).a == 255 {
                top@.at(u - x, v - y)
            } else {
                composited(old(bottom)@.at(u, v), top@.at(u - x, v - y))
            }),
{
    let data = std::mem::take(&mut bottom.data);
    let mut canvas = image::RgbaImage::from_raw(bottom.width, bottom.height, data).unwrap();
    let layer = image::ImageBuffer::<image::Rgba<u8>, &[u8]>::from_raw(
        top.width,
        top.height,
        top.data.as_slice(),
    ).unwrap();
    image::imageops::overlay(&mut canvas, &layer, x, y);
    bottom.data = canvas.into_raw();
}

impl Image {
    /// Draws `top` over this image with its corner at `(x, y)`, which may
    /// lie outside the image.
    pub fn overlay(&mut self, top: &Image, x: i64, y: i64)
        ensures
            final(self)@ == old(self)@.overlaid(top@, x as int, y as int),
    {
        overlay_buffers(self, top, x, y);
        proof {
            let base = old(self)@;
            let layer = top@;
            lemma_tabulate(
                base.width,
                base.height,
                |u: int, v: int|
                    if layer.holds(u - x, v - y) {
                        drawn_over(base.at(u, v), layer.at(u - x, v - y))
                    } else {
                        base.at(u, v)
                    },
            );
            lemma_same(self@, base.overlaid(layer, x as int, y as int));
        }
    }
}

} // verus!
