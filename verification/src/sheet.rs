//! From composed entries to a sprite sheet: the frame rectangle of a unit,
//! the normalizing of frames to it, and the tiling of frames into a sheet.

use vstd::prelude::*;
use vstd::string::*;
use crate::cgs::{CompositeFrame, CompositeView};
use crate::constants::FRAME_PADDING;
use crate::error::FfbeError;
use crate::imageops::Rect;
use crate::raster::{drawn_over, lemma_tabulate, Image, Raster, Rgba};
use crate::unit::Unit;

verus! {

impl Unit {
    /// The frame rectangle of the unit: its bounds, widened by the
    /// padding.
    pub open spec fn frame_rect(self) -> Rect {
        let tl = self.top_left.unwrap();
        let br = self.bottom_right.unwrap();
        Rect {
            x: tl.0 as u32,
            y: tl.1 as u32,
            width: (br.0 - tl.0 + FRAME_PADDING) as u32,
            height: (br.1 - tl.1 + FRAME_PADDING) as u32,
        }
    }
}

/// The frame rectangle of `unit`. A unit without bounds, one of which no
/// frame had visible content, has none: the missing corner is reported.
pub fn calculate_frame_rect(unit: &Unit) -> (res: Result<Rect, FfbeError>)
    requires
        unit.bounds_ordered(),
    ensures
        match res {
            Ok(rect) => unit.top_left is Some && unit.bottom_right is Some && rect
                == unit.frame_rect(),
            Err(e) => e matches FfbeError::MissingValue(name) && if unit.top_left is None {
                name@ == "top_left"@
            } else {
                unit.bottom_right is None && name@ == "bottom_right"@
            },
        },
{
    let top_left = match unit.top_left {
        Some(p) => p,
        None => {
            return Err(FfbeError::MissingValue(String::from_str("top_left")));
        },
    };
    let bottom_right = match unit.bottom_right {
        Some(p) => p,
        None => {
            return Err(FfbeError::MissingValue(String::from_str("bottom_right")));
        },
    };
    Ok(
        Rect {
            x: top_left.x() as u32,
            y: top_left.y() as u32,
            width: (bottom_right.x() - top_left.x()) as u32 + FRAME_PADDING,
            height: (bottom_right.y() - top_left.y()) as u32 + FRAME_PADDING,
        },
    )
}

impl CompositeView {
    /// Whether this is the one-pixel placeholder of an entry without
    /// visible content.
    pub open spec fn is_placeholder(self) -> bool {
        self.image.width == 1 && self.image.height == 1
    }

    /// A placeholder becomes a transparent frame that fills `rect`; any
    /// other entry stays as it is.
    pub open spec fn resized(self, rect: Rect) -> CompositeView {
        if self.is_placeholder() {
            CompositeView {
                frame_idx: self.frame_idx,
                image: Raster::filled(
                    rect.width as nat,
                    rect.height as nat,
                    Rgba::transparent(),
                ),
                rect,
                delay: self.delay,
            }
        } else {
            self
        }
    }

    /// An entry whose image is wider or taller than `rect` is cut to
    /// `rect`; a smaller one stays as it is, and is never padded.
    pub open spec fn cropped_to(self, rect: Rect) -> CompositeView {
        if self.image.width > rect.width || self.image.height > rect.height {
            CompositeView {
                frame_idx: self.frame_idx,
                image: self.image.cropped(
                    rect.x as nat,
                    rect.y as nat,
                    rect.width as nat,
                    rect.height as nat,
                ),
                rect: self.rect,
                delay: self.delay,
            }
        } else {
            self
        }
    }
}

/// Replaces every placeholder among `frames` by a transparent frame of the
/// size of `frame_rect`.
pub fn resize_empty_frames_to_bounds(frames: &mut [CompositeFrame], frame_rect: &Rect)
    requires
        Image::fits(frame_rect.width, frame_rect.height),
    ensures
        final(frames)@.len() == old(frames)@.len(),
        forall|i: int|
            0 <= i < old(frames)@.len() ==> (#[trigger] final(frames)@[i])@ == old(
                frames,
            )@[i]@.resized(*frame_rect),
{
    let n = frames.len();
    let mut i: usize = 0;
    while i < n
        invariant
            n == frames@.len() == old(frames)@.len(),
            i <= n,
            Image::fits(frame_rect.width, frame_rect.height),
            forall|k: int|
                0 <= k < i ==> (#[trigger] frames@[k])@ == old(frames)@[k]@.resized(*frame_rect),
            forall|k: int| i <= k < n ==> (#[trigger] frames@[k]) == old(frames)@[k],
        decreases n - i,
    {
        if frames[i].image.width() == 1 && frames[i].image.height() == 1 {
            let full_frame = Image::new(frame_rect.width, frame_rect.height);
            let frame_idx = frames[i].frame_idx;
            let delay = frames[i].delay;
            frames[i] = CompositeFrame { frame_idx, image: full_frame, rect: *frame_rect, delay };
        }
        i += 1;
    }
}

/// Cuts every frame that is larger than `frame_rect` down to it.
pub fn crop_frames_to_bounds(frames: &mut [CompositeFrame], frame_rect: &Rect)
    ensures
        final(frames)@.len() == old(frames)@.len(),
        forall|i: int|
            0 <= i < old(frames)@.len() ==> (#[trigger] final(frames)@[i])@ == old(
                frames,
            )@[i]@.cropped_to(*frame_rect),
{
    let n = frames.len();
    let mut i: usize = 0;
    while i < n
        invariant
            n == frames@.len() == old(frames)@.len(),
            i <= n,
            forall|k: int|
                0 <= k < i ==> (#[trigger] frames@[k])@ == old(frames)@[k]@.cropped_to(
                    *frame_rect,
                ),
            forall|k: int| i <= k < n ==> (#[trigger] frames@[k]) == old(frames)@[k],
        decreases n - i,
    {
        if frames[i].image.width() > frame_rect.width || frames[i].image.height()
            > frame_rect.height {
            let image = frames[i].image.crop(
                frame_rect.x,
                frame_rect.y,
                frame_rect.width,
                frame_rect.height,
            );
            let frame_idx = frames[i].frame_idx;
            let rect = frames[i].rect;
            let delay = frames[i].delay;
            frames[i] = CompositeFrame { frame_idx, image, rect, delay };
        }
        i += 1;
    }
}

/// Whether `count` frames in `columns` requested columns go into a single
/// row: no column count was asked for, or one that holds them all.
pub open spec fn single_row(count: nat, columns: nat) -> bool {
    columns == 0 || columns >= count
}

/// The number of columns of the sheet.
pub open spec fn sheet_columns(count: nat, columns: nat) -> nat {
    if single_row(count, columns) {
        count
    } else {
        columns
    }
}

/// The number of rows of the sheet: as many as it takes to hold every
/// frame, the last row possibly not full.
pub open spec fn sheet_rows(count: nat, columns: nat) -> nat {
    if single_row(count, columns) {
        1
    } else {
        ((count + columns - 1) / (columns as int)) as nat
    }
}

/// The sheet after its first `n` frames are placed: frame `i` goes to
/// column `i mod cols` of row `i / cols`, cells are of the size of `rect`
/// and lie side by side without gaps.
pub open spec fn tiled(
    frames: Seq<CompositeView>,
    rect: Rect,
    cols: nat,
    rows: nat,
    n: nat,
) -> Raster
    decreases n,
{
    if n == 0 {
        Raster::filled((rect.width * cols) as nat, (rect.height * rows) as nat, Rgba::transparent())
    } else {
        let i = n - 1;
        tiled(frames, rect, cols, rows, i as nat).overlaid(
            frames[i].image,
            (i % (cols as int)) * rect.width,
            (i / (cols as int)) * rect.height,
        )
    }
}

/// The sprite sheet of `frames` with cells of the size of `rect`.
pub open spec fn sheet(frames: Seq<CompositeView>, rect: Rect, columns: nat) -> Raster {
    tiled(
        frames,
        rect,
        sheet_columns(frames.len(), columns),
        sheet_rows(frames.len(), columns),
        frames.len(),
    )
}

/// Whether a sheet of `cols × rows` cells of the size of `rect` can be
/// held in memory.
pub open spec fn sheet_fits(rect: Rect, cols: nat, rows: nat) -> bool {
    &&& rect.width * cols <= u32::MAX
    &&& rect.height * rows <= u32::MAX
    &&& 4 * (rect.width * cols) * (rect.height * rows) <= usize::MAX
}

/// Placing frames never changes the size of the sheet.
pub proof fn lemma_tiled_size(frames: Seq<CompositeView>, rect: Rect, cols: nat, rows: nat, n: nat)
    ensures
        tiled(frames, rect, cols, rows, n).width == rect.width * cols,
        tiled(frames, rect, cols, rows, n).height == rect.height * rows,
        tiled(frames, rect, cols, rows, n).wf(),
    decreases n,
{
    if n == 0 {
        lemma_tabulate(
            (rect.width * cols) as nat,
            (rect.height * rows) as nat,
            |u: int, v: int| Rgba::transparent(),
        );
    } else {
        let i = n - 1;
        lemma_tiled_size(frames, rect, cols, rows, i as nat);
        let under = tiled(frames, rect, cols, rows, i as nat);
        let top = frames[i].image;
        let px = (i % (cols as int)) * rect.width;
        let py = (i / (cols as int)) * rect.height;
        lemma_tabulate(
            under.width,
            under.height,
            |u: int, v: int|
                if top.holds(u - px, v - py) {
                    drawn_over(under.at(u, v), top.at(u - px, v - py))
                } else {
                    under.at(u, v)
                },
        );
    }
}

/// Tiles `frames` into a sheet of `cols × rows` cells.
fn tile(frames: &[CompositeFrame], frame_rect: &Rect, cols: usize, rows: usize) -> (out: Image)
    requires
        sheet_fits(*frame_rect, cols as nat, rows as nat),
        frames@.len() > 0 ==> cols > 0,
        frames@.len() <= cols * rows,
    ensures
        out@ == tiled(
            crate::cgs::composite_views(frames@),
            *frame_rect,
            cols as nat,
            rows as nat,
            frames@.len(),
        ),
{
    let ghost views = crate::cgs::composite_views(frames@);
    let width: u32 = (frame_rect.width as u64 * cols as u64) as u32;
    let height: u32 = (frame_rect.height as u64 * rows as u64) as u32;
    let mut out = Image::new(width, height);
    let n = frames.len();
    let mut idx: usize = 0;
    while idx < n
        invariant
            n == frames@.len(),
            idx <= n,
            n > 0 ==> cols > 0,
            n <= cols * rows,
            sheet_fits(*frame_rect, cols as nat, rows as nat),
            views == crate::cgs::composite_views(frames@),
            out@ == tiled(views, *frame_rect, cols as nat, rows as nat, idx as nat),
        decreases n - idx,
    {
        let col = idx % cols;
        let row = idx / cols;
        proof {
            assert(row < rows) by (nonlinear_arith)
                requires
                    idx < cols * rows,
                    row == idx / cols,
                    cols > 0,
            ;
            assert(col * frame_rect.width <= cols * frame_rect.width) by (nonlinear_arith)
                requires
                    col < cols,
            ;
            assert(row * frame_rect.height <= rows * frame_rect.height) by (nonlinear_arith)
                requires
                    row < rows,
            ;
            assert(cols * frame_rect.width == frame_rect.width * cols) by (nonlinear_arith);
            assert(rows * frame_rect.height == frame_rect.height * rows) by (nonlinear_arith);
            assert(0 <= col * frame_rect.width) by (nonlinear_arith)
                requires
                    0 <= col,
            ;
            assert(0 <= row * frame_rect.height) by (nonlinear_arith)
                requires
                    0 <= row,
            ;
        }
        let x: u64 = col as u64 * frame_rect.width as u64;
        let y: u64 = row as u64 * frame_rect.height as u64;
        out.overlay(&frames[idx].image, x as i64, y as i64);
        idx += 1;
    }
    out
}

/// Tiles `frames` into a single row, frame `i` at column `i`.
pub fn create_single_row_spritesheet(frames: &[CompositeFrame], frame_rect: &Rect) -> (out:
    Image)
    requires
        sheet_fits(*frame_rect, frames@.len(), 1),
    ensures
        out@ == sheet(crate::cgs::composite_views(frames@), *frame_rect, 0),
        out@.width == frame_rect.width * frames@.len(),
        out@.height == frame_rect.height,
{
    proof {
        lemma_tiled_size(
            crate::cgs::composite_views(frames@),
            *frame_rect,
            frames@.len(),
            1,
            frames@.len(),
        );
    }
    tile(frames, frame_rect, frames.len(), 1)
}

/// The number of rows that hold `count` frames in `columns` columns.
pub fn rows_needed(count: usize, columns: usize) -> (rows: usize)
    requires
        columns > 0,
    ensures
        rows == (count + columns - 1) / (columns as int),
        count <= columns * rows,
        rows <= count,
{
    let whole = count / columns;
    let ghost q = count as int / columns as int;
    let ghost r = count as int % columns as int;
    proof {
        vstd::arithmetic::div_mod::lemma_fundamental_div_mod(count as int, columns as int);
        assert(0 <= q <= count && (r != 0 ==> q < count)) by (nonlinear_arith)
            requires
                count == columns * q + r,
                0 <= r < columns,
                columns > 0,
                count >= 0,
        ;
    }
    let rows = if count % columns == 0 {
        whole
    } else {
        whole + 1
    };
    proof {
        if r == 0 {
            assert(count + columns - 1 == q * columns + (columns - 1)) by (nonlinear_arith)
                requires
                    count == columns * q + r,
                    r == 0,
            ;
            vstd::arithmetic::div_mod::lemma_fundamental_div_mod_converse(
                count + columns - 1,
                columns as int,
                q,
                columns - 1,
            );
            assert(columns * rows == count) by (nonlinear_arith)
                requires
                    count == columns * q + r,
                    r == 0,
                    rows == q,
            ;
        } else {
            assert(count + columns - 1 == (q + 1) * columns + (r - 1)) by (nonlinear_arith)
                requires
                    count == columns * q + r,
            ;
            vstd::arithmetic::div_mod::lemma_fundamental_div_mod_converse(
                count + columns - 1,
                columns as int,
                q + 1,
                r - 1,
            );
            assert(columns * rows >= count) by (nonlinear_arith)
                requires
                    count == columns * q + r,
                    0 <= r < columns,
                    rows == q + 1,
            ;
        }
    }
    rows
}

/// Tiles `frames` into rows of `columns` frames, the last row possibly
/// not full.
pub fn create_multi_row_spritesheet(
    frames: &[CompositeFrame],
    frame_rect: &Rect,
    columns: usize,
) -> (out: Image)
    requires
        columns > 0,
        sheet_fits(*frame_rect, columns as nat, ((frames@.len() + columns - 1) / (columns as int)) as nat),
    ensures
        out@ == tiled(
            crate::cgs::composite_views(frames@),
            *frame_rect,
            columns as nat,
            ((frames@.len() + columns - 1) / (columns as int)) as nat,
            frames@.len(),
        ),
        out@.width == frame_rect.width * columns,
        out@.height == frame_rect.height * ((frames@.len() + columns - 1) / (columns as int)),
{
    let rows = rows_needed(frames.len(), columns);
    proof {
        lemma_tiled_size(
            crate::cgs::composite_views(frames@),
            *frame_rect,
            columns as nat,
            rows as nat,
            frames@.len(),
        );
    }
    tile(frames, frame_rect, columns, rows)
}

/// Whether the sheet of `count` frames in `columns` requested columns,
/// with cells of the size of `rect`, can be held in memory.
pub open spec fn layout_fits(rect: Rect, count: nat, columns: nat) -> bool {
    sheet_fits(rect, sheet_columns(count, columns), sheet_rows(count, columns))
}

/// Tiles `frames` into a sprite sheet with cells of the size of
/// `frame_rect`: a single row when `columns` is zero or at least the
/// number of frames, rows of `columns` frames otherwise.
pub fn create_spritesheet(frames: &[CompositeFrame], frame_rect: &Rect, columns: usize) -> (out:
    Image)
    requires
        layout_fits(*frame_rect, frames@.len(), columns as nat),
    ensures
        out@ == sheet(crate::cgs::composite_views(frames@), *frame_rect, columns as nat),
        out@.width == frame_rect.width * sheet_columns(frames@.len(), columns as nat),
        out@.height == frame_rect.height * sheet_rows(frames@.len(), columns as nat),
{
    if columns == 0 || columns >= frames.len() {
        let out = create_single_row_spritesheet(frames, frame_rect);
        assert(frame_rect.height * 1 == frame_rect.height) by (nonlinear_arith);
        out
    } else {
        let ghost rows = (frames@.len() + columns - 1) / (columns as int);
        assert(rows >= 0) by (nonlinear_arith)
            requires
                rows == (frames@.len() + columns - 1) / (columns as int),
                columns > 0,
                frames@.len() >= 0,
        ;
        create_multi_row_spritesheet(frames, frame_rect, columns)
    }
}

} // verus!
