//! The frame-sequence table of one animation, and the compositing of its
//! entries onto the canvas.

use vstd::prelude::*;
use vstd::string::*;
use crate::cgg::{FrameParts, PartData};
use crate::error::FfbeError;
use crate::constants::{CANVAS_SIZE, HALF_CANVAS};
use crate::imageops::{BlendExt, ColorBoundsExt, OpacityExt, Rect};
use crate::raster::{lemma_tabulate, Image, Raster, Rgba};
use crate::text::{
    chars_of, decimal, leading_fields, parse_i32, parse_u32, parse_usize, push_decimal, push_span,
    read_i32, read_u32, read_usize, split_fields, Span,
};
use crate::unit::{merge_bounding_box, Unit};

verus! {

/// One entry of an animation: the frame template to show, where to put it,
/// and for how long.
#[derive(Clone)]
pub struct Frame {
    pub frame_idx: usize,
    pub parts: FrameParts,
    pub x: i32,
    pub y: i32,
    pub delay: u32,
}

/// The model of an entry.
pub struct FrameView {
    pub frame_idx: usize,
    pub parts: Seq<PartData>,
    pub x: i32,
    pub y: i32,
    pub delay: u32,
}

impl View for Frame {
    type V = FrameView;

    open spec fn view(&self) -> FrameView {
        FrameView {
            frame_idx: self.frame_idx,
            parts: self.parts@,
            x: self.x,
            y: self.y,
            delay: self.delay,
        }
    }
}

/// The models of entries.
pub open spec fn frame_views(frames: Seq<Frame>) -> Seq<FrameView> {
    Seq::new(frames.len(), |i: int| frames[i]@)
}

/// One composed entry of an animation.
#[derive(Clone)]
pub struct CompositeFrame {
    pub frame_idx: usize,
    pub image: Image,
    pub rect: Rect,
    pub delay: u32,
}

/// The model of a composed entry.
pub struct CompositeView {
    pub frame_idx: usize,
    pub image: Raster,
    pub rect: Rect,
    pub delay: u32,
}

impl View for CompositeFrame {
    type V = CompositeView;

    open spec fn view(&self) -> CompositeView {
        CompositeView {
            frame_idx: self.frame_idx,
            image: self.image@,
            rect: self.rect,
            delay: self.delay,
        }
    }
}

impl Frame {
    /// The composed entry that shows `image`, found at `rect`, in place of
    /// this entry.
    pub fn composite(self, image: Image, rect: Rect) -> (out: CompositeFrame)
        ensures
            out@ == (CompositeView {
                frame_idx: self.frame_idx,
                image: image@,
                rect,
                delay: self.delay,
            }),
    {
        CompositeFrame { frame_idx: self.frame_idx, image, rect, delay: self.delay }
    }
}

/// One line of the sequence table: frame template index, x, y, delay.
#[derive(Clone, Copy, Debug, PartialEq, Eq, Structural)]
pub struct CgsMeta(pub usize, pub i32, pub i32, pub u32);

/// What one line of the sequence table amounts to.
pub enum EntryOutcome {
    /// Not an entry: the caller passes over the line.
    Skip,
    Entry(CgsMeta),
    /// A malformed line, with the text of the report.
    Invalid(Seq<char>),
}

/// The report for a field that is not a number of its type.
pub open spec fn value_error_text(name: Seq<char>, value: Seq<char>) -> Seq<char> {
    "Invalid "@ + name + " value: '"@ + value + "'"@
}

/// What the line `text` amounts to. A line is an entry when it has exactly
/// four leading fields; the first of them that is not a number of its type
/// makes the line malformed.
pub open spec fn entry_outcome(text: Seq<char>) -> EntryOutcome {
    let fields = leading_fields(text);
    if fields.len() != 4 {
        EntryOutcome::Skip
    } else if parse_usize(fields[0]) is None {
        EntryOutcome::Invalid(value_error_text("frame_index"@, fields[0]))
    } else if parse_i32(fields[1]) is None {
        EntryOutcome::Invalid(value_error_text("x"@, fields[1]))
    } else if parse_i32(fields[2]) is None {
        EntryOutcome::Invalid(value_error_text("y"@, fields[2]))
    } else if parse_u32(fields[3]) is None {
        EntryOutcome::Invalid(value_error_text("delay"@, fields[3]))
    } else {
        EntryOutcome::Entry(
            CgsMeta(
                parse_usize(fields[0]).unwrap(),
                parse_i32(fields[1]).unwrap(),
                parse_i32(fields[2]).unwrap(),
                parse_u32(fields[3]).unwrap(),
            ),
        )
    }
}

/// Whether `res` is what `outcome` asks `process` to return.
pub open spec fn agrees(res: Option<Result<CgsMeta, FfbeError>>, outcome: EntryOutcome) -> bool {
    match outcome {
        EntryOutcome::Skip => res is None,
        EntryOutcome::Entry(meta) => res matches Some(Ok(m)) && m == meta,
        EntryOutcome::Invalid(report) => res matches Some(Err(e)) && e.is_parse_error(report),
    }
}

fn value_error(name: &str, text: &str, span: Span) -> (e: FfbeError)
    requires
        span.within(text@),
    ensures
        e.is_parse_error(value_error_text(name@, span.of(text@))),
{
    let mut m = String::from_str("Invalid ");
    m.append(name);
    m.append(" value: '");
    push_span(&mut m, text, span);
    m.append("'");
    FfbeError::ParseError(m)
}

/// Reads one line of the sequence table.
///
/// Returns `None` for a line that is not an entry, the entry for a line of
/// four numbers, and a parse error naming the field for a line of four
/// fields of which one is not a number of its type.
pub fn process(text: &str) -> (res: Option<Result<CgsMeta, FfbeError>>)
    ensures
        agrees(res, entry_outcome(text@)),
{
    let chars = chars_of(text);
    let spans = split_fields(&chars);
    if spans.len() != 4 {
        return None;
    }
    let frame_idx = match read_usize(&chars, spans[0]) {
        Some(v) => v,
        None => {
            return Some(Err(value_error("frame_index", text, spans[0])));
        },
    };
    let x = match read_i32(&chars, spans[1]) {
        Some(v) => v,
        None => {
            return Some(Err(value_error("x", text, spans[1])));
        },
    };
    let y = match read_i32(&chars, spans[2]) {
        Some(v) => v,
        None => {
            return Some(Err(value_error("y", text, spans[2])));
        },
    };
    let delay = match read_u32(&chars, spans[3]) {
        Some(v) => v,
        None => {
            return Some(Err(value_error("delay", text, spans[3])));
        },
    };
    Some(Ok(CgsMeta(frame_idx, x, y, delay)))
}

/// What a whole sequence table amounts to.
pub enum SequenceOutcome {
    /// The entries of the table, in line order.
    Entries(Seq<CgsMeta>),
    /// The report of the first malformed line.
    Invalid(Seq<char>),
}

/// What the first `n` lines of a sequence table amount to: lines that are
/// not entries are passed over, and the first malformed line ends the
/// reading.
pub open spec fn sequence_outcome(lines: Seq<Seq<char>>, n: nat) -> SequenceOutcome
    decreases n,
{
    if n == 0 {
        SequenceOutcome::Entries(Seq::empty())
    } else {
        match sequence_outcome(lines, (n - 1) as nat) {
            SequenceOutcome::Invalid(report) => SequenceOutcome::Invalid(report),
            SequenceOutcome::Entries(entries) => match entry_outcome(lines[n - 1]) {
                EntryOutcome::Skip => SequenceOutcome::Entries(entries),
                EntryOutcome::Entry(meta) => SequenceOutcome::Entries(entries.push(meta)),
                EntryOutcome::Invalid(report) => SequenceOutcome::Invalid(report),
            },
        }
    }
}

/// Once a line is malformed, reading further lines changes nothing.
proof fn lemma_sequence_error(lines: Seq<Seq<char>>, k: nat, n: nat)
    requires
        k <= n,
        sequence_outcome(lines, k) is Invalid,
    ensures
        sequence_outcome(lines, n) == sequence_outcome(lines, k),
    decreases n - k,
{
    if k < n {
        lemma_sequence_error(lines, k, (n - 1) as nat);
    }
}

/// Reads a whole sequence table, one line per element of `lines`.
pub fn process_lines(lines: &Vec<String>) -> (res: Result<Vec<CgsMeta>, FfbeError>)
    ensures
        match sequence_outcome(crate::cgg::texts(lines@), lines@.len()) {
            SequenceOutcome::Entries(entries) => res matches Ok(v) && v@ == entries,
            SequenceOutcome::Invalid(report) => res matches Err(e) && e.is_parse_error(report),
        },
{
    let mut entries: Vec<CgsMeta> = Vec::new();
    let n = lines.len();
    let mut row: usize = 0;
    while row < n
        invariant
            n == lines@.len(),
            row <= n,
            sequence_outcome(crate::cgg::texts(lines@), row as nat) == SequenceOutcome::Entries(
                entries@,
            ),
        decreases n - row,
    {
        match process(lines[row].as_str()) {
            Some(Err(e)) => {
                proof {
                    lemma_sequence_error(crate::cgg::texts(lines@), row as nat + 1, n as nat);
                }
                return Err(e);
            },
            None => {},
            Some(Ok(meta)) => {
                entries.push(meta);
            },
        }
        row += 1;
    }
    Ok(entries)
}

/// The report for an entry that names a frame template that does not
/// exist.
pub open spec fn reference_error_text(frame_idx: usize, defined: nat) -> Seq<char> {
    "Invalid frame reference "@ + decimal(frame_idx as nat) + ": the unit has "@ + decimal(defined)
        + " frames"@
}

/// Whether every entry of `metas` names one of the `defined` frame
/// templates.
pub open spec fn all_defined(metas: Seq<CgsMeta>, defined: nat) -> bool {
    forall|i: int| 0 <= i < metas.len() ==> (#[trigger] metas[i]).0 < defined
}

/// Every entry of `metas` paired with the parts of the frame template of
/// `unit` that it names.
pub open spec fn entries_of(metas: Seq<CgsMeta>, unit: Unit) -> Seq<FrameView> {
    Seq::new(
        metas.len(),
        |i: int|
            FrameView {
                frame_idx: metas[i].0,
                parts: unit.frames@[metas[i].0 as int]@,
                x: metas[i].1,
                y: metas[i].2,
                delay: metas[i].3,
            },
    )
}

/// Whether `i` is the position of the first entry of `metas` that names a
/// frame template beyond the `defined` ones.
pub open spec fn first_undefined(metas: Seq<CgsMeta>, defined: nat, i: int) -> bool {
    &&& 0 <= i < metas.len()
    &&& metas[i].0 >= defined
    &&& forall|j: int| 0 <= j < i ==> (#[trigger] metas[j]).0 < defined
}

/// Pairs every entry with the parts of the frame template that it names.
/// The first entry that names a template that the unit does not have is
/// reported as a parse error.
pub fn create_cgs_frames(cgs_frames_meta: Vec<CgsMeta>, unit: &Unit) -> (res: Result<
    Vec<Frame>,
    FfbeError,
>)
    ensures
        match res {
            Ok(frames) => all_defined(cgs_frames_meta@, unit.frames@.len()) && frame_views(frames@)
                == entries_of(cgs_frames_meta@, *unit),
            Err(e) => exists|i: int| #[trigger]
                first_undefined(cgs_frames_meta@, unit.frames@.len(), i) && e.is_parse_error(
                    reference_error_text(cgs_frames_meta@[i].0, unit.frames@.len()),
                ),
        },
{
    let mut frames: Vec<Frame> = Vec::new();
    let n = cgs_frames_meta.len();
    let mut i: usize = 0;
    while i < n
        invariant
            n == cgs_frames_meta@.len(),
            i <= n,
            frames@.len() == i,
            forall|k: int|
                0 <= k < i ==> {
                    let meta = #[trigger] cgs_frames_meta@[k];
                    &&& meta.0 < unit.frames@.len()
                    &&& frames@[k].frame_idx == meta.0
                    &&& frames@[k].parts@ == unit.frames@[meta.0 as int]@
                    &&& frames@[k].x == meta.1
                    &&& frames@[k].y == meta.2
                    &&& frames@[k].delay == meta.3
                },
        decreases n - i,
    {
        let CgsMeta(frame_idx, x, y, delay) = cgs_frames_meta[i];
        if frame_idx >= unit.frames.len() {
            let mut m = String::from_str("Invalid frame reference ");
            push_decimal(&mut m, frame_idx as u128);
            m.append(": the unit has ");
            push_decimal(&mut m, unit.frames.len() as u128);
            m.append(" frames");
            assert(first_undefined(cgs_frames_meta@, unit.frames@.len(), i as int));
            return Err(FfbeError::ParseError(m));
        }
        let parts = unit.frames[frame_idx].clone();
        frames.push(Frame { frame_idx, parts, x, y, delay });
        i += 1;
    }
    proof {
        assert(frame_views(frames@) =~= entries_of(cgs_frames_meta@, *unit));
    }
    Ok(frames)
}

/// The clockwise turn, in degrees, that shows a part whose table entry
/// asks for `rotate` degrees counter-clockwise. Only the quarter turns
/// 90, 180, 270 and -90 are made; for every other value the answer is 0,
/// no turn at all.
pub open spec fn clockwise_angle(rotate: int) -> int {
    if rotate == 90 {
        270
    } else if rotate == 180 {
        180
    } else if rotate == 270 || rotate == -90 {
        90
    } else {
        0
    }
}

/// The table of turns: a quarter turn one way is shown by three quarters
/// the other way, a half turn by itself, and anything that is not one of
/// the four quarter turns by no turn.
pub proof fn lemma_rotation_table(rotate: int)
    ensures
        clockwise_angle(90) == 270,
        clockwise_angle(180) == 180,
        clockwise_angle(270) == 90,
        clockwise_angle(-90) == 90,
        rotate == 90 || rotate == 180 || rotate == 270 || rotate == -90 ==> clockwise_angle(rotate)
            == (360 - rotate) % 360,
        rotate != 90 && rotate != 180 && rotate != 270 && rotate != -90 ==> clockwise_angle(rotate)
            == 0,
        forall|grid: Raster| #[trigger] grid.turned(0) == grid,
{
}

impl Raster {
    /// The grid turned clockwise by 90, 180 or 270 degrees; by any other
    /// amount it stays as it is.
    pub open spec fn turned(self, clockwise: int) -> Raster {
        if clockwise == 90 {
            self.rotated90()
        } else if clockwise == 180 {
            self.rotated180()
        } else if clockwise == 270 {
            self.rotated270()
        } else {
            self
        }
    }

    /// The smallest rectangle around the pixels that are not fully
    /// transparent black, if there are any.
    pub open spec fn content_box(self) -> Option<Rect> {
        if exists|x: int, y: int| self.sought(x, y, Rgba::transparent(), false) {
            Some(choose|rect: Rect| self.bounded_by(rect, Rgba::transparent(), false))
        } else {
            None
        }
    }
}

/// A grid has at most one smallest rectangle around its sought pixels.
pub proof fn lemma_box_unique(grid: Raster, a: Rect, b: Rect, color: Rgba, find_color: bool)
    requires
        grid.bounded_by(a, color, find_color),
        grid.bounded_by(b, color, find_color),
    ensures
        a == b,
{
    let y0 = choose|y: int| #[trigger] grid.sought(a.x as int, y, color, find_color);
    let y1 = choose|y: int| #[trigger] grid.sought(b.x as int, y, color, find_color);
    let y2 = choose|y: int| #[trigger] grid.sought(a.x + a.width - 1, y, color, find_color);
    let y3 = choose|y: int| #[trigger] grid.sought(b.x + b.width - 1, y, color, find_color);
    let x0 = choose|x: int| #[trigger] grid.sought(x, a.y as int, color, find_color);
    let x1 = choose|x: int| #[trigger] grid.sought(x, b.y as int, color, find_color);
    let x2 = choose|x: int| #[trigger] grid.sought(x, a.y + a.height - 1, color, find_color);
    let x3 = choose|x: int| #[trigger] grid.sought(x, b.y + b.height - 1, color, find_color);
    assert(grid.sought(a.x as int, y0, color, find_color));
    assert(grid.sought(b.x as int, y1, color, find_color));
    assert(grid.sought(a.x + a.width - 1, y2, color, find_color));
    assert(grid.sought(b.x + b.width - 1, y3, color, find_color));
    assert(grid.sought(x0, a.y as int, color, find_color));
    assert(grid.sought(x1, b.y as int, color, find_color));
    assert(grid.sought(x2, a.y + a.height - 1, color, find_color));
    assert(grid.sought(x3, b.y + b.height - 1, color, find_color));
}

/// What a search for the content of `grid` returns is its content box.
pub proof fn lemma_content_box(grid: Raster, found: Option<Rect>)
    requires
        grid.bounds_are(found, Rgba::transparent(), false),
    ensures
        found == grid.content_box(),
{
    match found {
        Some(rect) => {
            let y = choose|y: int| #[trigger] grid.sought(rect.x as int, y, Rgba::transparent(), false);
            assert(grid.sought(rect.x as int, y, Rgba::transparent(), false));
            let chosen = choose|r: Rect| grid.bounded_by(r, Rgba::transparent(), false);
            lemma_box_unique(grid, rect, chosen, Rgba::transparent(), false);
        },
        None => {},
    }
}

/// Whether the atlas rectangle that `part` names lies within an atlas of
/// the size of `atlas`.
pub open spec fn part_fits(part: PartData, atlas: Raster) -> bool {
    part.img_x + part.img_width <= atlas.width && part.img_y + part.img_height <= atlas.height
}

/// Whether `part_fits` holds of an atlas of the given size.
pub fn part_fits_in(part: &PartData, width: u32, height: u32) -> (ok: bool)
    ensures
        ok == (part.img_x + part.img_width <= width && part.img_y + part.img_height <= height),
{
    part.img_x <= width && part.img_width <= width - part.img_x && part.img_y <= height
        && part.img_height <= height - part.img_y
}

/// The image of `part`, ready to be drawn: its rectangle cut from the
/// atlas, then blended where the part asks for it, then mirrored, then
/// turned, then faded, in this order.
pub open spec fn part_raster(atlas: Raster, part: PartData) -> Raster {
    let cut = atlas.cropped(
        part.img_x as nat,
        part.img_y as nat,
        part.img_width as nat,
        part.img_height as nat,
    );
    let mixed = if part.blend_mode == 1 {
        cut.blend_applied()
    } else {
        cut
    };
    let across = if part.flip_x {
        mixed.flipped_horizontal()
    } else {
        mixed
    };
    let mirrored = if part.flip_y {
        across.flipped_vertical()
    } else {
        across
    };
    let turned = mirrored.turned(clockwise_angle(part.rotate as int));
    if part.opacity < 100 {
        turned.faded(part.opacity as int)
    } else {
        turned
    }
}

/// Makes the image of one part from the atlas.
pub fn process_part(src_img: &Image, part: &PartData) -> (out: Image)
    requires
        part_fits(*part, src_img@),
    ensures
        out@ == part_raster(src_img@, *part),
{
    let mut part_img = src_img.crop(part.img_x, part.img_y, part.img_width, part.img_height);
    if part.blend_mode == 1 {
        part_img.blend();
    }
    if part.flip_x {
        part_img = part_img.flip_horizontal();
    }
    if part.flip_y {
        part_img = part_img.flip_vertical();
    }
    if part.rotate == 90 {
        part_img = part_img.rotate270();
    } else if part.rotate == 180 {
        part_img = part_img.rotate180();
    } else if part.rotate == 270 || part.rotate == -90 {
        part_img = part_img.rotate90();
    }
    if part.opacity < 100 {
        part_img.opacity(part.opacity);
    }
    part_img
}

/// Draws one part onto the canvas of an entry placed at `frame_offset`.
/// Positions count from the centre of the canvas.
pub fn process_and_overlay_part(
    target_img: &mut Image,
    src_img: &Image,
    frame_offset: (i32, i32),
    part: &PartData,
)
    requires
        part_fits(*part, src_img@),
    ensures
        final(target_img)@ == old(target_img)@.overlaid(
            part_raster(src_img@, *part),
            HALF_CANVAS + frame_offset.0 + part.x_pos,
            HALF_CANVAS + frame_offset.1 + part.y_pos,
        ),
{
    let part_img = process_part(src_img, part);
    target_img.overlay(
        &part_img,
        HALF_CANVAS as i64 + frame_offset.0 as i64 + part.x_pos as i64,
        HALF_CANVAS as i64 + frame_offset.1 as i64 + part.y_pos as i64,
    );
}

/// The canvas of an entry placed at `(x, y)` after the first `n` of its
/// parts are drawn, bottom layer first, onto a transparent canvas.
pub open spec fn painted(
    atlas: Raster,
    parts: Seq<PartData>,
    x: int,
    y: int,
    n: nat,
) -> Raster
    decreases n,
{
    if n == 0 {
        Raster::filled(CANVAS_SIZE as nat, CANVAS_SIZE as nat, Rgba::transparent())
    } else {
        let part = parts[n - 1];
        painted(atlas, parts, x, y, (n - 1) as nat).overlaid(
            part_raster(atlas, part),
            HALF_CANVAS + x + part.x_pos,
            HALF_CANVAS + y + part.y_pos,
        )
    }
}

/// The box that stands for an entry without visible content.
pub open spec fn placeholder_rect() -> Rect {
    Rect { x: 0, y: 0, width: 1, height: 1 }
}

/// What composing `frame` gives: its canvas and the box around its
/// content, or, where nothing is visible, a transparent image of one
/// pixel, the placeholder box, and no content box.
pub open spec fn composed(atlas: Raster, frame: FrameView) -> (
    CompositeView,
    Option<Rect>,
) {
    let canvas = painted(
        atlas,
        frame.parts,
        frame.x as int,
        frame.y as int,
        frame.parts.len(),
    );
    match canvas.content_box() {
        Some(rect) => (
            CompositeView { frame_idx: frame.frame_idx, image: canvas, rect, delay: frame.delay },
            Some(rect),
        ),
        None => (
            CompositeView {
                frame_idx: frame.frame_idx,
                image: Raster::filled(1, 1, Rgba::transparent()),
                rect: placeholder_rect(),
                delay: frame.delay,
            },
            None,
        ),
    }
}

/// Whether every part of `frame` names a rectangle within the atlas.
pub open spec fn frame_fits(frame: FrameView, atlas: Raster) -> bool {
    forall|k: int| 0 <= k < frame.parts.len() ==> part_fits(#[trigger] frame.parts[k], atlas)
}

/// Composes one entry: draws its parts in order onto a fresh canvas and
/// finds the box around what is visible.
pub fn compose_frame(frame: &Frame, src_img: &Image) -> (out: (
    CompositeFrame,
    Option<Rect>,
))
    requires
        frame_fits(frame@, src_img@),
    ensures
        out.0@ == composed(src_img@, frame@).0,
        out.1 == composed(src_img@, frame@).1,
        out.1 matches Some(rect) ==> rect.x + rect.width <= CANVAS_SIZE && rect.y + rect.height
            <= CANVAS_SIZE,
{
    assert(Image::fits(CANVAS_SIZE, CANVAS_SIZE)) by {
        assert(4 * (2000 as nat) * (2000 as nat) == 16_000_000) by (nonlinear_arith);
    }
    let mut target_img = Image::new(CANVAS_SIZE, CANVAS_SIZE);
    let n = frame.parts.len();
    let mut k: usize = 0;
    while k < n
        invariant
            n == frame.parts@.len(),
            k <= n,
            frame_fits(frame@, src_img@),
            target_img@ == painted(
                src_img@,
                frame.parts@,
                frame.x as int,
                frame.y as int,
                k as nat,
            ),
        decreases n - k,
    {
        let part = frame.parts[k];
        proof {
            assert(part_fits(frame@.parts[k as int], src_img@));
        }
        process_and_overlay_part(&mut target_img, src_img, (frame.x, frame.y), &part);
        k += 1;
    }
    let bounds_rect = target_img.get_color_bounds_rect(Rgba::new(0, 0, 0, 0), false);
    proof {
        lemma_content_box(target_img@, bounds_rect);
        lemma_canvas_size(src_img@, frame.parts@, frame.x as int, frame.y as int, n as nat);
    }
    match bounds_rect {
        Some(rect) => (
            CompositeFrame { frame_idx: frame.frame_idx, image: target_img, rect, delay: frame.delay },
            Some(rect),
        ),
        None => {
            assert(Image::fits(1, 1));
            let empty_img = Image::new(1, 1);
            (
                CompositeFrame {
                    frame_idx: frame.frame_idx,
                    image: empty_img,
                    rect: Rect { x: 0, y: 0, width: 1, height: 1 },
                    delay: frame.delay,
                },
                None,
            )
        },
    }
}

/// Drawing parts never changes the size of the canvas.
pub proof fn lemma_canvas_size(
    atlas: Raster,
    parts: Seq<PartData>,
    x: int,
    y: int,
    n: nat,
)
    ensures
        painted(atlas, parts, x, y, n).width == CANVAS_SIZE,
        painted(atlas, parts, x, y, n).height == CANVAS_SIZE,
        painted(atlas, parts, x, y, n).wf(),
    decreases n,
{
    if n == 0 {
        lemma_tabulate(
            CANVAS_SIZE as nat,
            CANVAS_SIZE as nat,
            |u: int, v: int| Rgba::transparent(),
        );
    } else {
        lemma_canvas_size(atlas, parts, x, y, (n - 1) as nat);
        let under = painted(atlas, parts, x, y, (n - 1) as nat);
        let part = parts[n - 1];
        let top = part_raster(atlas, part);
        let px = HALF_CANVAS + x + part.x_pos;
        let py = HALF_CANVAS + y + part.y_pos;
        lemma_tabulate(
            under.width,
            under.height,
            |u: int, v: int|
                if top.holds(u - px, v - py) {
                    crate::raster::drawn_over(under.at(u, v), top.at(u - px, v - py))
                } else {
                    under.at(u, v)
                },
        );
    }
}

/// A composed entry together with the box around its content, if it has
/// any.
pub type Composed = (CompositeFrame, Option<Rect>);

/// The models of composed entries and their content boxes.
pub open spec fn composed_views(results: Seq<Composed>) -> Seq<(CompositeView, Option<Rect>)> {
    Seq::new(results.len(), |i: int| (results[i].0@, results[i].1))
}

/// The models of composed entries.
pub open spec fn composite_views(frames: Seq<CompositeFrame>) -> Seq<CompositeView> {
    Seq::new(frames.len(), |i: int| frames[i]@)
}

/// What composing each entry of `frames` gives, in order.
pub open spec fn results_of(atlas: Raster, frames: Seq<FrameView>) -> Seq<
    (CompositeView, Option<Rect>),
> {
    Seq::new(frames.len(), |i: int| composed(atlas, frames[i]))
}

/// The content boxes of the first `n` results, in order, leaving out the
/// entries without visible content.
pub open spec fn visible_boxes(results: Seq<(CompositeView, Option<Rect>)>, n: nat) -> Seq<Rect>
    decreases n,
{
    if n == 0 {
        Seq::empty()
    } else {
        let before = visible_boxes(results, (n - 1) as nat);
        match results[n - 1].1 {
            Some(rect) => before.push(rect),
            None => before,
        }
    }
}

/// The first `n` results, in order, leaving out the entries without
/// visible content unless `include_empty` is set.
pub open spec fn kept(results: Seq<(CompositeView, Option<Rect>)>, include_empty: bool, n: nat) -> Seq<
    CompositeView,
>
    decreases n,
{
    if n == 0 {
        Seq::empty()
    } else {
        let before = kept(results, include_empty, (n - 1) as nat);
        if results[n - 1].1 is Some || include_empty {
            before.push(results[n - 1].0)
        } else {
            before
        }
    }
}

/// Brings the results of composing the entries of an animation together:
/// merges the content box of every entry that has one into the bounds of
/// `unit`, and returns the entries to show, in order. Entries without
/// visible content are shown, as their one-pixel placeholder, only when
/// `include_empty` is set.
pub fn collect_frames(results: Vec<Composed>, unit: &mut Unit, include_empty: bool) -> (out: Vec<
    CompositeFrame,
>)
    requires
        forall|i: int|
            0 <= i < results@.len() ==> ((#[trigger] results@[i]).1 matches Some(rect)
                ==> rect.in_reach()),
    ensures
        *final(unit) == old(unit).merged_all(
            visible_boxes(composed_views(results@), results@.len()),
        ),
        composite_views(out@) == kept(composed_views(results@), include_empty, results@.len()),
{
    let ghost views = composed_views(results@);
    let n = results.len();
    let mut k: usize = 0;
    while k < n
        invariant
            n == results@.len(),
            k <= n,
            views == composed_views(results@),
            forall|i: int|
                0 <= i < results@.len() ==> ((#[trigger] results@[i]).1 matches Some(rect)
                    ==> rect.in_reach()),
            *unit == old(unit).merged_all(visible_boxes(views, k as nat)),
        decreases n - k,
    {
        proof {
            assert(views[k as int].1 == results@[k as int].1);
            let before = visible_boxes(views, k as nat);
            if let Some(rect) = results@[k as int].1 {
                assert(before.push(rect).drop_last() =~= before);
            }
        }
        if let Some(rect) = &results[k].1 {
            merge_bounding_box(unit, rect);
        }
        k += 1;
    }
    let mut out: Vec<CompositeFrame> = Vec::new();
    proof {
        assert(composite_views(out@) =~= kept(views, include_empty, 0));
    }
    for item in it: results.into_iter()
        invariant
            it.seq() == results@,
            views == composed_views(results@),
            composite_views(out@) == kept(views, include_empty, it.index() as nat),
    {
        let ghost before = composite_views(out@);
        let (cf, rect_opt) = item;
        if rect_opt.is_some() || include_empty {
            out.push(cf);
            proof {
                assert(composite_views(out@) =~= before.push(cf@));
            }
        }
    }
    out
}

/// Whether every part of every entry names a rectangle within the atlas.
pub open spec fn frames_fit(frames: Seq<FrameView>, atlas: Raster) -> bool {
    forall|i: int| 0 <= i < frames.len() ==> frame_fits(#[trigger] frames[i], atlas)
}

/// Whether every part of every entry names a rectangle within an atlas
/// of the given size.
pub fn frames_fit_in(frames: &Vec<Frame>, width: u32, height: u32) -> (ok: bool)
    ensures
        forall|atlas: Raster|
            atlas.width == width && atlas.height == height ==> (ok <==> #[trigger] frames_fit(
                frame_views(frames@),
                atlas,
            )),
{
    let ok = parts_fit_in(frames, width, height);
    proof {
        assert forall|atlas: Raster| atlas.width == width && atlas.height == height implies (ok
            <==> #[trigger] frames_fit(frame_views(frames@), atlas)) by {
            lemma_frames_fit(frames@, atlas);
        }
    }
    ok
}

fn parts_fit_in(frames: &Vec<Frame>, width: u32, height: u32) -> (ok: bool)
    ensures
        ok == forall|i: int, k: int|
            0 <= i < frames@.len() && 0 <= k < frames@[i].parts@.len() ==> {
                let part = #[trigger] frames@[i].parts@[k];
                part.img_x + part.img_width <= width && part.img_y + part.img_height <= height
            },
{
    let n = frames.len();
    let mut i: usize = 0;
    while i < n
        invariant
            n == frames@.len(),
            i <= n,
            forall|a: int, k: int|
                0 <= a < i && 0 <= k < frames@[a].parts@.len() ==> {
                    let part = #[trigger] frames@[a].parts@[k];
                    part.img_x + part.img_width <= width && part.img_y + part.img_height <= height
                },
        decreases n - i,
    {
        let m = frames[i].parts.len();
        let mut k: usize = 0;
        while k < m
            invariant
                n == frames@.len(),
                i < n,
                m == frames@[i as int].parts@.len(),
                k <= m,
                forall|a: int, b: int|
                    0 <= a < i && 0 <= b < frames@[a].parts@.len() ==> {
                        let part = #[trigger] frames@[a].parts@[b];
                        part.img_x + part.img_width <= width && part.img_y + part.img_height
                            <= height
                    },
                forall|b: int|
                    0 <= b < k ==> {
                        let part = #[trigger] frames@[i as int].parts@[b];
                        part.img_x + part.img_width <= width && part.img_y + part.img_height
                            <= height
                    },
            decreases m - k,
        {
            if !part_fits_in(&frames[i].parts[k], width, height) {
                return false;
            }
            k += 1;
        }
        i += 1;
    }
    true
}

/// Composes every entry of an animation, merges the content boxes into the
/// bounds of `unit`, and returns the entries to show, in order.
pub fn process_frames(
    frames: &[Frame],
    src_img: &Image,
    unit: &mut Unit,
    include_empty: bool,
) -> (out: Vec<CompositeFrame>)
    requires
        frames_fit(frame_views(frames@), src_img@),
    ensures
        *final(unit) == old(unit).merged_all(
            visible_boxes(
                results_of(src_img@, frame_views(frames@)),
                frames@.len(),
            ),
        ),
        composite_views(out@) == kept(
            results_of(src_img@, frame_views(frames@)),
            include_empty,
            frames@.len(),
        ),
{
    let mut results: Vec<Composed> = Vec::new();
    let n = frames.len();
    let mut i: usize = 0;
    while i < n
        invariant
            n == frames@.len(),
            i <= n,
            frames_fit(frame_views(frames@), src_img@),
            results@.len() == i,
            forall|k: int|
                0 <= k < i ==> (#[trigger] results@[k]).0@ == composed(
                    src_img@,
                        frames@[k]@,
                ).0 && results@[k].1 == composed(src_img@, frames@[k]@).1 && (
                results@[k].1 matches Some(rect) ==> rect.in_reach()),
        decreases n - i,
    {
        proof {
            assert(frame_views(frames@)[i as int] == frames@[i as int]@);
        }
        let result = compose_frame(&frames[i], src_img);
        results.push(result);
        i += 1;
    }
    proof {
        assert(composed_views(results@) =~= results_of(
            src_img@,
            frame_views(frames@),
        ));
    }
    collect_frames(results, unit, include_empty)
}

/// Entries fit an atlas exactly when each of their parts does.
pub proof fn lemma_frames_fit(frames: Seq<Frame>, atlas: Raster)
    ensures
        frames_fit(frame_views(frames), atlas) <==> forall|i: int, k: int|
            0 <= i < frames.len() && 0 <= k < frames[i].parts@.len() ==> {
                let part = #[trigger] frames[i].parts@[k];
                part.img_x + part.img_width <= atlas.width && part.img_y + part.img_height
                    <= atlas.height
            },
{
    let views = frame_views(frames);
    if frames_fit(views, atlas) {
        assert forall|i: int, k: int|
            0 <= i < frames.len() && 0 <= k < frames[i].parts@.len() implies {
            let part = #[trigger] frames[i].parts@[k];
            part.img_x + part.img_width <= atlas.width && part.img_y + part.img_height
                <= atlas.height
        } by {
            assert(frame_fits(views[i], atlas));
            assert(part_fits(views[i].parts[k], atlas));
        }
    }
    if forall|i: int, k: int|
        0 <= i < frames.len() && 0 <= k < frames[i].parts@.len() ==> {
            let part = #[trigger] frames[i].parts@[k];
            part.img_x + part.img_width <= atlas.width && part.img_y + part.img_height
                <= atlas.height
        } {
        assert forall|i: int| 0 <= i < views.len() implies frame_fits(#[trigger] views[i], atlas) by {
            assert forall|k: int| 0 <= k < views[i].parts.len() implies part_fits(
                #[trigger] views[i].parts[k],
                atlas,
            ) by {
                assert(views[i].parts[k] == frames[i].parts@[k]);
            }
        }
    }
}

/// A grid that is transparent all over has no content box.
pub proof fn lemma_blank_has_no_content(width: nat, height: nat)
    ensures
        Raster::filled(width, height, Rgba::transparent()).content_box() is None,
{
    let blank = Raster::filled(width, height, Rgba::transparent());
    lemma_tabulate(width, height, |u: int, v: int| Rgba::transparent());
    assert forall|x: int, y: int| !blank.sought(x, y, Rgba::transparent(), false) by {
        if blank.holds(x, y) {
            assert(blank.at(x, y) == Rgba::transparent());
        }
    }
}

/// An entry without parts has no visible content: it is composed to the
/// placeholder, which normalizing widens to a transparent frame of the
/// size of the frame rectangle.
pub proof fn lemma_no_parts_no_content(atlas: Raster, frame: FrameView, rect: Rect)
    requires
        frame.parts.len() == 0,
    ensures
        composed(atlas, frame).1 is None,
        composed(atlas, frame).0.is_placeholder(),
        composed(atlas, frame).0.resized(rect).image == Raster::filled(
            rect.width as nat,
            rect.height as nat,
            Rgba::transparent(),
        ),
        composed(atlas, frame).0.resized(rect).rect == rect,
{
    lemma_blank_has_no_content(CANVAS_SIZE as nat, CANVAS_SIZE as nat);
}

/// Where empty frames are asked for every entry is shown; where they are
/// not, as many entries are shown as have visible content.
pub proof fn lemma_kept(results: Seq<(CompositeView, Option<Rect>)>, n: nat)
    requires
        n <= results.len(),
    ensures
        kept(results, true, n) == Seq::new(n, |i: int| results[i].0),
        kept(results, false, n).len() == visible_boxes(results, n).len(),
    decreases n,
{
    if n > 0 {
        lemma_kept(results, (n - 1) as nat);
    }
    assert(kept(results, true, n) =~= Seq::new(n, |i: int| results[i].0));
}

} // verus!
