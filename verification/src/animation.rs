//! One animation from its sequence entries to its sprite sheet.

use vstd::prelude::*;
use vstd::string::*;
use crate::cgs::{
    all_defined, collect_frames, compose_frame, composed_views, composite_views,
    create_cgs_frames, entries_of, first_undefined, frame_views, frames_fit, frames_fit_in, kept,
    reference_error_text, results_of, visible_boxes, CgsMeta, Composed, CompositeFrame,
    CompositeView, Frame,
};
use crate::error::FfbeError;
use crate::imageops::Rect;
use crate::raster::{Image, Raster};
use crate::sheet::{
    calculate_frame_rect, create_spritesheet, crop_frames_to_bounds, layout_fits,
    resize_empty_frames_to_bounds, rows_needed, sheet,
};
use crate::unit::{lemma_merge_widens, Unit};

verus! {

/// What is made of one animation.
pub struct Animation {
    /// The frames to show, in order, each normalized to the frame
    /// rectangle.
    pub frames: Vec<CompositeFrame>,
    /// The frame rectangle of the unit for this animation.
    pub frame_rect: Rect,
    /// The frames tiled into one image.
    pub spritesheet: Image,
}

impl Unit {
    /// The unit with its bounds forgotten. Bounds belong to one animation:
    /// each animation starts without any.
    pub open spec fn unbounded(self) -> Unit {
        Unit { top_left: None, bottom_right: None, ..self }
    }
}

/// The report for a part whose rectangle reaches outside the atlas.
pub open spec fn outside_atlas_text() -> Seq<char> {
    "A part names a rectangle outside the atlas"@
}

/// The report for a sheet that is too large to be held.
pub open spec fn too_large_text() -> Seq<char> {
    "The sprite sheet is too large"@
}

/// Forgets the bounds of `unit` and pairs the entries of an animation with
/// their parts, ready to be composed.
///
/// Fails with a parse error on the first entry that names a frame template
/// that the unit does not have, and with an invalid-input error where a
/// part names a rectangle outside the atlas.
pub fn prepare_frames(cgs_frames_meta: Vec<CgsMeta>, unit: &mut Unit, src_img: &Image) -> (res:
    Result<Vec<Frame>, FfbeError>)
    ensures
        *final(unit) == old(unit).unbounded(),
        ({
            let metas = cgs_frames_meta@;
            let defined = old(unit).frames@.len();
            let entries = entries_of(metas, *old(unit));
            match res {
                Ok(frames) => {
                    &&& all_defined(metas, defined)
                    &&& frames_fit(entries, src_img@)
                    &&& frame_views(frames@) == entries
                },
                Err(FfbeError::ParseError(m)) => exists|i: int| #[trigger]
                    first_undefined(metas, defined, i) && m@ == reference_error_text(
                        metas[i].0,
                        defined,
                    ),
                Err(FfbeError::InvalidInput(m)) => {
                    &&& all_defined(metas, defined)
                    &&& !frames_fit(entries, src_img@)
                    &&& m@ == outside_atlas_text()
                },
                Err(_) => false,
            }
        }),
{
    unit.top_left = None;
    unit.bottom_right = None;
    let ghost fresh = *unit;
    let frames = match create_cgs_frames(cgs_frames_meta, unit) {
        Ok(frames) => frames,
        Err(e) => {
            return Err(e);
        },
    };
    proof {
        assert(entries_of(cgs_frames_meta@, fresh) =~= entries_of(cgs_frames_meta@, *old(unit)));
    }
    if !frames_fit_in(&frames, src_img.width(), src_img.height()) {
        return Err(
            FfbeError::InvalidInput(String::from_str("A part names a rectangle outside the atlas")),
        );
    }
    Ok(frames)
}

/// Whether a sheet of `count` frames in `columns` requested columns, with
/// cells of the size of `rect`, can be held in memory together with a
/// frame of that size.
pub open spec fn can_hold(rect: Rect, count: nat, columns: nat) -> bool {
    Image::fits(rect.width, rect.height) && layout_fits(rect, count, columns)
}

/// Whether `can_hold` holds.
pub fn can_hold_in(rect: &Rect, count: usize, columns: usize) -> (ok: bool)
    ensures
        ok == can_hold(*rect, count as nat, columns as nat),
{
    let single = columns == 0 || columns >= count;
    let cols: u128 = if single {
        count as u128
    } else {
        columns as u128
    };
    let rows: u128 = if single {
        1
    } else {
        rows_needed(count, columns) as u128
    };
    let limit: u128 = usize::MAX as u128;
    assert(0 <= (rect.width as u128) * cols <= 0x1_0000_0000 * 0x1_0000_0000_0000_0000)
        by (nonlinear_arith)
        requires
            rect.width <= 0xffff_ffff,
            0 <= cols <= 0xffff_ffff_ffff_ffff,
    ;
    assert(0 <= (rect.height as u128) * rows <= 0x1_0000_0000 * 0x1_0000_0000_0000_0000)
        by (nonlinear_arith)
        requires
            rect.height <= 0xffff_ffff,
            0 <= rows <= 0xffff_ffff_ffff_ffff,
    ;
    assert(0 <= (rect.width as u128) * (rect.height as u128) <= 0x1_0000_0000 * 0x1_0000_0000)
        by (nonlinear_arith)
        requires
            rect.width <= 0xffff_ffff,
            rect.height <= 0xffff_ffff,
    ;
    let cell: u128 = 4 * ((rect.width as u128) * (rect.height as u128));
    assert(4 * (rect.width as nat) * (rect.height as nat) == cell) by (nonlinear_arith)
        requires
            cell == 4 * ((rect.width as u128) * (rect.height as u128)),
    ;
    if cell > limit {
        return false;
    }
    let wide: u128 = (rect.width as u128) * cols;
    let high: u128 = (rect.height as u128) * rows;
    if wide > 0xffff_ffff || high > 0xffff_ffff {
        return false;
    }
    assert(0 <= wide * high <= 0x1_0000_0000 * 0x1_0000_0000) by (nonlinear_arith)
        requires
            0 <= wide <= 0xffff_ffff,
            0 <= high <= 0xffff_ffff,
    ;
    let area: u128 = 4 * (wide * high);
    assert(4 * (rect.width * cols) * (rect.height * rows) == area) by (nonlinear_arith)
        requires
            area == 4 * (wide * high),
            wide == rect.width * cols,
            high == rect.height * rows,
    ;
    area <= limit
}

/// The frames of an animation as they are shown: each placeholder
/// widened to `rect`, then every frame that is larger than `rect` cut to
/// it.
pub open spec fn normalized(frames: Seq<CompositeView>, rect: Rect) -> Seq<CompositeView> {
    Seq::new(frames.len(), |i: int| frames[i].resized(rect).cropped_to(rect))
}

/// What is made of the composed entries `results` of an animation of
/// `unit`, whose bounds are `unit`'s with the content boxes of the entries
/// merged in.
pub open spec fn finished(
    results: Seq<(CompositeView, Option<Rect>)>,
    unit: Unit,
    include_empty: bool,
    columns: nat,
) -> (Seq<CompositeView>, Rect, Raster) {
    let rect = unit.merged_all(visible_boxes(results, results.len())).frame_rect();
    let frames = normalized(kept(results, include_empty, results.len()), rect);
    (frames, rect, sheet(frames, rect, columns))
}

/// Brings the composed entries of an animation to their final form: merges
/// their content boxes into the bounds of `unit`, derives the frame
/// rectangle, normalizes the frames to it and tiles them into a sheet.
///
/// Fails with a missing-value error where no entry has visible content,
/// and with an invalid-input error where the sheet would be too large to
/// hold.
pub fn finish_animation(
    results: Vec<Composed>,
    unit: &mut Unit,
    include_empty: bool,
    columns: usize,
) -> (res: Result<Animation, FfbeError>)
    requires
        old(unit).bounds_ordered(),
        forall|i: int|
            0 <= i < results@.len() ==> ((#[trigger] results@[i]).1 matches Some(rect)
                ==> rect.in_reach()),
    ensures
        *final(unit) == old(unit).merged_all(
            visible_boxes(composed_views(results@), results@.len()),
        ),
        final(unit).bounds_ordered(),
        ({
            let views = composed_views(results@);
            let (frames, rect, sprites) = finished(views, *old(unit), include_empty, columns as nat);
            match res {
                Ok(animation) => {
                    &&& final(unit).top_left is Some
                    &&& final(unit).bottom_right is Some
                    &&& can_hold(rect, frames.len(), columns as nat)
                    &&& composite_views(animation.frames@) == frames
                    &&& animation.frame_rect == rect
                    &&& animation.spritesheet@ == sprites
                },
                Err(FfbeError::MissingValue(name)) => if final(unit).top_left is None {
                    name@ == "top_left"@
                } else {
                    final(unit).bottom_right is None && name@ == "bottom_right"@
                },
                Err(FfbeError::InvalidInput(m)) => {
                    &&& final(unit).top_left is Some
                    &&& final(unit).bottom_right is Some
                    &&& !can_hold(rect, frames.len(), columns as nat)
                    &&& m@ == too_large_text()
                },
                Err(_) => false,
            }
        }),
{
    let ghost views = composed_views(results@);
    proof {
        assert forall|i: int| 0 <= i < views.len() implies ((#[trigger] views[i]).1 matches Some(
            rect,
        ) ==> rect.in_reach()) by {
            assert(views[i].1 == results@[i].1);
        }
        assert forall|k: int| 0 <= k < visible_boxes(views, results@.len()).len() implies (
        #[trigger] visible_boxes(views, results@.len())[k]).in_reach() by {
            lemma_boxes_in_reach(views, results@.len(), k);
        }
        lemma_merged_all_ordered(*unit, visible_boxes(views, results@.len()));
    }
    let mut frames = collect_frames(results, unit, include_empty);
    let frame_rect = match calculate_frame_rect(unit) {
        Ok(rect) => rect,
        Err(e) => {
            return Err(e);
        },
    };
    if !can_hold_in(&frame_rect, frames.len(), columns) {
        return Err(FfbeError::InvalidInput(String::from_str("The sprite sheet is too large")));
    }
    let ghost shown = composite_views(frames@);
    resize_empty_frames_to_bounds(&mut frames, &frame_rect);
    crop_frames_to_bounds(&mut frames, &frame_rect);
    proof {
        assert(composite_views(frames@) =~= normalized(shown, frame_rect));
    }
    let spritesheet = create_spritesheet(&frames, &frame_rect, columns);
    Ok(Animation { frames, frame_rect, spritesheet })
}

/// Merging rectangles within reach keeps ordered bounds ordered.
pub proof fn lemma_merged_all_ordered(unit: Unit, rects: Seq<Rect>)
    requires
        unit.bounds_ordered(),
        forall|k: int| 0 <= k < rects.len() ==> (#[trigger] rects[k]).in_reach(),
    ensures
        unit.merged_all(rects).bounds_ordered(),
    decreases rects.len(),
{
    if rects.len() > 0 {
        lemma_merged_all_ordered(unit, rects.drop_last());
        lemma_merge_widens(unit.merged_all(rects.drop_last()), rects.last());
    }
}

/// Every content box of results whose boxes are within reach is.
proof fn lemma_boxes_in_reach(views: Seq<(CompositeView, Option<Rect>)>, n: nat, k: int)
    requires
        n <= views.len(),
        forall|i: int|
            0 <= i < views.len() ==> ((#[trigger] views[i]).1 matches Some(rect)
                ==> rect.in_reach()),
        0 <= k < visible_boxes(views, n).len(),
    ensures
        visible_boxes(views, n)[k].in_reach(),
    decreases n,
{
    if n > 0 {
        let before = visible_boxes(views, (n - 1) as nat);
        if k < before.len() {
            lemma_boxes_in_reach(views, (n - 1) as nat, k);
        } else {
            assert(views[n - 1].1 is Some);
        }
    }
}

/// Makes one animation of a unit: forgets the bounds of `unit`, pairs the
/// entries with their parts, composes each entry, and brings the results
/// to their final form. The bounds that `unit` is left with are those of
/// this animation alone.
///
/// Fails, in this order, with a parse error on an entry that names a
/// frame template that the unit does not have; with an invalid-input
/// error where a part names a rectangle outside the atlas; with a
/// missing-value error where no entry has visible content; and with an
/// invalid-input error where the sheet would be too large to hold.
pub fn render_animation(
    cgs_frames_meta: Vec<CgsMeta>,
    unit: &mut Unit,
    src_img: &Image,
    include_empty: bool,
    columns: usize,
) -> (res: Result<Animation, FfbeError>)
    ensures
        ({
            let fresh = old(unit).unbounded();
            let metas = cgs_frames_meta@;
            let defined = fresh.frames@.len();
            let entries = entries_of(metas, fresh);
            let results = results_of(src_img@, entries);
            let merged = fresh.merged_all(visible_boxes(results, results.len()));
            let (frames, rect, sprites) = finished(results, fresh, include_empty, columns as nat);
            match res {
                Err(FfbeError::ParseError(m)) => {
                    &&& *final(unit) == fresh
                    &&& exists|i: int| #[trigger]
                        first_undefined(metas, defined, i) && m@ == reference_error_text(
                            metas[i].0,
                            defined,
                        )
                },
                Err(FfbeError::InvalidInput(m)) => {
                    &&& all_defined(metas, defined)
                    &&& if !frames_fit(entries, src_img@) {
                        *final(unit) == fresh && m@ == outside_atlas_text()
                    } else {
                        &&& *final(unit) == merged
                        &&& merged.top_left is Some
                        &&& merged.bottom_right is Some
                        &&& !can_hold(rect, frames.len(), columns as nat)
                        &&& m@ == too_large_text()
                    }
                },
                Err(FfbeError::MissingValue(name)) => {
                    &&& all_defined(metas, defined)
                    &&& frames_fit(entries, src_img@)
                    &&& *final(unit) == merged
                    &&& if merged.top_left is None {
                        name@ == "top_left"@
                    } else {
                        merged.bottom_right is None && name@ == "bottom_right"@
                    }
                },
                Ok(animation) => {
                    &&& all_defined(metas, defined)
                    &&& frames_fit(entries, src_img@)
                    &&& *final(unit) == merged
                    &&& merged.top_left is Some
                    &&& merged.bottom_right is Some
                    &&& can_hold(rect, frames.len(), columns as nat)
                    &&& composite_views(animation.frames@) == frames
                    &&& animation.frame_rect == rect
                    &&& animation.spritesheet@ == sprites
                },
                Err(_) => false,
            }
        }),
{
    let frames = match prepare_frames(cgs_frames_meta, unit, src_img) {
        Ok(frames) => frames,
        Err(e) => {
            return Err(e);
        },
    };
    let ghost fresh = *unit;
    proof {
        assert(entries_of(cgs_frames_meta@, fresh) =~= entries_of(cgs_frames_meta@, *old(unit)));
    }
    let mut results: Vec<Composed> = Vec::new();
    let n = frames.len();
    let mut i: usize = 0;
    while i < n
        invariant
            n == frames@.len(),
            i <= n,
            frames_fit(frame_views(frames@), src_img@),
            results@.len() == i,
            forall|k: int|
                0 <= k < i ==> (#[trigger] results@[k]).0@ == crate::cgs::composed(
                    src_img@,
                    frames@[k]@,
                ).0 && results@[k].1 == crate::cgs::composed(src_img@, frames@[k]@).1 && (
                results@[k].1 matches Some(rect) ==> rect.in_reach()),
        decreases n - i,
    {
        proof {
            assert(frame_views(frames@)[i as int] == frames@[i as int]@);
        }
        let result = compose_frame(&frames[i], src_img);
        results.push(result);
        i += 1;
    }
    proof {
        assert(composed_views(results@) =~= results_of(src_img@, frame_views(frames@)));
    }
    finish_animation(results, unit, include_empty, columns)
}

} // verus!
