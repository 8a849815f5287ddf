use ffbetool::animation::{finish_animation, prepare_frames, render_animation};
use ffbetool::cgg::PartData;
use ffbetool::cgs::{
    collect_frames, compose_frame, create_cgs_frames, process_and_overlay_part, process_frames,
    process_part, CgsMeta, CompositeFrame, Frame,
};
use ffbetool::cli::create_unit;
use ffbetool::constants::{CANVAS_SIZE, FRAME_PADDING, HALF_CANVAS};
use ffbetool::imageops::{ColorBoundsExt, Point, Rect};
use ffbetool::raster::{Image, Rgba};
use ffbetool::sheet::{
    calculate_frame_rect, create_spritesheet, crop_frames_to_bounds,
    resize_empty_frames_to_bounds, rows_needed,
};
use ffbetool::unit::merge_bounding_box;
use ffbetool::{FfbeError, Unit};

const CLEAR: Rgba = Rgba { r: 0, g: 0, b: 0, a: 0 };

/// A 4 × 3 atlas in which no two pixels are alike, all of them opaque.
fn atlas() -> Image {
    let mut img = Image::new(4, 3);
    for y in 0..3 {
        for x in 0..4 {
            img.put_pixel(x, y, Rgba::new(10 * x as u8 + y as u8, 50, 60, 255));
        }
    }
    img
}

fn part(x_pos: i32, y_pos: i32, rect: (u32, u32, u32, u32)) -> PartData {
    PartData {
        x_pos,
        y_pos,
        opacity: 100,
        img_x: rect.0,
        img_y: rect.1,
        img_width: rect.2,
        img_height: rect.3,
        ..PartData::default()
    }
}

fn solid(width: u32, height: u32, colour: Rgba) -> Image {
    let mut img = Image::new(width, height);
    for y in 0..height {
        for x in 0..width {
            img.put_pixel(x, y, colour);
        }
    }
    img
}

#[test]
fn a_part_is_cut_from_the_atlas() {
    let image = process_part(&atlas(), &part(0, 0, (1, 1, 2, 2)));
    assert_eq!((image.width(), image.height()), (2, 2));
    assert_eq!(image.get_pixel(0, 0), Rgba::new(11, 50, 60, 255));
    assert_eq!(image.get_pixel(1, 0), Rgba::new(21, 50, 60, 255));
    assert_eq!(image.get_pixel(0, 1), Rgba::new(12, 50, 60, 255));
    assert_eq!(image.get_pixel(1, 1), Rgba::new(22, 50, 60, 255));
}

#[test]
fn a_part_is_blended_only_in_blend_mode_one() {
    let mut source = atlas();
    source.put_pixel(1, 1, Rgba::new(200, 100, 50, 128));
    let mut blended = part(0, 0, (1, 1, 2, 1));
    blended.blend_mode = 1;
    let image = process_part(&source, &blended);
    // 200 * 128 / 255, 100 * 128 / 255, 50 * 128 / 255, (200 + 100 + 50) / 3
    assert_eq!(image.get_pixel(0, 0), Rgba::new(100, 50, 25, 116));
    // (21 + 50 + 60) / 3
    assert_eq!(image.get_pixel(1, 0), Rgba::new(21, 50, 60, 43));
    for mode in [0, 2, -1] {
        let mut plain = part(0, 0, (1, 1, 2, 1));
        plain.blend_mode = mode;
        let image = process_part(&source, &plain);
        assert_eq!(image.get_pixel(0, 0), Rgba::new(200, 100, 50, 128));
        assert_eq!(image.get_pixel(1, 0), Rgba::new(21, 50, 60, 255));
    }
}

#[test]
fn a_part_is_blended_before_it_is_faded() {
    let mut source = atlas();
    source.put_pixel(0, 0, Rgba::new(200, 100, 50, 128));
    let mut p = part(0, 0, (0, 0, 1, 1));
    p.blend_mode = 1;
    p.opacity = 50;
    // blended alpha 116, then half of it
    assert_eq!(process_part(&source, &p).get_pixel(0, 0), Rgba::new(100, 50, 25, 58));
}

#[test]
fn a_part_is_mirrored_before_it_is_turned() {
    let mut p = part(0, 0, (0, 0, 3, 2));
    p.flip_x = true;
    p.rotate = 90;
    let image = process_part(&atlas(), &p);
    let expected = atlas().crop(0, 0, 3, 2).flip_horizontal().rotate270();
    assert_eq!(image.clone().into_raw(), expected.into_raw());
    let wrong_order = atlas().crop(0, 0, 3, 2).rotate270().flip_horizontal();
    assert_ne!(image.into_raw(), wrong_order.into_raw());
}

#[test]
fn rotation_follows_the_table() {
    let cut = || atlas().crop(0, 0, 3, 2);
    let turned = |rotate: i32| {
        let mut p = part(0, 0, (0, 0, 3, 2));
        p.rotate = rotate;
        process_part(&atlas(), &p).into_raw()
    };
    assert_eq!(turned(90), cut().rotate270().into_raw());
    assert_eq!(turned(180), cut().rotate180().into_raw());
    assert_eq!(turned(270), cut().rotate90().into_raw());
    assert_eq!(turned(-90), cut().rotate90().into_raw());
    for other in [0, 1, 45, 89, 91, -180, -270, 360, 450, i32::MIN, i32::MAX] {
        assert_eq!(turned(other), cut().into_raw());
    }
}

#[test]
fn opacity_comes_last_and_only_below_one_hundred() {
    let mut p = part(0, 0, (0, 0, 2, 2));
    p.opacity = 70;
    p.flip_y = true;
    let image = process_part(&atlas(), &p);
    // 255 * 70 / 100 = 178.5 -> 179
    assert_eq!(image.get_pixel(0, 0), Rgba::new(1, 50, 60, 179));
    assert_eq!(image.get_pixel(1, 1), Rgba::new(10, 50, 60, 179));
    p.opacity = 100;
    assert_eq!(process_part(&atlas(), &p).get_pixel(0, 0).a, 255);
    p.opacity = 1000;
    assert_eq!(process_part(&atlas(), &p).get_pixel(0, 0).a, 255);
    p.opacity = 0;
    assert_eq!(process_part(&atlas(), &p).get_pixel(0, 0), Rgba::new(1, 50, 60, 0));
}

#[test]
fn a_part_is_drawn_from_the_centre_of_the_canvas() {
    let mut canvas = Image::new(CANVAS_SIZE, CANVAS_SIZE);
    process_and_overlay_part(
        &mut canvas,
        &atlas(),
        (30, -40),
        &part(-5, 7, (2, 1, 2, 2)),
    );
    let x = HALF_CANVAS + 30 - 5;
    let y = HALF_CANVAS - 40 + 7;
    assert_eq!(canvas.get_pixel(x, y), Rgba::new(21, 50, 60, 255));
    assert_eq!(canvas.get_pixel(x + 1, y + 1), Rgba::new(32, 50, 60, 255));
    assert_eq!(canvas.get_pixel(x - 1, y), CLEAR);
    assert_eq!(canvas.get_pixel(x + 2, y), CLEAR);
    let bounds = canvas.get_color_bounds_rect(CLEAR, false).unwrap();
    assert_eq!(bounds, Rect { x, y, width: 2, height: 2 });
}

#[test]
fn later_parts_are_drawn_over_earlier_ones() {
    let frame = Frame {
        frame_idx: 3,
        parts: vec![part(0, 0, (0, 0, 2, 2)), part(1, 1, (2, 1, 2, 2))],
        x: 0,
        y: 0,
        delay: 9,
    };
    let (composite, rect) = compose_frame(&frame, &atlas());
    let rect = rect.unwrap();
    assert_eq!(rect, Rect { x: HALF_CANVAS, y: HALF_CANVAS, width: 3, height: 3 });
    assert_eq!(composite.rect, rect);
    assert_eq!(composite.frame_idx, 3);
    assert_eq!(composite.delay, 9);
    assert_eq!((composite.image.width(), composite.image.height()), (CANVAS_SIZE, CANVAS_SIZE));
    // (1, 1) of the first part is covered by (0, 0) of the second
    assert_eq!(composite.image.get_pixel(HALF_CANVAS + 1, HALF_CANVAS + 1), Rgba::new(21, 50, 60, 255));
    assert_eq!(composite.image.get_pixel(HALF_CANVAS, HALF_CANVAS), Rgba::new(0, 50, 60, 255));
    assert_eq!(composite.image.get_pixel(HALF_CANVAS + 2, HALF_CANVAS), CLEAR);
}

#[test]
fn a_frame_without_visible_content_is_a_placeholder() {
    let mut hidden = part(0, 0, (0, 0, 2, 2));
    hidden.opacity = 0;
    let mut blank = Image::new(4, 3);
    blank.put_pixel(3, 2, Rgba::new(9, 9, 9, 9));
    let frame = Frame { frame_idx: 0, parts: vec![hidden], x: 0, y: 0, delay: 1 };
    // cut from a transparent corner of the atlas: nothing to see
    let (composite, rect) = compose_frame(&frame, &blank);
    assert!(rect.is_none());
    assert_eq!((composite.image.width(), composite.image.height()), (1, 1));
    assert_eq!(composite.image.get_pixel(0, 0), CLEAR);
    assert_eq!(composite.rect, Rect { x: 0, y: 0, width: 1, height: 1 });
}

#[test]
fn colour_without_alpha_counts_as_content() {
    let mut canvas = Image::new(6, 5);
    assert!(canvas.get_color_bounds_rect(CLEAR, false).is_none());
    canvas.put_pixel(4, 2, Rgba::new(0, 0, 1, 0));
    assert_eq!(
        canvas.get_color_bounds_rect(CLEAR, false),
        Some(Rect { x: 4, y: 2, width: 1, height: 1 })
    );
    canvas.put_pixel(0, 4, Rgba::new(0, 0, 0, 1));
    assert_eq!(
        canvas.get_color_bounds_rect(CLEAR, false),
        Some(Rect { x: 0, y: 2, width: 5, height: 3 })
    );
    assert_eq!(
        canvas.get_color_bounds_rect(CLEAR, true),
        Some(Rect { x: 0, y: 0, width: 6, height: 5 })
    );
    assert!(Image::new(0, 0).get_color_bounds_rect(CLEAR, true).is_none());
}

#[test]
fn bounds_do_not_depend_on_the_order_of_merging() {
    let rects = [
        Rect { x: 40, y: 50, width: 10, height: 10 },
        Rect { x: 5, y: 60, width: 100, height: 1 },
        Rect { x: 30, y: 2, width: 3, height: 300 },
    ];
    let orders = [[0, 1, 2], [0, 2, 1], [1, 0, 2], [1, 2, 0], [2, 0, 1], [2, 1, 0]];
    for order in orders {
        let mut unit = Unit::default();
        for at in order {
            merge_bounding_box(&mut unit, &rects[at]);
        }
        assert_eq!(unit.top_left, Some(Point::new(5, 2)));
        assert_eq!(unit.bottom_right, Some(Point::new(105, 302)));
    }
    // bounds that are there take part like any rectangle
    for order in orders {
        let mut unit = Unit {
            top_left: Some(Point::new(1, 100)),
            bottom_right: Some(Point::new(2, 400)),
            ..Unit::default()
        };
        for at in order {
            merge_bounding_box(&mut unit, &rects[at]);
        }
        assert_eq!(unit.top_left, Some(Point::new(1, 2)));
        assert_eq!(unit.bottom_right, Some(Point::new(105, 400)));
    }
}

#[test]
fn one_corner_alone_is_set_anew() {
    let mut unit = Unit { top_left: Some(Point::new(1, 1)), ..Unit::default() };
    merge_bounding_box(&mut unit, &Rect { x: 7, y: 8, width: 2, height: 3 });
    assert_eq!(unit.top_left, Some(Point::new(7, 8)));
    assert_eq!(unit.bottom_right, Some(Point::new(9, 11)));
}

#[test]
fn the_frame_rectangle_is_the_bounds_with_padding() {
    let mut unit = Unit::default();
    assert!(matches!(
        calculate_frame_rect(&unit),
        Err(FfbeError::MissingValue(name)) if name == "top_left"
    ));
    unit.top_left = Some(Point::new(3, 4));
    assert!(matches!(
        calculate_frame_rect(&unit),
        Err(FfbeError::MissingValue(name)) if name == "bottom_right"
    ));
    unit.bottom_right = Some(Point::new(3, 44));
    assert_eq!(
        calculate_frame_rect(&unit).unwrap(),
        Rect { x: 3, y: 4, width: FRAME_PADDING, height: 40 + FRAME_PADDING }
    );
}

#[test]
fn entries_without_content_merge_nothing_and_are_kept_on_request() {
    let frames = vec![
        Frame { frame_idx: 0, parts: vec![], x: 0, y: 0, delay: 1 },
        Frame { frame_idx: 1, parts: vec![part(10, 20, (0, 0, 4, 3))], x: 1, y: 2, delay: 2 },
        Frame { frame_idx: 2, parts: vec![], x: 5, y: 5, delay: 3 },
        Frame { frame_idx: 3, parts: vec![part(-10, -20, (1, 1, 1, 1))], x: 0, y: 0, delay: 4 },
    ];
    let mut unit = Unit::default();
    let shown = process_frames(&frames, &atlas(), &mut unit, false);
    assert_eq!(shown.iter().map(|f| f.frame_idx).collect::<Vec<_>>(), vec![1, 3]);
    assert_eq!(unit.top_left, Some(Point::new(990, 980)));
    assert_eq!(unit.bottom_right, Some(Point::new(1015, 1025)));

    let mut unit = Unit::default();
    let shown = process_frames(&frames, &atlas(), &mut unit, true);
    assert_eq!(shown.iter().map(|f| f.delay).collect::<Vec<_>>(), vec![1, 2, 3, 4]);
    assert_eq!(shown[0].image.width(), 1);
    assert_eq!(shown[1].image.width(), CANVAS_SIZE);
    assert_eq!(shown[1].rect, Rect { x: 1011, y: 1022, width: 4, height: 3 });
    assert_eq!(unit.top_left, Some(Point::new(990, 980)));
    assert_eq!(unit.bottom_right, Some(Point::new(1015, 1025)));
}

#[test]
fn collecting_merges_only_what_has_a_box() {
    let frame = |frame_idx: usize, side: u32| CompositeFrame {
        frame_idx,
        image: Image::new(side, side),
        rect: Rect { x: 0, y: 0, width: side, height: side },
        delay: 0,
    };
    let results = vec![
        (frame(0, 1), None),
        (frame(1, 8), Some(Rect { x: 2, y: 3, width: 4, height: 5 })),
    ];
    let mut unit = Unit::default();
    let shown = collect_frames(results, &mut unit, false);
    assert_eq!(shown.len(), 1);
    assert_eq!(shown[0].frame_idx, 1);
    assert_eq!(unit.top_left, Some(Point::new(2, 3)));
    assert_eq!(unit.bottom_right, Some(Point::new(6, 8)));
}

#[test]
fn an_empty_frame_expands_to_the_frame_rectangle() {
    let frames = vec![
        Frame { frame_idx: 0, parts: vec![], x: 0, y: 0, delay: 1 },
        Frame { frame_idx: 1, parts: vec![part(0, 0, (0, 0, 4, 3))], x: 0, y: 0, delay: 2 },
    ];
    // without the request the empty entry is left out
    let mut unit = Unit::default();
    let shown = process_frames(&frames, &atlas(), &mut unit, false);
    assert_eq!(shown.len(), 1);
    assert_eq!(shown[0].frame_idx, 1);

    // with it, it is a 1x1 placeholder until the frames are normalized
    let mut unit = Unit::default();
    let mut shown = process_frames(&frames, &atlas(), &mut unit, true);
    assert_eq!(shown.len(), 2);
    assert_eq!((shown[0].image.width(), shown[0].image.height()), (1, 1));
    let rect = calculate_frame_rect(&unit).unwrap();
    assert_eq!(rect, Rect { x: 1000, y: 1000, width: 14, height: 13 });
    resize_empty_frames_to_bounds(&mut shown, &rect);
    crop_frames_to_bounds(&mut shown, &rect);
    assert_eq!((shown[0].image.width(), shown[0].image.height()), (14, 13));
    assert_eq!(shown[0].rect, rect);
    assert_eq!(shown[0].image.clone().into_raw(), vec![0u8; 4 * 14 * 13]);
    assert_eq!((shown[1].image.width(), shown[1].image.height()), (14, 13));
    assert_eq!(shown[1].image.get_pixel(0, 0), Rgba::new(0, 50, 60, 255));
    assert_eq!(shown[1].image.get_pixel(3, 2), Rgba::new(32, 50, 60, 255));
    assert_eq!(shown[1].image.get_pixel(4, 2), CLEAR);
}

#[test]
fn smaller_frames_are_never_padded() {
    let frame = |side: u32| CompositeFrame {
        frame_idx: 0,
        image: solid(side, side, Rgba::new(1, 2, 3, 255)),
        rect: Rect { x: 9, y: 9, width: side, height: side },
        delay: 0,
    };
    let mut frames = vec![frame(2), frame(4), frame(6)];
    let rect = Rect { x: 1, y: 2, width: 4, height: 4 };
    crop_frames_to_bounds(&mut frames, &rect);
    assert_eq!((frames[0].image.width(), frames[0].image.height()), (2, 2));
    assert_eq!((frames[1].image.width(), frames[1].image.height()), (4, 4));
    assert_eq!((frames[2].image.width(), frames[2].image.height()), (4, 4));
    // the rectangle that a frame stood for stays with it
    assert_eq!(frames[2].rect, Rect { x: 9, y: 9, width: 6, height: 6 });
    // a rectangle that reaches past the image is cut back
    let mut frames = vec![frame(6)];
    crop_frames_to_bounds(&mut frames, &Rect { x: 4, y: 0, width: 5, height: 5 });
    assert_eq!((frames[0].image.width(), frames[0].image.height()), (2, 5));
}

#[test]
fn three_frames_in_two_columns() {
    let colours = [
        Rgba::new(255, 0, 0, 255),
        Rgba::new(0, 255, 0, 255),
        Rgba::new(0, 0, 255, 255),
    ];
    let frames: Vec<CompositeFrame> = colours
        .iter()
        .enumerate()
        .map(|(frame_idx, colour)| CompositeFrame {
            frame_idx,
            image: solid(50, 50, *colour),
            rect: Rect { x: 0, y: 0, width: 50, height: 50 },
            delay: 0,
        })
        .collect();
    let rect = Rect { x: 7, y: 7, width: 50, height: 50 };
    let sheet = create_spritesheet(&frames, &rect, 2);
    assert_eq!((sheet.width(), sheet.height()), (100, 100));
    assert_eq!(sheet.get_pixel(0, 0), colours[0]);
    assert_eq!(sheet.get_pixel(49, 49), colours[0]);
    assert_eq!(sheet.get_pixel(50, 0), colours[1]);
    assert_eq!(sheet.get_pixel(99, 49), colours[1]);
    assert_eq!(sheet.get_pixel(0, 50), colours[2]);
    assert_eq!(sheet.get_pixel(49, 99), colours[2]);
    // the last cell stays empty
    assert_eq!(sheet.get_pixel(50, 50), CLEAR);
    assert_eq!(sheet.get_pixel(99, 99), CLEAR);
}

#[test]
fn a_single_row_where_the_columns_hold_every_frame() {
    let frames: Vec<CompositeFrame> = (0..3)
        .map(|frame_idx| CompositeFrame {
            frame_idx,
            image: solid(2, 3, Rgba::new(frame_idx as u8 + 1, 0, 0, 255)),
            rect: Rect::default(),
            delay: 0,
        })
        .collect();
    let rect = Rect { x: 0, y: 0, width: 2, height: 3 };
    for columns in [0, 3, 4, usize::MAX] {
        let sheet = create_spritesheet(&frames, &rect, columns);
        assert_eq!((sheet.width(), sheet.height()), (6, 3));
        for i in 0..3u32 {
            assert_eq!(sheet.get_pixel(2 * i, 0).r, i as u8 + 1);
            assert_eq!(sheet.get_pixel(2 * i + 1, 2).r, i as u8 + 1);
        }
    }
    let sheet = create_spritesheet(&frames, &rect, 1);
    assert_eq!((sheet.width(), sheet.height()), (2, 9));
    assert_eq!(sheet.get_pixel(1, 8).r, 3);
    let none = create_spritesheet(&vec![], &rect, 2);
    assert_eq!((none.width(), none.height()), (0, 3));
}

#[test]
fn rows_hold_every_frame() {
    assert_eq!(rows_needed(0, 3), 0);
    assert_eq!(rows_needed(1, 3), 1);
    assert_eq!(rows_needed(3, 3), 1);
    assert_eq!(rows_needed(4, 3), 2);
    assert_eq!(rows_needed(7, 2), 4);
    assert_eq!(rows_needed(usize::MAX, 1), usize::MAX);
    assert_eq!(rows_needed(usize::MAX, 2), usize::MAX / 2 + 1);
}

fn two_templates() -> Unit {
    create_unit(
        77,
        vec![
            vec![part(0, 0, (0, 0, 2, 2)), part(2, 0, (2, 0, 2, 3))],
            vec![],
        ],
    )
}

#[test]
fn entries_take_the_parts_of_their_templates() {
    let unit = two_templates();
    let metas = vec![CgsMeta(1, 5, 6, 7), CgsMeta(0, -1, -2, 3)];
    let frames = create_cgs_frames(metas, &unit).unwrap();
    assert_eq!(frames.len(), 2);
    assert_eq!((frames[0].frame_idx, frames[0].x, frames[0].y, frames[0].delay), (1, 5, 6, 7));
    assert!(frames[0].parts.is_empty());
    assert_eq!(frames[1].parts, unit.frames[0]);
    assert_eq!((frames[1].x, frames[1].y, frames[1].delay), (-1, -2, 3));
}

#[test]
fn an_entry_for_a_missing_template_is_an_error() {
    let unit = two_templates();
    let metas = vec![CgsMeta(0, 0, 0, 0), CgsMeta(2, 0, 0, 0), CgsMeta(9, 0, 0, 0)];
    let error = create_cgs_frames(metas, &unit).err().unwrap();
    assert_eq!(
        error.message(),
        "Parse error: Invalid frame reference 2: the unit has 2 frames"
    );
}

#[test]
fn an_animation_from_entries_to_sheet() {
    let mut unit = two_templates();
    unit.top_left = Some(Point::new(1, 1));
    unit.bottom_right = Some(Point::new(1999, 1999));
    let metas = vec![CgsMeta(0, 0, 0, 4), CgsMeta(1, 0, 0, 5), CgsMeta(0, 3, 1, 6)];
    let animation =
        render_animation(metas, &mut unit, &atlas(), true, 2).unwrap();
    // the bounds are those of this animation alone
    assert_eq!(unit.top_left, Some(Point::new(1000, 1000)));
    assert_eq!(unit.bottom_right, Some(Point::new(1007, 1004)));
    assert_eq!(animation.frame_rect, Rect { x: 1000, y: 1000, width: 17, height: 14 });
    assert_eq!(animation.frames.len(), 3);
    for frame in &animation.frames {
        assert_eq!((frame.image.width(), frame.image.height()), (17, 14));
    }
    assert_eq!(animation.frames.iter().map(|f| f.delay).collect::<Vec<_>>(), vec![4, 5, 6]);
    assert_eq!(animation.frames[0].image.get_pixel(0, 0), Rgba::new(0, 50, 60, 255));
    assert_eq!(animation.frames[0].image.get_pixel(3, 2), Rgba::new(32, 50, 60, 255));
    assert_eq!(animation.frames[1].image.clone().into_raw(), vec![0u8; 4 * 17 * 14]);
    assert_eq!(animation.frames[2].image.get_pixel(3, 1), Rgba::new(0, 50, 60, 255));
    assert_eq!(animation.frames[2].image.get_pixel(0, 0), CLEAR);
    let sheet = &animation.spritesheet;
    assert_eq!((sheet.width(), sheet.height()), (34, 28));
    assert_eq!(sheet.get_pixel(0, 0), Rgba::new(0, 50, 60, 255));
    assert_eq!(sheet.get_pixel(17, 0), CLEAR);
    assert_eq!(sheet.get_pixel(3, 15), Rgba::new(0, 50, 60, 255));
    assert_eq!(sheet.get_pixel(17, 14), CLEAR);
}

#[test]
fn an_animation_fails_in_a_fixed_order() {
    let small = Image::new(2, 2);
    // a missing template comes first
    let mut unit = two_templates();
    let metas = vec![CgsMeta(0, 0, 0, 0), CgsMeta(5, 0, 0, 0)];
    let error = render_animation(metas, &mut unit, &small, false, 0).err().unwrap();
    assert_eq!(
        error.message(),
        "Parse error: Invalid frame reference 5: the unit has 2 frames"
    );
    // then the parts
    let metas = vec![CgsMeta(1, 0, 0, 0), CgsMeta(0, 0, 0, 0)];
    let error = render_animation(metas, &mut unit, &small, false, 0).err().unwrap();
    assert_eq!(error.message(), "Invalid input: A part names a rectangle outside the atlas");
    // then the bounds
    let metas = vec![CgsMeta(1, 0, 0, 0)];
    unit.top_left = Some(Point::new(1, 1));
    let error = render_animation(metas, &mut unit, &atlas(), true, 0)
        .err()
        .unwrap();
    assert_eq!(error.message(), "Missing value: top_left");
    assert_eq!(unit.top_left, None);
    let error = render_animation(vec![], &mut unit, &atlas(), false, 0)
        .err()
        .unwrap();
    assert_eq!(error.message(), "Missing value: top_left");
}

#[test]
fn composing_apart_and_finishing_is_rendering() {
    let metas = vec![CgsMeta(0, 0, 0, 4), CgsMeta(1, 0, 0, 5), CgsMeta(0, 3, 1, 6)];
    let mut unit = two_templates();
    let whole =
        render_animation(metas.clone(), &mut unit, &atlas(), false, 0).unwrap();

    let mut other = two_templates();
    let frames = prepare_frames(metas, &mut other, &atlas()).unwrap();
    let results = frames
        .iter()
        .rev()
        .map(|frame| compose_frame(frame, &atlas()))
        .collect::<Vec<_>>()
        .into_iter()
        .rev()
        .collect();
    let apart = finish_animation(results, &mut other, false, 0).unwrap();

    assert_eq!(whole.frame_rect, apart.frame_rect);
    assert_eq!(whole.frames.len(), 2);
    assert_eq!(apart.frames.len(), 2);
    assert_eq!(whole.spritesheet.into_raw(), apart.spritesheet.into_raw());
    assert_eq!(unit.top_left, other.top_left);
    assert_eq!(unit.bottom_right, other.bottom_right);
}
