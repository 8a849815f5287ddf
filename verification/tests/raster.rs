use ffbetool::imageops::OpacityExt;
use ffbetool::raster::{Image, Rgba};

/// A small picture in which no two pixels are alike.
fn sample(width: u32, height: u32) -> Image {
    let mut img = Image::new(width, height);
    for y in 0..height {
        for x in 0..width {
            let n = (y * width + x) as u8;
            img.put_pixel(x, y, Rgba::new(10 + n, 100 + n, 200 - n, 255 - 3 * n));
        }
    }
    img
}

fn to_buffer(img: &Image) -> image::RgbaImage {
    image::RgbaImage::from_raw(img.width(), img.height(), img.clone().into_raw()).unwrap()
}

fn same(ours: &Image, theirs: &image::RgbaImage) -> bool {
    ours.width() == theirs.width()
        && ours.height() == theirs.height()
        && ours.clone().into_raw() == *theirs.as_raw()
}

#[test]
fn new_image_is_transparent() {
    let img = Image::new(3, 2);
    assert_eq!(img.width(), 3);
    assert_eq!(img.height(), 2);
    assert_eq!(img.clone().into_raw(), vec![0u8; 24]);
    assert_eq!(img.get_pixel(2, 1), Rgba::new(0, 0, 0, 0));
    let nothing = Image::new(0, 7);
    assert_eq!(nothing.into_raw().len(), 0);
}

#[test]
fn raw_bytes_round_trip() {
    let bytes: Vec<u8> = (0..24).collect();
    let img = Image::from_raw(2, 3, bytes.clone()).unwrap();
    assert_eq!(img.get_pixel(0, 0), Rgba::new(0, 1, 2, 3));
    assert_eq!(img.get_pixel(1, 0), Rgba::new(4, 5, 6, 7));
    assert_eq!(img.get_pixel(0, 1), Rgba::new(8, 9, 10, 11));
    assert_eq!(img.get_pixel(1, 2), Rgba::new(20, 21, 22, 23));
    assert_eq!(img.into_raw(), bytes);
    assert!(Image::from_raw(2, 3, vec![0u8; 23]).is_none());
    assert!(Image::from_raw(2, 3, vec![0u8; 25]).is_none());
    assert!(Image::from_raw(0, 0, vec![]).is_some());
}

#[test]
fn put_pixel_changes_one_pixel() {
    let mut img = sample(3, 3);
    let before = img.clone();
    img.put_pixel(1, 2, Rgba::new(1, 2, 3, 4));
    for y in 0..3 {
        for x in 0..3 {
            if (x, y) == (1, 2) {
                assert_eq!(img.get_pixel(x, y), Rgba::new(1, 2, 3, 4));
            } else {
                assert_eq!(img.get_pixel(x, y), before.get_pixel(x, y));
            }
        }
    }
}

#[test]
fn flips_agree_with_the_image_crate() {
    let img = sample(3, 2);
    let buffer = to_buffer(&img);
    assert!(same(&img.flip_horizontal(), &image::imageops::flip_horizontal(&buffer)));
    assert!(same(&img.flip_vertical(), &image::imageops::flip_vertical(&buffer)));
    assert_eq!(img.flip_horizontal().get_pixel(0, 0), img.get_pixel(2, 0));
    assert_eq!(img.flip_vertical().get_pixel(0, 0), img.get_pixel(0, 1));
}

#[test]
fn rotations_agree_with_the_image_crate() {
    let img = sample(3, 2);
    let buffer = to_buffer(&img);
    assert!(same(&img.rotate90(), &image::imageops::rotate90(&buffer)));
    assert!(same(&img.rotate180(), &image::imageops::rotate180(&buffer)));
    assert!(same(&img.rotate270(), &image::imageops::rotate270(&buffer)));
    // a quarter turn clockwise puts the left column on top
    let turned = img.rotate90();
    assert_eq!(turned.width(), 2);
    assert_eq!(turned.height(), 3);
    assert_eq!(turned.get_pixel(1, 0), img.get_pixel(0, 0));
    assert_eq!(turned.get_pixel(0, 0), img.get_pixel(0, 1));
}

#[test]
fn crop_agrees_with_the_image_crate() {
    let img = sample(4, 3);
    let buffer = to_buffer(&img);
    let cases = [
        (0, 0, 4, 3),
        (1, 1, 2, 2),
        (3, 2, 1, 1),
        (2, 1, 10, 10), // reaches past the picture: cut back
        (4, 3, 1, 1),   // starts on the far corner: nothing left
        (9, 9, 2, 2),   // starts outside: nothing left
        (1, 0, 0, 2),
    ];
    for (x, y, w, h) in cases {
        let theirs = image::imageops::crop_imm(&buffer, x, y, w, h).to_image();
        assert!(same(&img.crop(x, y, w, h), &theirs));
    }
    let cut = img.crop(1, 1, 2, 2);
    assert_eq!(cut.get_pixel(0, 0), img.get_pixel(1, 1));
    assert_eq!(cut.get_pixel(1, 1), img.get_pixel(2, 2));
    assert_eq!(img.crop(2, 1, 10, 10).width(), 2);
    assert_eq!(img.crop(2, 1, 10, 10).height(), 2);
}

#[test]
fn overlay_draws_opaque_pixels_and_keeps_the_rest() {
    let mut canvas = sample(4, 4);
    let before = canvas.clone();
    let mut top = Image::new(2, 2);
    top.put_pixel(0, 0, Rgba::new(1, 2, 3, 255));
    top.put_pixel(1, 1, Rgba::new(9, 9, 9, 255));
    // (1, 0) and (0, 1) of `top` stay fully transparent
    canvas.overlay(&top, 1, 2);
    assert_eq!(canvas.get_pixel(1, 2), Rgba::new(1, 2, 3, 255));
    assert_eq!(canvas.get_pixel(2, 3), Rgba::new(9, 9, 9, 255));
    assert_eq!(canvas.get_pixel(2, 2), before.get_pixel(2, 2));
    assert_eq!(canvas.get_pixel(1, 3), before.get_pixel(1, 3));
    assert_eq!(canvas.get_pixel(0, 0), before.get_pixel(0, 0));
    assert_eq!(canvas.get_pixel(3, 3), before.get_pixel(3, 3));
}

#[test]
fn overlay_agrees_with_the_image_crate() {
    let top = sample(3, 3); // alphas from 255 down, none of them 0
    let offsets: [(i64, i64); 9] = [
        (0, 0),
        (1, 1),
        (-1, -2),
        (3, 3),
        (4, 0),
        (5, 5),
        (-3, 0),
        (-10, 2),
        (i64::MAX, i64::MIN),
    ];
    for (x, y) in offsets {
        let mut ours = sample(5, 4);
        let mut theirs = to_buffer(&ours);
        ours.overlay(&top, x, y);
        image::imageops::overlay(&mut theirs, &to_buffer(&top), x, y);
        assert!(same(&ours, &theirs));
    }
}

#[test]
fn overlay_off_the_canvas_changes_nothing() {
    let mut canvas = sample(3, 3);
    let before = canvas.clone().into_raw();
    let top = sample(2, 2);
    canvas.overlay(&top, 3, 0);
    canvas.overlay(&top, 0, 3);
    canvas.overlay(&top, -2, 0);
    canvas.overlay(&top, 0, -2);
    assert_eq!(canvas.into_raw(), before);
}

#[test]
fn opacity_scales_alpha_to_the_nearest_value() {
    let mut img = Image::new(4, 1);
    img.put_pixel(0, 0, Rgba::new(1, 2, 3, 200));
    img.put_pixel(1, 0, Rgba::new(1, 2, 3, 255));
    img.put_pixel(2, 0, Rgba::new(1, 2, 3, 5));
    img.put_pixel(3, 0, Rgba::new(1, 2, 3, 0));
    img.opacity(33);
    // 200 * 33 / 100 = 66
    assert_eq!(img.get_pixel(0, 0), Rgba::new(1, 2, 3, 66));
    // 255 * 33 / 100 = 84.15 -> 84
    assert_eq!(img.get_pixel(1, 0).a, 84);
    // 5 * 33 / 100 = 1.65 -> 2
    assert_eq!(img.get_pixel(2, 0).a, 2);
    assert_eq!(img.get_pixel(3, 0).a, 0);
}

#[test]
fn opacity_rounds_halves_upwards() {
    let mut img = Image::new(2, 1);
    img.put_pixel(0, 0, Rgba::new(0, 0, 0, 5));
    img.put_pixel(1, 0, Rgba::new(0, 0, 0, 150));
    img.opacity(10);
    assert_eq!(img.get_pixel(0, 0).a, 1); // 0.5 -> 1
    assert_eq!(img.get_pixel(1, 0).a, 15);
    let mut other = Image::new(1, 1);
    other.put_pixel(0, 0, Rgba::new(0, 0, 0, 150));
    other.opacity(21);
    assert_eq!(other.get_pixel(0, 0).a, 32); // 31.5 -> 32
}

#[test]
fn opacity_at_the_extremes() {
    for alpha in [0u8, 1, 127, 128, 254, 255] {
        let mut full = Image::new(1, 1);
        full.put_pixel(0, 0, Rgba::new(7, 8, 9, alpha));
        full.opacity(100);
        assert_eq!(full.get_pixel(0, 0), Rgba::new(7, 8, 9, alpha));

        let mut more = Image::new(1, 1);
        more.put_pixel(0, 0, Rgba::new(7, 8, 9, alpha));
        more.opacity(250);
        assert_eq!(more.get_pixel(0, 0), Rgba::new(7, 8, 9, alpha));

        let mut none = Image::new(1, 1);
        none.put_pixel(0, 0, Rgba::new(7, 8, 9, alpha));
        none.opacity(0);
        assert_eq!(none.get_pixel(0, 0), Rgba::new(7, 8, 9, 0));

        let mut below = Image::new(1, 1);
        below.put_pixel(0, 0, Rgba::new(7, 8, 9, alpha));
        below.opacity(-5);
        assert_eq!(below.get_pixel(0, 0), Rgba::new(7, 8, 9, 0));
    }
}

#[test]
fn opacity_is_monotonic() {
    for alpha in [1u8, 50, 199, 255] {
        let mut last = 0u8;
        for percent in 0..=100 {
            let mut img = Image::new(1, 1);
            img.put_pixel(0, 0, Rgba::new(0, 0, 0, alpha));
            img.opacity(percent);
            let now = img.get_pixel(0, 0).a;
            assert!(now >= last);
            assert!(now <= alpha);
            last = now;
        }
        assert_eq!(last, alpha);
    }
}
