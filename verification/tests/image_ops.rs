use image_processor::import;
use image_processor::Dimensions;
use image_processor::Image;
use image_processor::ImageMut;
use image_processor::ImageError;
use image_processor::OwnedImage;
use image_processor::Pixel;

fn px(r: u8, g: u8, b: u8, a: u8) -> Pixel {
    Pixel { r, g, b, alpha: a }
}

fn image_of(width: u32, height: u32, pixels: &[Pixel]) -> OwnedImage {
    assert_eq!(pixels.len(), (width * height) as usize);
    let mut bytes = Vec::new();
    for p in pixels {
        bytes.push(p.r);
        bytes.push(p.g);
        bytes.push(p.b);
        bytes.push(p.alpha);
    }
    import(Dimensions { width, height }, bytes).unwrap()
}

fn uniform_image(width: u32, height: u32, p: Pixel) -> OwnedImage {
    let pixels = vec![p; (width * height) as usize];
    image_of(width, height, &pixels)
}

fn all_pixels(img: &OwnedImage) -> Vec<Pixel> {
    let d = img.dimensions();
    let mut out = Vec::new();
    for y in 0..d.height {
        for x in 0..d.width {
            out.push(img.get_pixel(x, y).unwrap());
        }
    }
    out
}

#[test]
fn import_accepts_matching_buffer() {
    let img = import(Dimensions { width: 2, height: 3 }, vec![7u8; 24]).unwrap();
    let d = img.dimensions();
    assert_eq!((d.width, d.height), (2, 3));
    assert_eq!(img.get_pixel(1, 2).unwrap(), px(7, 7, 7, 7));
}

#[test]
fn import_rejects_wrong_length() {
    match import(Dimensions { width: 2, height: 3 }, vec![0u8; 23]) {
        Ok(_) => panic!("a 23-byte buffer must not pass for a 2x3 image"),
        Err(e) => assert_eq!(e, ImageError::InvalidBuffer),
    }
    match OwnedImage::new(Dimensions { width: 1, height: 1 }, vec![0u8; 5]) {
        Ok(_) => panic!("a 5-byte buffer must not pass for a 1x1 image"),
        Err(e) => assert_eq!(e, ImageError::InvalidBuffer),
    }
}

#[test]
fn get_pixel_out_of_bounds_fails_fast() {
    let img = uniform_image(3, 2, px(1, 2, 3, 4));
    assert_eq!(img.get_pixel(3, 0).unwrap_err(), ImageError::OutOfBounds);
    assert_eq!(img.get_pixel(0, 2).unwrap_err(), ImageError::OutOfBounds);
    assert_eq!(img.get_pixel(0, 1).unwrap(), px(1, 2, 3, 4));
}

#[test]
fn set_pixel_out_of_bounds_fails_fast() {
    let mut img = uniform_image(2, 2, px(0, 0, 0, 0));
    assert_eq!(img.set_pixel(2, 0, px(1, 1, 1, 1)).unwrap_err(), ImageError::OutOfBounds);
    assert_eq!(img.get_pixel(0, 0).unwrap(), px(0, 0, 0, 0));
    img.set_pixel(1, 1, px(9, 8, 7, 6)).unwrap();
    assert_eq!(img.get_pixel(1, 1).unwrap(), px(9, 8, 7, 6));
    assert_eq!(img.get_pixel(0, 1).unwrap(), px(0, 0, 0, 0));
}

#[test]
fn crop_full_view_is_identity() {
    let pixels: Vec<Pixel> = (0..12u8).map(|i| px(i, i + 1, i + 2, 255)).collect();
    let img = image_of(4, 3, &pixels);
    let view = img.crop(0, 0, Dimensions { width: 4, height: 3 });
    let d = view.dimensions();
    assert_eq!((d.width, d.height), (4, 3));
    for y in 0..3 {
        for x in 0..4 {
            assert_eq!(view.get_pixel(x, y).unwrap(), img.get_pixel(x, y).unwrap());
        }
    }
    assert_eq!(view.pixels(), *img.get_pixels());
}

#[test]
fn crop_clamps_to_source_extent() {
    let img = uniform_image(10, 8, px(5, 5, 5, 5));
    let view = img.crop(4, 0, Dimensions { width: 9, height: 8 });
    let d = view.dimensions();
    assert_eq!(d.width, 6);
    assert_eq!(d.height, 8);
    let view = img.crop(20, 20, Dimensions { width: 3, height: 3 });
    let d = view.dimensions();
    assert_eq!((d.width, d.height), (0, 0));
}

#[test]
fn crop_of_four_by_four_clamps_to_two_by_two() {
    let img = uniform_image(4, 4, px(1, 2, 3, 4));
    let view = img.crop(2, 2, Dimensions { width: 4, height: 4 });
    let d = view.dimensions();
    assert_eq!((d.width, d.height), (2, 2));
}

#[test]
fn crop_then_materialize_uses_backing_stride() {
    // 4x4 image with every byte distinct, so a wrong row stride in the
    // materialized window would surface immediately.
    let bytes: Vec<u8> = (0..64u8).collect();
    let img = import(Dimensions { width: 4, height: 4 }, bytes).unwrap();
    let view = img.crop(1, 1, Dimensions { width: 2, height: 2 });
    // row 1 starts at byte 16; pixel (1,1) at 20; pixel (1,2) at 36.
    let expected: Vec<u8> = vec![
        20, 21, 22, 23, 24, 25, 26, 27,
        36, 37, 38, 39, 40, 41, 42, 43,
    ];
    assert_eq!(view.transform_pixel_index(), expected);
    assert_eq!(view.pixels(), expected);
}

#[test]
fn nested_crop_offsets_accumulate() {
    let bytes: Vec<u8> = (0..64u8).collect();
    let img = import(Dimensions { width: 4, height: 4 }, bytes).unwrap();
    let outer = img.crop(1, 1, Dimensions { width: 3, height: 3 });
    let inner = outer.crop(1, 1, Dimensions { width: 2, height: 2 });
    let d = inner.dimensions();
    assert_eq!((d.width, d.height), (2, 2));
    assert_eq!(inner.get_pixel(0, 0).unwrap(), img.get_pixel(2, 2).unwrap());
    assert_eq!(inner.get_pixel(1, 1).unwrap(), img.get_pixel(3, 3).unwrap());
}

#[test]
fn crop_mut_matches_crop() {
    let pixels: Vec<Pixel> = (0..16u8).map(|i| px(i, 0, 0, 255)).collect();
    let mut img = image_of(4, 4, &pixels);
    let expected = {
        let view = img.crop(1, 0, Dimensions { width: 2, height: 4 });
        view.pixels()
    };
    let view = img.crop_mut(1, 0, Dimensions { width: 2, height: 4 });
    let d = view.dimensions();
    assert_eq!((d.width, d.height), (2, 4));
    assert_eq!(view.pixels(), expected);
    assert_eq!(view.get_pixel(0, 0).unwrap(), px(1, 0, 0, 255));
}

#[test]
fn flipped_two_by_two_reverses_rows_and_columns() {
    let a = px(1, 0, 0, 255);
    let b = px(2, 0, 0, 255);
    let c = px(3, 0, 0, 255);
    let d = px(4, 0, 0, 255);
    let img = image_of(2, 2, &[a, b, c, d]);
    let both = img.flipped(true, true);
    assert_eq!(all_pixels(&both), vec![d, c, b, a]);
}

#[test]
fn flipped_single_axis() {
    let a = px(1, 0, 0, 255);
    let b = px(2, 0, 0, 255);
    let c = px(3, 0, 0, 255);
    let d = px(4, 0, 0, 255);
    let img = image_of(2, 2, &[a, b, c, d]);
    assert_eq!(all_pixels(&img.flipped(true, false)), vec![b, a, d, c]);
    assert_eq!(all_pixels(&img.flipped(false, true)), vec![c, d, a, b]);
    assert_eq!(all_pixels(&img.flipped(false, false)), vec![a, b, c, d]);
}

#[test]
fn flipped_twice_is_identity_both_flags() {
    let pixels: Vec<Pixel> = (0..15u8).map(|i| px(i, 2 * i, 3 * i, 100 + i)).collect();
    let img = image_of(5, 3, &pixels);
    let twice = img.flipped(true, true).flipped(true, true);
    assert_eq!(all_pixels(&twice), pixels);
}

#[test]
fn flipped_twice_is_identity_horizontal() {
    let pixels: Vec<Pixel> = (0..15u8).map(|i| px(i, 2 * i, 3 * i, 100 + i)).collect();
    let img = image_of(3, 5, &pixels);
    let twice = img.flipped(true, false).flipped(true, false);
    assert_eq!(all_pixels(&twice), pixels);
}

#[test]
fn flip_in_place_matches_flipped() {
    let pixels: Vec<Pixel> = (0..15u8).map(|i| px(i, i + 1, i + 2, 200)).collect();
    for &(horiz, vert) in &[(false, false), (true, false), (false, true), (true, true)] {
        // odd width and odd height cover the middle column and row
        let img = image_of(5, 3, &pixels);
        let expected = all_pixels(&img.flipped(horiz, vert));
        let mut mutated = image_of(5, 3, &pixels);
        mutated.flip(horiz, vert);
        assert_eq!(all_pixels(&mutated), expected);
    }
}

#[test]
fn flip_in_place_even_dimensions() {
    let pixels: Vec<Pixel> = (0..16u8).map(|i| px(i, 0, 0, i)).collect();
    for &(horiz, vert) in &[(true, false), (false, true), (true, true)] {
        let img = image_of(4, 4, &pixels);
        let expected = all_pixels(&img.flipped(horiz, vert));
        let mut mutated = image_of(4, 4, &pixels);
        mutated.flip(horiz, vert);
        assert_eq!(all_pixels(&mutated), expected);
    }
}

#[test]
fn greyscale_has_equal_channels_and_keeps_alpha() {
    let pixels: Vec<Pixel> = (0..12u8).map(|i| px(20 * i, 5 * i, 3 * i, i)).collect();
    let img = image_of(4, 3, &pixels);
    let grey = img.greyscale();
    for (out, orig) in all_pixels(&grey).iter().zip(pixels.iter()) {
        assert_eq!(out.r, out.g);
        assert_eq!(out.g, out.b);
        assert_eq!(out.alpha, orig.alpha);
    }
}

#[test]
fn greyscale_ten_by_ten_example() {
    // round(0.299*10 + 0.587*20 + 0.114*30) = round(18.15) = 18
    let img = uniform_image(10, 10, px(10, 20, 30, 255));
    let grey = img.greyscale();
    for p in all_pixels(&grey) {
        assert_eq!(p, px(18, 18, 18, 255));
    }
}

#[test]
fn greyscale_mut_matches_greyscale() {
    let pixels: Vec<Pixel> = (0..12u8).map(|i| px(20 * i, 5 * i, 3 * i, i)).collect();
    let img = image_of(3, 4, &pixels);
    let expected = all_pixels(&img.greyscale());
    let mut mutated = image_of(3, 4, &pixels);
    mutated.greyscale_mut();
    assert_eq!(all_pixels(&mutated), expected);
}

#[test]
fn copy_from_replaces_dimensions_and_pixels() {
    let mut dst = uniform_image(1, 1, px(0, 0, 0, 0));
    let src = uniform_image(3, 2, px(9, 9, 9, 9));
    dst.copy_from(&src);
    let d = dst.dimensions();
    assert_eq!((d.width, d.height), (3, 2));
    assert_eq!(all_pixels(&dst), all_pixels(&src));
}

#[test]
fn flip_from_copies_then_flips() {
    let a = px(1, 0, 0, 255);
    let b = px(2, 0, 0, 255);
    let c = px(3, 0, 0, 255);
    let d = px(4, 0, 0, 255);
    let src = image_of(2, 2, &[a, b, c, d]);
    let mut dst = uniform_image(1, 1, px(0, 0, 0, 0));
    dst.flip_from(true, true, &src);
    assert_eq!(all_pixels(&dst), vec![d, c, b, a]);
}

#[test]
fn slice_transformations_match_owned_transformations() {
    let pixels: Vec<Pixel> = (0..16u8).map(|i| px(i, 15 - i, 2 * i, 255)).collect();
    let img = image_of(4, 4, &pixels);
    let view = img.crop(1, 1, Dimensions { width: 2, height: 2 });
    let standalone = import(Dimensions { width: 2, height: 2 }, view.pixels()).unwrap();
    assert_eq!(
        all_pixels(&view.flipped(true, false)),
        all_pixels(&standalone.flipped(true, false)),
    );
    assert_eq!(all_pixels(&view.greyscale()), all_pixels(&standalone.greyscale()));
    assert_eq!(all_pixels(&view.blurred(1)), all_pixels(&standalone.blurred(1)));
}

#[test]
fn mutable_view_supports_the_read_only_operations() {
    let pixels: Vec<Pixel> = (0..16u8).map(|i| px(i, 15 - i, 2 * i, 255)).collect();
    let reference = {
        let img = image_of(4, 4, &pixels);
        let view = img.crop(1, 1, Dimensions { width: 2, height: 2 });
        (
            view.pixels(),
            all_pixels(&view.flipped(true, true)),
            all_pixels(&view.greyscale()),
            all_pixels(&view.blurred(1)),
            view.crop(1, 0, Dimensions { width: 1, height: 2 }).pixels(),
        )
    };
    let mut img = image_of(4, 4, &pixels);
    let view = img.crop_mut(1, 1, Dimensions { width: 2, height: 2 });
    assert_eq!(view.transform_pixel_index(), reference.0);
    assert_eq!(all_pixels(&view.flipped(true, true)), reference.1);
    assert_eq!(all_pixels(&view.greyscale()), reference.2);
    assert_eq!(all_pixels(&view.blurred(1)), reference.3);
    assert_eq!(view.crop(1, 0, Dimensions { width: 1, height: 2 }).pixels(), reference.4);
}

#[test]
fn error_messages_name_each_failure() {
    assert_eq!(ImageError::OutOfBounds.message(), "pixel coordinates out of bounds");
    assert_eq!(ImageError::InvalidBuffer.message(), "buffer length does not match dimensions");
    assert_eq!(ImageError::DecodeFailure.message(), "could not decode image");
    assert_eq!(ImageError::EncodeFailure.message(), "could not encode image");
}
