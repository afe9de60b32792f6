use image_processor::blur_kernel_radii;
use image_processor::box_blur;
use image_processor::import;
use image_processor::Dimensions;
use image_processor::Image;
use image_processor::ImageMut;
use image_processor::OwnedImage;
use image_processor::Pixel;

fn px(r: u8, g: u8, b: u8, a: u8) -> Pixel {
    Pixel { r, g, b, alpha: a }
}

fn image_of(width: u32, height: u32, pixels: &[Pixel]) -> OwnedImage {
    assert_eq!(pixels.len(), (width * height) as usize);
    let mut bytes = Vec::new();
    for p in pixels {
        bytes.push(p.r);
        bytes.push(p.g);
        bytes.push(p.b);
        bytes.push(p.alpha);
    }
    import(Dimensions { width, height }, bytes).unwrap()
}

fn all_pixels(img: &OwnedImage) -> Vec<Pixel> {
    let d = img.dimensions();
    let mut out = Vec::new();
    for y in 0..d.height {
        for x in 0..d.width {
            out.push(img.get_pixel(x, y).unwrap());
        }
    }
    out
}

#[test]
fn kernel_radii_for_small_sigmas() {
    // sigma 0: ideal width sqrt(1) = 1, all three sizes 1, radius 0.
    assert_eq!(blur_kernel_radii(0), (0, 0, 0));
    // sigma 1: wl = isqrt(5) = 2, m = ceil(33/12) = 3, sizes (2,2,2).
    assert_eq!(blur_kernel_radii(1), (0, 0, 0));
    // sigma 2: wl = isqrt(17) = 4, m = ceil(57/20) = 3, sizes (4,4,4).
    assert_eq!(blur_kernel_radii(2), (1, 1, 1));
    // sigma 3: wl = isqrt(37) = 6, m = ceil(81/28) = 3, sizes (6,6,6).
    assert_eq!(blur_kernel_radii(3), (2, 2, 2));
    // sigma 10: wl = isqrt(401) = 20, sizes (20,20,20), radius 9.
    assert_eq!(blur_kernel_radii(10), (9, 9, 9));
}

#[test]
fn box_blur_radius_zero_is_identity() {
    let pixels: Vec<Pixel> = (0..12u8).map(|i| px(i, 2 * i, 3 * i, i)).collect();
    let mut img = image_of(4, 3, &pixels);
    box_blur(&mut img, 0);
    assert_eq!(all_pixels(&img), pixels);
}

#[test]
fn box_blur_two_by_two_exact_values() {
    // Radius 1 over a 2x2 image: every neighbourhood is the whole image
    // with edge replication. For pixel (0,0) the nine clamped samples hit
    // (0,0) four times, (1,0) and (0,1) twice each, (1,1) once.
    let a = px(10, 0, 255, 11);
    let b = px(20, 0, 0, 22);
    let c = px(30, 0, 0, 33);
    let d = px(40, 9, 0, 44);
    let mut img = image_of(2, 2, &[a, b, c, d]);
    box_blur(&mut img, 1);
    // (0,0): r = (4*10 + 2*20 + 2*30 + 40)/9 = 180/9 = 20
    //        g = 9/9 = 1, b = 4*255/9 = 113 (truncating)
    assert_eq!(img.get_pixel(0, 0).unwrap(), px(20, 1, 113, 11));
    // (1,0): samples 2a + 4b + c + 2d: r = (20+80+30+80)/9 = 210/9 = 23
    //        g = 2*9/9 = 2, b = 2*255/9 = 56
    assert_eq!(img.get_pixel(1, 0).unwrap(), px(23, 2, 56, 22));
    // (0,1): samples 2a + b + 4c + 2d: r = (20+20+120+80)/9 = 240/9 = 26
    //        g = 2*9/9 = 2, b = 2*255/9 = 56
    assert_eq!(img.get_pixel(0, 1).unwrap(), px(26, 2, 56, 33));
    // (1,1): samples a + 2b + 2c + 4d: r = (10+40+60+160)/9 = 270/9 = 30
    //        g = 4*9/9 = 4, b = 255/9 = 28
    assert_eq!(img.get_pixel(1, 1).unwrap(), px(30, 4, 28, 44));
}

#[test]
fn box_blur_preserves_uniform_image() {
    let colour = px(120, 7, 200, 63);
    let mut img = image_of(5, 4, &vec![colour; 20]);
    box_blur(&mut img, 2);
    for p in all_pixels(&img) {
        assert_eq!(p, colour);
    }
}

#[test]
fn blurred_preserves_uniform_image_including_edges() {
    let colour = px(50, 100, 150, 77);
    let img = image_of(6, 5, &vec![colour; 30]);
    for amount in [0u32, 1, 2, 3, 5] {
        let blurred = img.blurred(amount);
        let d = blurred.dimensions();
        assert_eq!((d.width, d.height), (6, 5));
        for p in all_pixels(&blurred) {
            assert_eq!(p, colour);
        }
    }
}

#[test]
fn blurred_amount_zero_is_identity() {
    let pixels: Vec<Pixel> = (0..20u8).map(|i| px(i, 2 * i, 3 * i, 255 - i)).collect();
    let img = image_of(5, 4, &pixels);
    assert_eq!(all_pixels(&img.blurred(0)), pixels);
}

#[test]
fn blur_in_place_matches_blurred() {
    let pixels: Vec<Pixel> = (0..20u8).map(|i| px(10 * (i % 5), 7 * i, 255 - i, i)).collect();
    let img = image_of(4, 5, &pixels);
    let expected = all_pixels(&img.blurred(2));
    let mut mutated = image_of(4, 5, &pixels);
    mutated.blur(2);
    assert_eq!(all_pixels(&mutated), expected);
}

#[test]
fn blur_from_copies_then_blurs() {
    let pixels: Vec<Pixel> = (0..9u8).map(|i| px(i * 20, i, 0, 255)).collect();
    let src = image_of(3, 3, &pixels);
    let expected = all_pixels(&src.blurred(2));
    let mut dst = image_of(1, 1, &[px(0, 0, 0, 0)]);
    dst.blur_from(2, &src);
    assert_eq!(all_pixels(&dst), expected);
}

#[test]
fn blur_never_averages_alpha() {
    let mut pixels = vec![px(0, 0, 0, 10); 9];
    pixels[4] = px(255, 255, 255, 200);
    let img = image_of(3, 3, &pixels);
    let blurred = img.blurred(2);
    let out = all_pixels(&blurred);
    for (i, p) in out.iter().enumerate() {
        assert_eq!(p.alpha, pixels[i].alpha);
    }
}
