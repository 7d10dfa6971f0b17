use rsframe::pixel::Pixel;
use rsframe::frame::Frame;

fn solid(w: usize, h: usize, p: Pixel) -> Frame {
    Frame::new(w, h, p)
}

#[test]
fn new_frame_is_filled_with_background() {
    let bg = Pixel { r: 7, g: 8, b: 9 };
    let f = solid(3, 2, bg);
    assert_eq!(f.width, 3);
    assert_eq!(f.height, 2);
    for y in 0..2 {
        for x in 0..3 {
            assert_eq!(f.get_pixel(x, y), bg);
        }
    }
}

#[test]
fn put_pixel_then_get_pixel() {
    let mut f = solid(4, 4, Pixel { r: 0, g: 0, b: 0 });
    let p = Pixel { r: 1, g: 2, b: 3 };
    f.put_pixel(2, 3, p);
    assert_eq!(f.get_pixel(2, 3), p);
    assert_eq!(f.get_pixel(3, 2), Pixel { r: 0, g: 0, b: 0 });
}

#[test]
fn tint_with_zero_strength_is_identity() {
    let p = Pixel { r: 13, g: 200, b: 255 };
    let mut f = solid(5, 5, p);
    let original = f.clone();
    f.tint(Pixel { r: 255, g: 0, b: 128 }, 0, 1);
    assert_eq!(f, original);
}

#[test]
fn tint_with_full_strength_replaces_every_channel() {
    let mut f = solid(5, 5, Pixel { r: 13, g: 200, b: 255 });
    let target = Pixel { r: 255, g: 0, b: 128 };
    f.tint(target, 1, 1);
    for y in 0..5 {
        for x in 0..5 {
            assert_eq!(f.get_pixel(x, y), target);
        }
    }
}

#[test]
fn tint_half_strength_truncates() {
    // result = current + (target - current) * 1/2, truncated
    let mut f = solid(1, 1, Pixel { r: 100, g: 201, b: 40 });
    f.tint(Pixel { r: 0, g: 0, b: 41 }, 1, 2);
    // r: (100*1 + 0*1)/2 = 50; g: (201 + 0)/2 = 100 (truncated); b: (40 + 41)/2 = 40
    assert_eq!(f.get_pixel(0, 0), Pixel { r: 50, g: 100, b: 40 });
}

#[test]
fn monochrome_averages_with_truncation() {
    let mut f = solid(1, 1, Pixel { r: 10, g: 20, b: 40 });
    f.monochrome();
    // (10 + 20 + 40) / 3 = 23 (exact: 70/3 truncates to 23)
    assert_eq!(f.get_pixel(0, 0), Pixel { r: 23, g: 23, b: 23 });
}

#[test]
fn monochrome_is_idempotent() {
    let mut f = solid(2, 2, Pixel { r: 10, g: 20, b: 40 });
    f.put_pixel(1, 1, Pixel { r: 255, g: 0, b: 7 });
    f.monochrome();
    let once = f.clone();
    f.monochrome();
    assert_eq!(f, once);
}

#[test]
fn draw_over_larger_overlay_never_panics_or_leaks() {
    let base_color = Pixel { r: 1, g: 1, b: 1 };
    let over_color = Pixel { r: 9, g: 9, b: 9 };
    let mut base = solid(4, 3, base_color);
    let overlay = solid(10, 10, over_color);
    // overlay is larger than the base and offset: out-of-bounds pixels are skipped
    base.draw_over(&overlay, 2, 1);
    for y in 0..3 {
        for x in 0..4 {
            let expected = if x >= 2 && y >= 1 { over_color } else { base_color };
            assert_eq!(base.get_pixel(x, y), expected);
        }
    }
}

#[test]
fn draw_over_with_huge_offset_changes_nothing() {
    let base_color = Pixel { r: 1, g: 2, b: 3 };
    let mut base = solid(4, 4, base_color);
    let original = base.clone();
    let overlay = solid(8, 8, Pixel { r: 9, g: 9, b: 9 });
    base.draw_over(&overlay, usize::MAX - 3, usize::MAX - 3);
    assert_eq!(base, original);
}

#[test]
fn chroma_key_skips_matching_pixels() {
    let base_color = Pixel { r: 0, g: 0, b: 0 };
    let key = Pixel { r: 0, g: 255, b: 0 };
    let kept = Pixel { r: 200, g: 10, b: 10 };
    let mut base = solid(2, 1, base_color);
    let mut overlay = solid(2, 1, key);
    overlay.put_pixel(1, 0, kept);
    base.draw_with_chroma_key(&overlay, 0, 0, key, 0);
    assert_eq!(base.get_pixel(0, 0), base_color); // key-coloured pixel was transparent
    assert_eq!(base.get_pixel(1, 0), kept);
}

#[test]
fn chroma_key_equal_overlay_is_fully_transparent() {
    let key = Pixel { r: 12, g: 240, b: 56 };
    let mut base = solid(3, 3, Pixel { r: 5, g: 6, b: 7 });
    base.put_pixel(1, 2, Pixel { r: 90, g: 91, b: 92 });
    let original = base.clone();
    let overlay = solid(3, 3, key);
    base.draw_with_chroma_key(&overlay, 0, 0, key, 0);
    assert_eq!(base, original);
}

#[test]
fn chroma_key_tolerance_bounds() {
    let key = Pixel { r: 100, g: 100, b: 100 };
    let near = Pixel { r: 103, g: 97, b: 100 }; // all channels within 3
    let far = Pixel { r: 104, g: 100, b: 100 }; // one channel off by 4
    let mut base = solid(2, 1, Pixel { r: 0, g: 0, b: 0 });
    let mut overlay = solid(2, 1, near);
    overlay.put_pixel(1, 0, far);
    base.draw_with_chroma_key(&overlay, 0, 0, key, 3);
    assert_eq!(base.get_pixel(0, 0), Pixel { r: 0, g: 0, b: 0 }); // near: transparent
    assert_eq!(base.get_pixel(1, 0), far); // far: drawn
}

#[test]
fn expand_centres_content_over_background() {
    let content = Pixel { r: 200, g: 0, b: 0 };
    let bg = Pixel { r: 0, g: 0, b: 200 };
    let mut f = solid(2, 1, content);
    f.expand(4, 3, bg);
    assert_eq!(f.width, 4);
    assert_eq!(f.height, 3);
    // centring offsets: x0 = 4/2 - 2/2 = 1, y0 = 3/2 - 1/2 = 1
    for y in 0..3 {
        for x in 0..4 {
            let expected = if y == 1 && (x == 1 || x == 2) { content } else { bg };
            assert_eq!(f.get_pixel(x, y), expected);
        }
    }
}

#[test]
fn crop_then_expand_restores_centre_region() {
    let bg = Pixel { r: 0, g: 0, b: 0 };
    let mut f = solid(4, 4, bg);
    for y in 0..4 {
        for x in 0..4 {
            f.put_pixel(x, y, Pixel { r: (10 * x + y) as u8, g: x as u8, b: y as u8 });
        }
    }
    let original = f.clone();
    // centred 2x2 region: x0 = 4/2 - 2/2 = 1, y0 = 1
    let cropped = f.cropped(1, 1, 2, 2);
    let mut back = cropped.clone();
    back.expand(4, 4, bg);
    for y in 0..4 {
        for x in 0..4 {
            let inside = (1..3).contains(&x) && (1..3).contains(&y);
            let expected = if inside { original.get_pixel(x, y) } else { bg };
            assert_eq!(back.get_pixel(x, y), expected);
        }
    }
}

#[test]
fn rgb_samples_round_trip() {
    let mut f = solid(2, 2, Pixel { r: 0, g: 0, b: 0 });
    f.put_pixel(0, 0, Pixel { r: 1, g: 2, b: 3 });
    f.put_pixel(1, 0, Pixel { r: 4, g: 5, b: 6 });
    f.put_pixel(0, 1, Pixel { r: 7, g: 8, b: 9 });
    f.put_pixel(1, 1, Pixel { r: 10, g: 11, b: 12 });
    let samples = f.to_rgb_samples();
    assert_eq!(samples, vec![1, 2, 3, 4, 5, 6, 7, 8, 9, 10, 11, 12]);
    let back = Frame::from_rgb_samples(2, 2, &samples).unwrap();
    assert_eq!(back, f);
}

#[test]
fn from_rgb_samples_rejects_wrong_length() {
    let samples = vec![0u8; 11];
    assert!(Frame::from_rgb_samples(2, 2, &samples).is_none());
}
