use rsframe::pixel::Pixel;
use rsframe::frame::Frame;
use rsframe::video::{Video, VideoPosition};
use rsframe::error::VfxError;

const RED: Pixel = Pixel { r: 200, g: 0, b: 0 };
const GREEN: Pixel = Pixel { r: 0, g: 200, b: 0 };
const BLUE: Pixel = Pixel { r: 0, g: 0, b: 200 };
const BLACK: Pixel = Pixel { r: 0, g: 0, b: 0 };

fn video_of(colors: &[Pixel], w: usize, h: usize) -> Video {
    let mut v = Video::new(w, h);
    for c in colors {
        v.append_frame(Frame::new(w, h, *c)).unwrap();
    }
    v
}

#[test]
fn append_frame_grows_in_order() {
    let v = video_of(&[RED, GREEN, BLUE], 8, 8);
    assert_eq!(v.length(), 3);
    assert_eq!(v.get_frame(0).get_pixel(0, 0), RED);
    assert_eq!(v.get_frame(1).get_pixel(0, 0), GREEN);
    assert_eq!(v.get_frame(2).get_pixel(0, 0), BLUE);
}

#[test]
fn append_frame_rejects_mismatched_dimensions() {
    let mut v = Video::new(8, 8);
    let err = v.append_frame(Frame::new(4, 8, RED)).unwrap_err();
    assert_eq!(
        err,
        VfxError::DimensionMismatch {
            frame_width: 4,
            frame_height: 8,
            video_width: 8,
            video_height: 8,
        }
    );
    assert_eq!(v.length(), 0);
}

#[test]
fn bulk_append_keeps_order_and_is_atomic() {
    let mut v = video_of(&[RED], 8, 8);
    let batch = vec![Frame::new(8, 8, GREEN), Frame::new(8, 8, BLUE)];
    v.bulk_append_frame(&batch).unwrap();
    assert_eq!(v.length(), 3);
    assert_eq!(v.get_frame(1).get_pixel(3, 3), GREEN);
    assert_eq!(v.get_frame(2).get_pixel(3, 3), BLUE);

    let bad = vec![Frame::new(8, 8, GREEN), Frame::new(7, 8, BLUE)];
    assert_eq!(
        v.bulk_append_frame(&bad).unwrap_err(),
        VfxError::DimensionMismatch {
            frame_width: 7,
            frame_height: 8,
            video_width: 8,
            video_height: 8,
        }
    );
    assert_eq!(v.length(), 3); // nothing appended
}

#[test]
fn append_still_appends_copies() {
    let mut v = video_of(&[RED], 8, 8);
    v.append_still(&Frame::new(8, 8, GREEN), 3).unwrap();
    assert_eq!(v.length(), 4);
    for i in 1..4 {
        assert_eq!(v.get_frame(i).get_pixel(0, 0), GREEN);
    }
}

#[test]
fn video_monochrome_applies_to_every_frame() {
    let mut v = video_of(&[Pixel { r: 10, g: 20, b: 40 }, Pixel { r: 9, g: 9, b: 9 }], 4, 4);
    v.monochrome();
    assert_eq!(v.get_frame(0).get_pixel(1, 1), Pixel { r: 23, g: 23, b: 23 });
    assert_eq!(v.get_frame(1).get_pixel(1, 1), Pixel { r: 9, g: 9, b: 9 });
}

#[test]
fn crop_updates_every_frame_and_dimensions() {
    let mut v = Video::new(4, 4);
    let mut f = Frame::new(4, 4, BLACK);
    f.put_pixel(2, 1, RED);
    v.append_frame(f).unwrap();
    v.append_frame(Frame::new(4, 4, GREEN)).unwrap();
    v.crop(1, 1, 3, 2).unwrap();
    assert_eq!(v.width, 3);
    assert_eq!(v.height, 2);
    assert_eq!(v.length(), 2);
    assert_eq!(v.get_frame(0).width, 3);
    assert_eq!(v.get_frame(0).height, 2);
    // the red pixel was at (2, 1); after cropping at (1, 1) it sits at (1, 0)
    assert_eq!(v.get_frame(0).get_pixel(1, 0), RED);
    assert_eq!(v.get_frame(0).get_pixel(0, 0), BLACK);
    assert_eq!(v.get_frame(1).get_pixel(2, 1), GREEN);
}

#[test]
fn crop_out_of_bounds_is_rejected() {
    let mut v = video_of(&[RED], 4, 4);
    let err = v.crop(2, 0, 3, 4).unwrap_err();
    assert_eq!(
        err,
        VfxError::CropOutOfBounds {
            x_start: 2,
            y_start: 0,
            crop_width: 3,
            crop_height: 4,
            video_width: 4,
            video_height: 4,
        }
    );
    assert_eq!(v.width, 4);
    assert_eq!(v.get_frame(0).get_pixel(3, 3), RED);
}

#[test]
fn splice_keeps_inclusive_range() {
    let mut v = video_of(&[RED, GREEN, BLUE], 8, 8);
    v.splice(1, 2).unwrap();
    assert_eq!(v.length(), 2);
    assert_eq!(v.get_frame(0).get_pixel(0, 0), GREEN);
    assert_eq!(v.get_frame(1).get_pixel(0, 0), BLUE);
}

#[test]
fn splice_single_index_keeps_exactly_that_frame() {
    let mut v = video_of(&[RED, GREEN, BLUE], 8, 8);
    let expected = v.get_frame(1).clone();
    v.splice(1, 1).unwrap();
    assert_eq!(v.length(), 1);
    assert_eq!(*v.get_frame(0), expected);
}

#[test]
fn splice_rejects_bad_ranges() {
    let mut v = video_of(&[RED, GREEN, BLUE], 8, 8);
    assert_eq!(
        v.splice(2, 1).unwrap_err(),
        VfxError::InvalidRange { start: 2, end: 1, length: 3 }
    );
    assert_eq!(
        v.splice(1, 3).unwrap_err(),
        VfxError::InvalidRange { start: 1, end: 3, length: 3 }
    );
    assert_eq!(v.length(), 3);
}

#[test]
fn concat_preserves_lengths_and_order() {
    let mut v1 = video_of(&[RED, GREEN], 8, 8);
    let v2 = video_of(&[BLUE], 8, 8);
    v1.concat(&v2);
    assert_eq!(v1.length(), 3);
    assert_eq!(v1.get_frame(0).get_pixel(0, 0), RED);
    assert_eq!(v1.get_frame(1).get_pixel(0, 0), GREEN);
    assert_eq!(v1.get_frame(2).get_pixel(0, 0), BLUE);
    assert_eq!(v2.length(), 1); // the source video is untouched
}

#[test]
fn fade_in_at_start_tints_strongest_first() {
    let c = Pixel { r: 100, g: 100, b: 100 };
    let mut v = video_of(&[c, c, c, c], 2, 2);
    v.fade_in(2, BLACK, VideoPosition::START).unwrap();
    // frame 0: strength (2-1-0)/2 = 1/2 -> 100 + (0-100)/2 = 50
    assert_eq!(v.get_frame(0).get_pixel(0, 0), Pixel { r: 50, g: 50, b: 50 });
    // frame 1: strength 0 -> unchanged
    assert_eq!(v.get_frame(1).get_pixel(0, 0), c);
    // frames beyond the fade are untouched
    assert_eq!(v.get_frame(2).get_pixel(0, 0), c);
    assert_eq!(v.get_frame(3).get_pixel(0, 0), c);
}

#[test]
fn fade_in_at_end_tints_strongest_last() {
    let c = Pixel { r: 100, g: 100, b: 100 };
    let mut v = video_of(&[c, c, c, c], 2, 2);
    v.fade_in(2, BLACK, VideoPosition::END).unwrap();
    assert_eq!(v.get_frame(0).get_pixel(0, 0), c);
    assert_eq!(v.get_frame(1).get_pixel(0, 0), c);
    // frame 2: strength 0/2 -> unchanged; frame 3: strength 1/2
    assert_eq!(v.get_frame(2).get_pixel(0, 0), c);
    assert_eq!(v.get_frame(3).get_pixel(0, 0), Pixel { r: 50, g: 50, b: 50 });
}

#[test]
fn fade_longer_than_video_is_rejected() {
    let mut v = video_of(&[RED, GREEN], 2, 2);
    assert_eq!(
        v.fade_in(3, BLACK, VideoPosition::END).unwrap_err(),
        VfxError::FadeTooLong { duration: 3, length: 2 }
    );
    assert_eq!(v.get_frame(0).get_pixel(0, 0), RED);
}

#[test]
fn bulk_draw_over_hits_only_the_range() {
    let mut v = video_of(&[RED, RED, RED], 4, 4);
    let overlay = Frame::new(2, 2, BLUE);
    v.bulk_draw_over(&overlay, 1, 1, 1, 2).unwrap();
    assert_eq!(v.get_frame(0).get_pixel(1, 1), RED);
    assert_eq!(v.get_frame(1).get_pixel(1, 1), BLUE);
    assert_eq!(v.get_frame(2).get_pixel(2, 2), BLUE);
    assert_eq!(v.get_frame(2).get_pixel(0, 0), RED);
    assert_eq!(v.get_frame(2).get_pixel(3, 3), RED);
}

#[test]
fn bulk_draw_over_rejects_bad_range() {
    let mut v = video_of(&[RED, RED], 4, 4);
    let overlay = Frame::new(2, 2, BLUE);
    assert_eq!(
        v.bulk_draw_over(&overlay, 0, 0, 1, 2).unwrap_err(),
        VfxError::InvalidRange { start: 1, end: 2, length: 2 }
    );
}

#[test]
fn bulk_chroma_key_respects_transparency_in_range() {
    let key = Pixel { r: 0, g: 255, b: 0 };
    let mut v = video_of(&[RED, RED], 4, 4);
    let mut overlay = Frame::new(2, 2, key);
    overlay.put_pixel(0, 0, BLUE);
    v.bulk_draw_with_chroma_key(&overlay, 0, 0, key, 0, 0, 0).unwrap();
    assert_eq!(v.get_frame(0).get_pixel(0, 0), BLUE); // drawn
    assert_eq!(v.get_frame(0).get_pixel(1, 1), RED); // key pixel: transparent
    assert_eq!(v.get_frame(1).get_pixel(0, 0), RED); // outside the range
}

#[test]
fn from_frames_takes_dimensions_from_first() {
    let frames = vec![Frame::new(6, 4, RED), Frame::new(6, 4, GREEN)];
    let v = Video::from_frames(frames).unwrap();
    assert_eq!(v.width, 6);
    assert_eq!(v.height, 4);
    assert_eq!(v.length(), 2);
}

#[test]
fn from_frames_rejects_empty_and_mismatched() {
    assert_eq!(Video::from_frames(Vec::new()).unwrap_err(), VfxError::NoFrames);
    let mixed = vec![Frame::new(6, 4, RED), Frame::new(4, 6, GREEN)];
    assert_eq!(
        Video::from_frames(mixed).unwrap_err(),
        VfxError::DimensionMismatch {
            frame_width: 4,
            frame_height: 6,
            video_width: 6,
            video_height: 4,
        }
    );
}

#[test]
fn get_frame_mut_edits_in_place() {
    let mut v = video_of(&[RED], 4, 4);
    v.get_frame_mut(0).put_pixel(2, 2, BLUE);
    assert_eq!(v.get_frame(0).get_pixel(2, 2), BLUE);
    assert_eq!(v.get_frame(0).get_pixel(1, 1), RED);
}

#[test]
fn splice_then_append_still_end_to_end() {
    // three solid 64x64 frames, splice to keep frames [1, 2], then one more still
    let mut v = video_of(&[RED, GREEN, BLUE], 64, 64);
    v.splice(1, 2).unwrap();
    let still = Frame::new(64, 64, BLACK);
    v.append_still(&still, 1).unwrap();
    assert_eq!(v.length(), 3);
    assert_eq!(v.get_frame(0).get_pixel(10, 10), GREEN);
    assert_eq!(v.get_frame(1).get_pixel(10, 10), BLUE);
    assert_eq!(v.get_frame(2).get_pixel(10, 10), BLACK);
}
