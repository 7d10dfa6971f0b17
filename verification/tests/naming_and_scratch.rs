use rsframe::naming::{bmp_frame_name, png_frame_name, frame_index_of_name, sort_order};
use rsframe::scratch::{rng_string, scratch_folder_name};

#[test]
fn bmp_names_are_numbered() {
    assert_eq!(bmp_frame_name(1), b"image1.bmp".to_vec());
    assert_eq!(bmp_frame_name(42), b"image42.bmp".to_vec());
    assert_eq!(bmp_frame_name(0), b"image0.bmp".to_vec());
    assert_eq!(bmp_frame_name(1000), b"image1000.bmp".to_vec());
}

#[test]
fn png_names_are_numbered() {
    assert_eq!(png_frame_name(7), b"image7.png".to_vec());
    assert_eq!(png_frame_name(123456789), b"image123456789.png".to_vec());
}

#[test]
fn frame_index_parses_round_trip() {
    for n in [0u64, 1, 9, 10, 99, 12345, u64::MAX] {
        assert_eq!(frame_index_of_name(&png_frame_name(n)), Some(n));
    }
}

#[test]
fn frame_index_accepts_leading_zeros() {
    assert_eq!(frame_index_of_name(&b"image007.png".to_vec()), Some(7));
}

#[test]
fn frame_index_rejects_malformed_names() {
    assert_eq!(frame_index_of_name(&b"".to_vec()), None);
    assert_eq!(frame_index_of_name(&b"image.png".to_vec()), None);
    assert_eq!(frame_index_of_name(&b"image12.bmp".to_vec()), None);
    assert_eq!(frame_index_of_name(&b"frame12.png".to_vec()), None);
    assert_eq!(frame_index_of_name(&b"image1x2.png".to_vec()), None);
    assert_eq!(frame_index_of_name(&b"image12.pngg".to_vec()), None);
}

#[test]
fn frame_index_rejects_overflow() {
    // one more than u64::MAX
    assert_eq!(frame_index_of_name(&b"image18446744073709551616.png".to_vec()), None);
    assert_eq!(frame_index_of_name(&b"image99999999999999999999999.png".to_vec()), None);
    // u64::MAX itself still parses
    assert_eq!(
        frame_index_of_name(&b"image18446744073709551615.png".to_vec()),
        Some(u64::MAX)
    );
}

#[test]
fn sort_order_sorts_numerically() {
    // numeric order, not lexicographic: 2 before 10
    let keys = vec![10u64, 2, 33, 1];
    let order = sort_order(&keys);
    assert_eq!(order, vec![3, 1, 0, 2]);
}

#[test]
fn sort_order_handles_empty_and_equal_keys() {
    assert_eq!(sort_order(&Vec::new()), Vec::<usize>::new());
    let keys = vec![5u64, 5, 5];
    let order = sort_order(&keys);
    let mut seen = order.clone();
    seen.sort();
    assert_eq!(seen, vec![0, 1, 2]); // a permutation
    for w in order.windows(2) {
        assert!(keys[w[0]] <= keys[w[1]]);
    }
}

#[test]
fn rng_string_has_requested_length() {
    let s = rng_string(32);
    assert_eq!(s.len(), 32);
    assert!(s.chars().all(|c| c.is_ascii_alphanumeric()));
    // two draws almost surely differ; equal draws would mean the generator
    // handed back a constant
    let t = rng_string(32);
    assert_ne!(s, t);
}

#[test]
fn scratch_folder_names_are_shaped_and_distinct() {
    let a = scratch_folder_name();
    let b = scratch_folder_name();
    assert_eq!(a.len(), 37);
    assert!(a.starts_with('_'));
    assert!(a.ends_with("-tmp"));
    assert!(a[1..33].chars().all(|c| c.is_ascii_alphanumeric()));
    assert_ne!(a, b);
}
