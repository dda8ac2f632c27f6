use way_cooler::pixels::convert_pixels;

#[test]
fn rgb_pixels_become_opaque_bgra() {
    let pixels = vec![1, 2, 3, 4, 5, 6, 99, 7, 8, 9, 10, 11, 12];
    let out = convert_pixels(&pixels, 2, 2, 3, 7, 8).unwrap();
    assert_eq!(out, vec![3, 2, 1, 255, 6, 5, 4, 255, 9, 8, 7, 255, 12, 11, 10, 255]);
}

#[test]
fn rgba_pixels_are_premultiplied() {
    let pixels = vec![200, 100, 50, 128, 255, 255, 255, 255, 10, 20, 30, 0];
    let out = convert_pixels(&pixels, 3, 1, 4, 12, 16).unwrap();
    assert_eq!(
        out,
        vec![25, 50, 100, 128, 255, 255, 255, 255, 0, 0, 0, 0, 0, 0, 0, 0]
    );
}

#[test]
fn padding_bytes_are_zero() {
    let pixels = vec![1, 2, 3, 1, 2, 3];
    let out = convert_pixels(&pixels, 1, 2, 3, 3, 6).unwrap();
    assert_eq!(out, vec![3, 2, 1, 255, 0, 0, 3, 2, 1, 255, 0, 0]);
}

#[test]
fn inconsistent_layouts_are_refused() {
    let pixels = vec![0u8; 12];
    assert_eq!(convert_pixels(&pixels, 1, 1, 2, 4, 4), None);
    assert_eq!(convert_pixels(&pixels, 2, 1, 4, 4, 8), None);
    assert_eq!(convert_pixels(&pixels, 2, 1, 3, 6, 7), None);
    assert_eq!(convert_pixels(&pixels, 1, 4, 4, 4, 4), None);
    assert_eq!(convert_pixels(&pixels, 1, usize::MAX, 3, 3, 4), None);
    assert_eq!(convert_pixels(&pixels, 0, 0, 3, 0, 0), Some(vec![]));
}
