use video_gallery::frame::{rgba_buffer_len, DecodedFrame, FrameSelector};

#[test]
fn rgba_length_is_four_bytes_per_pixel() {
    assert_eq!(rgba_buffer_len(2, 3), Some(24));
    assert_eq!(rgba_buffer_len(1920, 1080), Some(1920 * 1080 * 4));
    assert_eq!(rgba_buffer_len(0, 5), Some(0));
}

#[test]
fn rgba_length_that_overflows_u32_is_refused() {
    assert_eq!(rgba_buffer_len(65536, 65536), None);
    assert_eq!(rgba_buffer_len(32768, 32768), None);
    assert_eq!(rgba_buffer_len(32768, 32767), Some(32768 * 32767 * 4));
}

#[test]
fn no_decoded_picture_is_an_error() {
    let selector = FrameSelector::new();
    match selector.finish() {
        Err(e) => assert_eq!(e, "Failed to decode frame"),
        Ok(_) => panic!("expected an error"),
    }
}

#[test]
fn last_decoded_picture_wins() {
    let mut selector = FrameSelector::new();
    selector.observe(DecodedFrame { width: 1, height: 1, rgba: vec![1, 2, 3, 4] });
    selector.observe(DecodedFrame { width: 2, height: 1, rgba: vec![5; 8] });
    let f = selector.finish().unwrap();
    assert_eq!((f.width, f.height), (2, 1));
    assert_eq!(f.rgba, vec![5; 8]);
}

#[test]
fn last_picture_without_pixels_is_an_error() {
    let mut selector = FrameSelector::new();
    selector.observe(DecodedFrame { width: 1, height: 1, rgba: vec![1, 2, 3, 4] });
    selector.observe(DecodedFrame { width: 0, height: 0, rgba: Vec::new() });
    assert!(selector.finish().is_err());
}

#[test]
fn handed_back_picture_has_a_positive_size() {
    let mut selector = FrameSelector::new();
    selector.observe(DecodedFrame { width: 3, height: 2, rgba: vec![7; 24] });
    let f = selector.finish().unwrap();
    assert!(f.width > 0 && f.height > 0);
    assert_eq!(f.rgba.len(), (f.width * f.height * 4) as usize);
}
