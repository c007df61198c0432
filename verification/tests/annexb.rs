use video_gallery::annexb::avcc_to_annex_b;

#[test]
fn single_unit_gets_start_code() {
    let data = [0u8, 0, 0, 3, 0x67, 0x42, 0x00];
    assert_eq!(avcc_to_annex_b(&data), vec![0, 0, 0, 1, 0x67, 0x42, 0x00]);
}

#[test]
fn two_units_in_order() {
    let data = [0u8, 0, 0, 2, 0xaa, 0xbb, 0, 0, 0, 1, 0xcc];
    assert_eq!(
        avcc_to_annex_b(&data),
        vec![0, 0, 0, 1, 0xaa, 0xbb, 0, 0, 0, 1, 0xcc]
    );
}

#[test]
fn empty_input_gives_empty_output() {
    assert_eq!(avcc_to_annex_b(&[]), Vec::<u8>::new());
}

#[test]
fn fewer_than_four_bytes_are_dropped() {
    assert_eq!(avcc_to_annex_b(&[0, 0, 1]), Vec::<u8>::new());
    let data = [0u8, 0, 0, 1, 0x09, 0xff, 0xff];
    assert_eq!(avcc_to_annex_b(&data), vec![0, 0, 0, 1, 0x09]);
}

#[test]
fn length_past_the_end_stops_conversion() {
    let data = [0u8, 0, 0, 1, 0x09, 0, 0, 0, 9, 1, 2, 3];
    assert_eq!(avcc_to_annex_b(&data), vec![0, 0, 0, 1, 0x09]);
    let data = [0u8, 0, 0, 5, 1, 2];
    assert_eq!(avcc_to_annex_b(&data), Vec::<u8>::new());
}

#[test]
fn zero_length_unit_is_kept_as_bare_start_code() {
    let data = [0u8, 0, 0, 0, 0, 0, 0, 1, 7];
    assert_eq!(avcc_to_annex_b(&data), vec![0, 0, 0, 1, 0, 0, 0, 1, 7]);
}

#[test]
fn big_endian_length_uses_all_four_bytes() {
    let mut data = vec![0u8, 0, 1, 0];
    data.extend(std::iter::repeat(5u8).take(256));
    let out = avcc_to_annex_b(&data);
    assert_eq!(out.len(), 260);
    assert_eq!(&out[..4], &[0, 0, 0, 1]);
    assert!(out[4..].iter().all(|b| *b == 5));
    // a length whose high byte is set can never fit
    let data = [1u8, 0, 0, 0, 1, 2, 3];
    assert_eq!(avcc_to_annex_b(&data), Vec::<u8>::new());
}

#[test]
fn well_formed_input_keeps_its_length() {
    let data = [0u8, 0, 0, 2, 1, 2, 0, 0, 0, 3, 4, 5, 6, 0, 0, 0, 0];
    let out = avcc_to_annex_b(&data);
    assert_eq!(out.len(), data.len());
}

#[test]
fn output_never_longer_than_input() {
    let data = [0u8, 0, 0, 2, 1, 2, 0, 0, 9];
    assert!(avcc_to_annex_b(&data).len() <= data.len());
}

#[test]
fn whole_units_then_more_convert_piecewise() {
    let a = [0u8, 0, 0, 1, 0x11];
    let b = [0u8, 0, 0, 2, 0x22, 0x33, 0, 0];
    let mut ab = a.to_vec();
    ab.extend_from_slice(&b);
    let mut expected = avcc_to_annex_b(&a);
    expected.extend(avcc_to_annex_b(&b));
    assert_eq!(avcc_to_annex_b(&ab), expected);
}
