use welly_rs::icon::decode_rgba_icon;

#[test]
fn square_icon_with_exact_pixels_decodes() {
    let mut bytes = vec![0, 0, 0, 2, 0, 0, 0, 2];
    bytes.extend((0u8..16).collect::<Vec<u8>>());
    let icon = decode_rgba_icon(&bytes).unwrap();
    assert_eq!(icon.width, 2);
    assert_eq!(icon.height, 2);
    assert_eq!(icon.rgba, (0u8..16).collect::<Vec<u8>>());
}

#[test]
fn malformed_icons_are_refused() {
    assert!(decode_rgba_icon(&[0, 0, 0, 1]).is_none());
    assert!(decode_rgba_icon(&[0, 0, 0, 0, 0, 0, 0, 0]).is_none());
    assert!(decode_rgba_icon(&[0, 0, 0, 1, 0, 0, 0, 2, 0, 0, 0, 0, 0, 0, 0, 0]).is_none());
    assert!(decode_rgba_icon(&[0, 0, 0, 1, 0, 0, 0, 1, 1, 2, 3]).is_none());
    assert!(decode_rgba_icon(&[0xff, 0xff, 0xff, 0xff, 0xff, 0xff, 0xff, 0xff]).is_none());
    let big = decode_rgba_icon(&[0, 0, 1, 0, 0, 0, 1, 0]);
    assert!(big.is_none());
}
