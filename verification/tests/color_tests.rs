use wuerfeln::color::{get_color, Rgb};

#[test]
fn color_decoding() {
    assert_eq!(
        get_color("#FFF").unwrap(),
        Rgb { r: u8::MAX, g: u8::MAX, b: u8::MAX },
        "Decoding simple hex value failed!"
    );
    assert_eq!(
        get_color("#000000").unwrap(),
        Rgb { r: 0, g: 0, b: 0 },
        "Decoding simple hex value failed!"
    );
}

#[test]
fn color_not_failing() {
    assert!(get_color("#FFF").is_ok());
}

#[test]
fn six_digit_pairs_and_case() {
    assert_eq!(get_color("#FF8B8B").unwrap(), Rgb { r: 0xFF, g: 0x8B, b: 0x8B });
    assert_eq!(get_color("1a2B3c").unwrap(), Rgb { r: 0x1A, g: 0x2B, b: 0x3C });
    // every '#' is ignored, wherever it stands
    assert_eq!(get_color("##1#2F").unwrap(), Rgb { r: 0x11, g: 0x22, b: 0xFF });
}

#[test]
fn wrong_length_is_reported() {
    let err = get_color("#F").unwrap_err();
    assert_eq!(err.msg, "Invalid hexval length: 1, must be 3 or 6");
    let err = get_color("#12345").unwrap_err();
    assert_eq!(err.msg, "Invalid hexval length: 5, must be 3 or 6");
}

#[test]
fn invalid_digit_is_reported() {
    let err = get_color("#GGG").unwrap_err();
    assert_eq!(err.msg, "invalid digit found in string");
    let err = get_color("12345z").unwrap_err();
    assert_eq!(err.msg, "invalid digit found in string");
}
