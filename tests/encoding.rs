use shortforge::base64::base64_encode;
use shortforge::color::{parse_color_with_alpha, Rgba};

#[test]
fn base64_padding_and_alphabet() {
    assert_eq!(base64_encode(b""), "");
    assert_eq!(base64_encode(b"f"), "Zg==");
    assert_eq!(base64_encode(b"fo"), "Zm8=");
    assert_eq!(base64_encode(b"foo"), "Zm9v");
    assert_eq!(base64_encode(b"foobar"), "Zm9vYmFy");
    assert_eq!(base64_encode(&[0xfb, 0xff, 0xbf]), "+/+/");
    assert_eq!(base64_encode(&[0x89, 0x50, 0x4e, 0x47]), "iVBORw==");
}

#[test]
fn color_six_digits_takes_animation_alpha() {
    assert_eq!(
        parse_color_with_alpha("#FF8000", 128),
        Rgba { r: 255, g: 128, b: 0, a: 128 }
    );
    assert_eq!(
        parse_color_with_alpha("##0a0B0c", 7),
        Rgba { r: 10, g: 11, b: 12, a: 7 }
    );
}

#[test]
fn color_eight_digits_multiplies_alpha() {
    assert_eq!(
        parse_color_with_alpha("#00000080", 255),
        Rgba { r: 0, g: 0, b: 0, a: 128 }
    );
    assert_eq!(
        parse_color_with_alpha("#FFFFFF80", 128),
        Rgba { r: 255, g: 255, b: 255, a: 64 }
    );
}

#[test]
fn color_fallbacks() {
    assert_eq!(
        parse_color_with_alpha("red", 200),
        Rgba { r: 255, g: 255, b: 255, a: 200 }
    );
    assert_eq!(
        parse_color_with_alpha("#GG0000", 1),
        Rgba { r: 255, g: 0, b: 0, a: 1 }
    );
    assert_eq!(
        parse_color_with_alpha("#+f0000", 1),
        Rgba { r: 15, g: 0, b: 0, a: 1 }
    );
}
