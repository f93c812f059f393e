use reaper_theme_packer::color::{blend_code, Color, ColorError, RGB, RGBA};

#[test]
fn rgb_construction_and_values() {
    let c = RGB(1, 2, 3);
    assert_eq!(c.value(), 0x010203);
    assert_eq!(c.value_rev(), 0x030201);
    assert_eq!(RGB::from_value(0x010203), RGB(1, 2, 3));
    assert_eq!(RGB::from_value(0xffffff), RGB(255, 255, 255));
    let a = RGBA(1, 2, 3, 4);
    assert_eq!(a.value(), 0x01020304);
    assert_eq!(a.value_rev(), 0x04030201);
    assert_eq!(RGBA::from_value(0x01020304), RGBA(1, 2, 3, 4));
}

#[test]
fn rgb_arr_text() {
    assert_eq!(RGB(1, 2, 3).arr(), b"1 2 3".to_vec());
    assert_eq!(RGBA(1, 2, 3, 4).arr(), b"1 2 3 4".to_vec());
    assert_eq!(RGB(255, 0, 10).arr(), b"255 0 10".to_vec());
}

#[test]
fn rgb_hex_reversed() {
    assert_eq!(RGB(0xAB, 0xCD, 0x0F).hex(), b"0FCDAB".to_vec());
    assert_eq!(RGBA(0xAB, 0xCD, 0x0F, 0x01).hex(), b"010FCDAB".to_vec());
}

#[test]
fn with_alpha_and_to_rgb() {
    assert_eq!(RGB(1, 2, 3).with_alpha(9), RGBA(1, 2, 3, 9));
    assert_eq!(RGBA(1, 2, 3, 4).with_alpha(9), RGBA(1, 2, 3, 9));
    assert_eq!(RGBA(1, 2, 3, 4).to_rgb(), RGB(1, 2, 3));
}

#[test]
fn add_sub_round_trip() {
    // for equal-channel-count colors with no overflow, (c1+c2)-c2 == c1
    let c1 = RGB(10, 20, 30);
    let c2 = RGB(5, 200, 1);
    let sum = c1.add(&c2).unwrap();
    assert_eq!(sum, RGB(15, 220, 31));
    assert_eq!(sum.sub(&c2).unwrap(), c1);

    let a1 = RGBA(10, 20, 30, 40);
    let a2 = RGBA(5, 200, 1, 2);
    let asum = a1.add(&a2).unwrap();
    assert_eq!(asum.sub(&a2).unwrap(), a1);
}

#[test]
fn add_sub_errors() {
    assert_eq!(
        RGB(200, 0, 0).add(&RGB(100, 0, 0)),
        Err(ColorError::ArithmeticOverflow)
    );
    assert_eq!(
        RGB(0, 0, 0).sub(&RGB(0, 1, 0)),
        Err(ColorError::ArithmeticUnderflow)
    );
    assert_eq!(
        RGBA(0, 0, 0, 200).add(&RGBA(0, 0, 0, 100)),
        Err(ColorError::ArithmeticOverflow)
    );
    assert_eq!(
        RGBA(0, 0, 0, 0).sub(&RGBA(0, 0, 0, 1)),
        Err(ColorError::ArithmeticUnderflow)
    );
}

#[test]
fn color_from_packed_values() {
    // a value at most 0xFFFFFF defaults to three channels
    assert_eq!(Color::from_value(0xffffff), Ok(Color::RGB(RGB(255, 255, 255))));
    // a larger value defaults to four channels
    assert_eq!(
        Color::from_value(0x11223344),
        Ok(Color::RGBA(RGBA(0x11, 0x22, 0x33, 0x44)))
    );
    // forcing four channels on a small value pads the top byte
    assert_eq!(
        Color::new_with_channels(0xffffff, 4),
        Ok(Color::RGBA(RGBA(0, 255, 255, 255)))
    );
}

#[test]
fn color_channel_errors() {
    assert_eq!(
        Color::new_with_channels(0x1000000, 3),
        Err(ColorError::ValueOutOfBounds(0x1000000, 3))
    );
    assert_eq!(
        Color::new_with_channels(10, 5),
        Err(ColorError::InvalidChannels(5))
    );
    assert_eq!(
        Color::new_with_channels(10, 0),
        Err(ColorError::InvalidChannels(0))
    );
}

#[test]
fn negative_encoding() {
    // negative() is the reversed value shifted down by 0x1000000
    let c = RGB(1, 2, 3);
    assert_eq!(c.negative(), c.value_rev() as i64 - 0x1000000);
    assert_eq!(RGB(0, 0, 0).negative(), -0x1000000);
    // a 4-channel color has no negative()
    assert_eq!(
        Color::RGBA(RGBA(1, 2, 3, 4)).negative(),
        Err(ColorError::NegativeRgba)
    );
    assert_eq!(
        Color::RGB(RGB(1, 2, 3)).negative(),
        Ok(RGB(1, 2, 3).value_rev() as i64 - 0x1000000)
    );
}

#[test]
fn blend_bitfield() {
    // the fraction is quantized to x/256 before packing
    let q = |frac: f32| (frac * 256f32).round() as u32;
    assert_eq!(blend_code(b"normal", q(0.0)), Ok(0b100000000000000000));
    assert_eq!(blend_code(b"normal", q(1.0)), Ok(0b110000000000000000));
    assert_eq!(blend_code(b"hsv", q(0.12)), Ok(0b100001111111111110));
    assert_eq!(blend_code(b"add", 0), Ok(0x20001));
    assert_eq!(blend_code(b"dodge", 0), Ok(0x20002));
    assert_eq!(blend_code(b"multiply", 0), Ok(0x20003));
    assert_eq!(blend_code(b"overlay", 0), Ok(0x20004));
    assert_eq!(blend_code(b"screen", 0), Err(ColorError::UnknownBlendMode));
}
