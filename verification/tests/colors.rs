use pixelflut_filler::color::{Color, ColorParseError};

#[test]
fn default_color_is_opaque_black() {
    assert_eq!(Color::default(), Color { r: 0, g: 0, b: 0, a: Some(0xFF) });
}

#[test]
fn from_rgba_keeps_the_channels() {
    assert_eq!(Color::from_rgba(1, 2, 3, None), Color { r: 1, g: 2, b: 3, a: None });
    assert_eq!(Color::from_rgba(1, 2, 3, Some(4)), Color { r: 1, g: 2, b: 3, a: Some(4) });
}

#[test]
fn visibility_needs_a_nonzero_alpha() {
    assert!(!Color::from_rgba(1, 2, 3, None).is_visible());
    assert!(!Color::from_rgba(1, 2, 3, Some(0)).is_visible());
    assert!(Color::from_rgba(1, 2, 3, Some(1)).is_visible());
    assert!(Color::from_rgba(0, 0, 0, Some(255)).is_visible());
}

#[test]
fn wire_alpha_defaults_to_opaque() {
    assert_eq!(Color::from_rgba(0, 0, 0, None).alpha_or_opaque(), 0xFF);
    assert_eq!(Color::from_rgba(0, 0, 0, Some(0)).alpha_or_opaque(), 0);
    assert_eq!(Color::from_rgba(0, 0, 0, Some(17)).alpha_or_opaque(), 17);
}

#[test]
fn sort_key_orders_like_the_channel_tuple() {
    let colors = [
        Color::from_rgba(0, 0, 0, None),
        Color::from_rgba(0, 0, 0, Some(0)),
        Color::from_rgba(0, 0, 0, Some(255)),
        Color::from_rgba(0, 0, 1, None),
        Color::from_rgba(0, 1, 0, Some(3)),
        Color::from_rgba(0, 255, 255, Some(255)),
        Color::from_rgba(1, 0, 0, None),
        Color::from_rgba(255, 255, 255, Some(255)),
    ];
    for a in &colors {
        for b in &colors {
            assert_eq!(a.sort_key() < b.sort_key(), a < b);
            assert_eq!(a.sort_key() == b.sort_key(), a == b);
        }
    }
    assert_eq!(Color::from_rgba(0, 0, 0, None).sort_key(), 0);
    assert_eq!(Color::from_rgba(0, 0, 1, Some(0)).sort_key(), 258);
    assert_eq!(Color::from_rgba(255, 255, 255, Some(255)).sort_key(), 16777215 * 257 + 256);
}

#[test]
fn from_words_takes_the_low_bytes() {
    assert_eq!(Color::from_words(0, 0, 0, 0), Color { r: 0, g: 0, b: 0, a: Some(0) });
    assert_eq!(Color::from_words(0x1FF, 0x100, 7, 0x0001_0203), Color { r: 0xFF, g: 0, b: 7, a: Some(3) });
    assert_eq!(
        Color::from_words(u32::MAX, 0xDEAD_BEEF, 0x8000_0080, 0xFFFF_FF00),
        Color { r: 0xFF, g: 0xEF, b: 0x80, a: Some(0) }
    );
}

#[test]
fn random_color_has_an_alpha_channel() {
    for _ in 0..32 {
        assert!(Color::random().a.is_some());
    }
}

#[test]
fn random_colors_differ() {
    let first = Color::random();
    let mut all_equal = true;
    for _ in 0..64 {
        if Color::random() != first {
            all_equal = false;
        }
    }
    assert!(!all_equal);
}

#[test]
fn six_digits_give_an_opaque_color() {
    assert_eq!(Color::parse_hex(b"000000"), Ok(Color { r: 0, g: 0, b: 0, a: Some(0xFF) }));
    assert_eq!(Color::parse_hex(b"FFFFFF"), Ok(Color { r: 255, g: 255, b: 255, a: Some(0xFF) }));
    assert_eq!(Color::parse_hex(b"ff00FF"), Ok(Color { r: 255, g: 0, b: 255, a: Some(0xFF) }));
}

#[test]
fn eight_digits_give_the_alpha_too() {
    assert_eq!(Color::parse_hex(b"FF0000FF"), Ok(Color { r: 255, g: 0, b: 0, a: Some(255) }));
    assert_eq!(Color::parse_hex(b"00000000"), Ok(Color { r: 0, g: 0, b: 0, a: Some(0) }));
    assert_eq!(Color::parse_hex(b"aaBBccDD"), Ok(Color { r: 0xAA, g: 0xBB, b: 0xCC, a: Some(0xDD) }));
}

#[test]
fn first_digit_of_a_pair_counts_units() {
    assert_eq!(Color::parse_hex(b"102030"), Ok(Color { r: 0x01, g: 0x02, b: 0x03, a: Some(0xFF) }));
    assert_eq!(Color::parse_hex(b"1a2B3c4D"), Ok(Color { r: 0xA1, g: 0xB2, b: 0xC3, a: Some(0xD4) }));
}

#[test]
fn other_lengths_are_rejected() {
    for text in ["", "r", "F", "FFFFF", "FFFFFFF", "FFFFFFFFF", "zzzzz", "#FF0000FF"] {
        assert_eq!(Color::parse_hex(text.as_bytes()), Err(ColorParseError::Length));
    }
}

#[test]
fn first_bad_digit_is_reported() {
    assert_eq!(Color::parse_hex(b"FFg0z0"), Err(ColorParseError::Digit(b'g')));
    assert_eq!(Color::parse_hex(b"#FF000"), Err(ColorParseError::Digit(b'#')));
    assert_eq!(Color::parse_hex(b"0000000 "), Err(ColorParseError::Digit(b' ')));
    assert_eq!(Color::parse_hex(b"00/000"), Err(ColorParseError::Digit(b'/')));
    assert_eq!(Color::parse_hex(b"00:000"), Err(ColorParseError::Digit(b':')));
    assert_eq!(Color::parse_hex(b"00@000"), Err(ColorParseError::Digit(b'@')));
    assert_eq!(Color::parse_hex(b"00G000"), Err(ColorParseError::Digit(b'G')));
    assert_eq!(Color::parse_hex(b"00`000"), Err(ColorParseError::Digit(b'`')));
}

#[test]
fn parse_errors_have_messages() {
    assert_eq!(ColorParseError::Length.message(), "Color must be 6 or 8 characters in length");
    assert_eq!(ColorParseError::Digit(b'x').message(), "Invalid hex digit");
}

#[test]
fn color_from_str() {
    assert_eq!("FF0000".parse::<Color>(), Ok(Color { r: 255, g: 0, b: 0, a: Some(255) }));
    assert_eq!("FF000080".parse::<Color>(), Ok(Color { r: 255, g: 0, b: 0, a: Some(0x08) }));
    assert_eq!("FF00".parse::<Color>(), Err("Color must be 6 or 8 characters in length".to_string()));
    assert_eq!("FF00xx".parse::<Color>(), Err("Invalid hex digit x".to_string()));
    assert!("r".parse::<Color>().unwrap().a.is_some());
}

#[test]
fn lower_hex_has_the_alpha_only_where_there_is_one() {
    assert_eq!(Color::from_rgba(0xAB, 0x0C, 0xF0, None).lower_hex(), b"ab0cf0");
    assert_eq!(Color::from_rgba(0xAB, 0x0C, 0xF0, Some(0x09)).lower_hex(), b"ab0cf009");
    assert_eq!(Color::from_rgba(0, 0, 0, Some(0)).lower_hex(), b"00000000");
    for b in 0..=255u8 {
        assert_eq!(Color::from_rgba(b, b, b, None).lower_hex(), format!("{:02x}{:02x}{:02x}", b, b, b).into_bytes());
    }
}

#[test]
fn bad_digit_message_names_the_first_offending_character() {
    assert_eq!("FF00zy".parse::<Color>(), Err("Invalid hex digit z".to_string()));
    assert_eq!("#FF0000".parse::<Color>(), Err("Color must be 6 or 8 characters in length".to_string()));
    assert_eq!("#FF000".parse::<Color>(), Err("Invalid hex digit #".to_string()));
    assert_eq!("0000 000".parse::<Color>(), Err("Invalid hex digit  ".to_string()));
    assert_eq!("FF\u{e9}00g0".parse::<Color>(), Err("Invalid hex digit \u{e9}".to_string()));
    assert_eq!("\u{20ac}FFF".parse::<Color>(), Err("Invalid hex digit \u{20ac}".to_string()));
    assert_eq!("ab\u{1d11e}".parse::<Color>(), Err("Invalid hex digit \u{1d11e}".to_string()));
    assert_eq!("rr".parse::<Color>(), Err("Color must be 6 or 8 characters in length".to_string()));
    assert_eq!("rrrrrr".parse::<Color>(), Err("Invalid hex digit r".to_string()));
}
