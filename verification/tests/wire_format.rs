use pixelflut_filler::color::Color;
use pixelflut_filler::wire::{
    push_binary_record, push_decimal, push_hex_pair, push_text_record, serialize_frame,
    LogicalPixel, PixelCollectorKind,
};

fn pixel(x: u16, y: u16, r: u8, g: u8, b: u8, a: Option<u8>) -> LogicalPixel {
    LogicalPixel { x, y, color: Color::from_rgba(r, g, b, a) }
}

#[test]
fn decimal_has_no_leading_zeros() {
    for (n, text) in [(0u16, "0"), (7, "7"), (10, "10"), (99, "99"), (100, "100"), (1024, "1024"), (65535, "65535")] {
        let mut out = Vec::new();
        push_decimal(&mut out, n);
        assert_eq!(out, text.as_bytes());
    }
}

#[test]
fn decimal_appends_to_what_is_there() {
    let mut out = vec![b'x'];
    push_decimal(&mut out, 4711);
    assert_eq!(out, b"x4711");
}

#[test]
fn hex_pair_is_upper_case_and_two_digits() {
    for (b, text) in [(0u8, "00"), (9, "09"), (10, "0A"), (15, "0F"), (16, "10"), (0xAB, "AB"), (0xFF, "FF")] {
        let mut out = Vec::new();
        push_hex_pair(&mut out, b);
        assert_eq!(out, text.as_bytes());
    }
}

#[test]
fn hex_pair_matches_std_formatting_for_every_byte() {
    for b in 0..=255u8 {
        let mut out = Vec::new();
        push_hex_pair(&mut out, b);
        assert_eq!(out, format!("{:02X}", b).into_bytes());
    }
}

#[test]
fn binary_record_layout() {
    let mut out = Vec::new();
    push_binary_record(&mut out, &pixel(0x1234, 0xABCD, 1, 2, 3, Some(4)));
    assert_eq!(out, vec![b'P', b'B', 0x34, 0x12, 0xCD, 0xAB, 1, 2, 3, 4]);
}

#[test]
fn binary_record_round_trip_by_fixed_offsets() {
    let coordinates = [0u16, 1, 255, 256, 0x1234, 0x7FFF, 0x8000, 0xFFFE, 0xFFFF];
    let channels = [0u8, 1, 0x7F, 0x80, 0xFF];
    for &x in &coordinates {
        for &y in &coordinates {
            for &c in &channels {
                let p = pixel(x, y, c, c.wrapping_add(1), c.wrapping_add(2), Some(c.wrapping_add(3)));
                let mut out = Vec::new();
                push_binary_record(&mut out, &p);
                assert_eq!(out.len(), 10);
                assert_eq!(&out[0..2], b"PB");
                assert_eq!(u16::from_le_bytes([out[2], out[3]]), x);
                assert_eq!(u16::from_le_bytes([out[4], out[5]]), y);
                assert_eq!(out[6], c);
                assert_eq!(out[7], c.wrapping_add(1));
                assert_eq!(out[8], c.wrapping_add(2));
                assert_eq!(out[9], c.wrapping_add(3));
            }
        }
    }
}

#[test]
fn binary_record_defaults_missing_alpha_to_opaque() {
    let mut out = Vec::new();
    push_binary_record(&mut out, &pixel(1, 2, 3, 4, 5, None));
    assert_eq!(out, vec![b'P', b'B', 1, 0, 2, 0, 3, 4, 5, 0xFF]);
}

#[test]
fn text_record_line() {
    let mut out = Vec::new();
    push_text_record(&mut out, &pixel(12, 345, 0xDE, 0xAD, 0x0B, Some(0x0E)));
    assert_eq!(out, b"PX 12 345 DEAD0B0E\n");
}

#[test]
fn text_record_defaults_missing_alpha_to_opaque() {
    let mut out = Vec::new();
    push_text_record(&mut out, &pixel(0, 0, 0, 0, 0, None));
    assert_eq!(out, b"PX 0 0 000000FF\n");
}

#[test]
fn text_record_matches_std_formatting() {
    for &(x, y) in &[(0u16, 0u16), (9, 10), (799, 599), (65535, 65535)] {
        let p = pixel(x, y, 0x0A, 0xB0, 0xFF, Some(0x01));
        let mut out = Vec::new();
        push_text_record(&mut out, &p);
        assert_eq!(out, format!("PX {} {} {:02X}{:02X}{:02X}{:02X}\n", x, y, 0x0A, 0xB0, 0xFF, 0x01).into_bytes());
    }
}

#[test]
fn frame_is_records_in_order() {
    let pixels = vec![pixel(1, 2, 0xFF, 0, 0, Some(0xFF)), pixel(3, 4, 0, 0xFF, 0, Some(0x80))];
    assert_eq!(serialize_frame(&pixels, PixelCollectorKind::Text), b"PX 1 2 FF0000FF\nPX 3 4 00FF0080\n");
    assert_eq!(
        serialize_frame(&pixels, PixelCollectorKind::Binary),
        vec![b'P', b'B', 1, 0, 2, 0, 0xFF, 0, 0, 0xFF, b'P', b'B', 3, 0, 4, 0, 0, 0xFF, 0, 0x80]
    );
}

#[test]
fn empty_frame_is_empty() {
    assert!(serialize_frame(&Vec::new(), PixelCollectorKind::Text).is_empty());
    assert!(serialize_frame(&Vec::new(), PixelCollectorKind::Binary).is_empty());
}
