use pixelflut_filler::canvas::{Canvas, Pixel};
use pixelflut_filler::color::Color;
use pixelflut_filler::letters::{LetterString, A, B, L, SPACE, UNKNOWN, LETTER_HEIGHT, LETTER_WIDTH};
use pixelflut_filler::window::Window;

fn canvas(w: usize, h: usize) -> Canvas {
    Canvas::new(Window { x_width: w, y_height: h })
}

fn sorted_lines(bytes: &[u8]) -> Vec<String> {
    let mut lines: Vec<String> =
        String::from_utf8(bytes.to_vec()).unwrap().lines().map(|l| l.to_string()).collect();
    lines.sort();
    lines
}

#[test]
fn window_reports_its_extents() {
    let w = Window { x_width: 800, y_height: 600 };
    assert_eq!((w.get_x(), w.get_y()), (800, 600));
}

#[test]
fn default_pixel_is_transparent_black() {
    assert_eq!(Pixel::default(), Pixel { r: 0, g: 0, b: 0, a: 0 });
}

#[test]
fn pixel_from_color_defaults_alpha_to_opaque() {
    assert_eq!(Pixel::from_color(&Color::from_rgba(1, 2, 3, None)), Pixel { r: 1, g: 2, b: 3, a: 0xFF });
    assert_eq!(Pixel::from_color(&Color::from_rgba(1, 2, 3, Some(0))), Pixel { r: 1, g: 2, b: 3, a: 0 });
    assert_eq!(Pixel::from_color(&Color::from_rgba(1, 2, 3, Some(9))), Pixel { r: 1, g: 2, b: 3, a: 9 });
}

#[test]
fn pixel_copy_overwrites() {
    let mut p = Pixel::default();
    p.copy(&Pixel { r: 1, g: 2, b: 3, a: 4 });
    assert_eq!(p, Pixel { r: 1, g: 2, b: 3, a: 4 });
}

#[test]
fn new_canvas_is_transparent() {
    let c = canvas(3, 2);
    assert_eq!((c.get_window().get_x(), c.get_window().get_y()), (3, 2));
    for x in 0..3 {
        for y in 0..2 {
            assert_eq!(*c.get_pixel(x, y), Pixel::default());
        }
    }
    assert!(c.send_data_noisy(false).is_empty());
}

#[test]
fn cell_index_is_column_major_and_wraps() {
    let c = canvas(3, 2);
    assert_eq!(c.calc_index(0, 0), 0);
    assert_eq!(c.calc_index(0, 1), 1);
    assert_eq!(c.calc_index(1, 0), 2);
    assert_eq!(c.calc_index(2, 1), 5);
    assert_eq!(c.calc_index(3, 2), 0);
    assert_eq!(c.calc_index(4, 3), 3);
    assert_eq!(c.calc_index(usize::MAX, usize::MAX), (usize::MAX % 3) * 2 + usize::MAX % 2);
}

#[test]
fn set_pixel_changes_one_cell() {
    let mut c = canvas(3, 2);
    c.set_pixel(1, 1, &Pixel { r: 1, g: 2, b: 3, a: 4 });
    for x in 0..3 {
        for y in 0..2 {
            let expected = if (x, y) == (1, 1) { Pixel { r: 1, g: 2, b: 3, a: 4 } } else { Pixel::default() };
            assert_eq!(*c.get_pixel(x, y), expected);
        }
    }
    c.set_pixel(4, 3, &Pixel { r: 9, g: 9, b: 9, a: 9 });
    assert_eq!(*c.get_pixel(1, 1), Pixel { r: 9, g: 9, b: 9, a: 9 });
}

#[test]
fn get_pixel_mut_changes_the_cell_in_place() {
    let mut c = canvas(3, 2);
    c.get_pixel_mut(2, 1).copy(&Pixel { r: 5, g: 6, b: 7, a: 8 });
    c.get_pixel_mut(5, 3).g = 9;
    assert_eq!(*c.get_pixel(2, 1), Pixel { r: 5, g: 9, b: 7, a: 8 });
    assert_eq!(*c.get_pixel(2, 0), Pixel::default());
}

#[test]
fn fill_paints_every_cell() {
    let mut c = canvas(4, 3);
    c.fill(&Color::from_rgba(5, 6, 7, None));
    for x in 0..4 {
        for y in 0..3 {
            assert_eq!(*c.get_pixel(x, y), Pixel { r: 5, g: 6, b: 7, a: 0xFF });
        }
    }
}

#[test]
fn send_data_leaves_out_the_last_column_and_row() {
    let mut c = canvas(3, 3);
    c.fill(&Color::from_rgba(0xAA, 0xBB, 0xCC, Some(0xDD)));
    assert_eq!(
        sorted_lines(&c.send_data(false)),
        vec!["PX 0 0 AABBCCDD", "PX 0 1 AABBCCDD", "PX 1 0 AABBCCDD", "PX 1 1 AABBCCDD"]
    );
    assert_eq!(c.send_data(true).len(), 4 * 10);
    assert!(canvas(1, 1).send_data(false).is_empty());
}

#[test]
fn send_data_noisy_covers_the_whole_canvas() {
    let mut c = canvas(2, 3);
    c.fill(&Color::from_rgba(1, 2, 3, Some(4)));
    c.set_pixel(1, 2, &Pixel { r: 9, g: 9, b: 9, a: 0 });
    c.set_pixel(0, 1, &Pixel { r: 0, g: 0, b: 0, a: 1 });
    assert_eq!(
        sorted_lines(&c.send_data_noisy(false)),
        vec!["PX 0 0 01020304", "PX 0 1 00000001", "PX 0 2 01020304", "PX 1 0 01020304", "PX 1 1 01020304"]
    );
    let binary = c.send_data_noisy(true);
    assert_eq!(binary.len(), 5 * 10);
    assert_eq!(&binary[0..10], &[b'P', b'B', 0, 0, 1, 0, 0, 0, 0, 1]);
}

#[test]
fn glyphs_have_five_by_seven_cells() {
    assert_eq!(LETTER_WIDTH * LETTER_HEIGHT, A.len());
    assert_eq!(A[2], 1);
    assert_eq!(A[0], 0);
    assert_eq!(&B[0..5], &[1, 1, 1, 0, 0]);
    assert!(SPACE.iter().all(|c| *c == 0));
    assert!(A.iter().chain(B.iter()).chain(UNKNOWN.iter()).all(|c| *c <= 1));
}

#[test]
fn letter_string_has_one_glyph_per_character() {
    let s = LetterString::from_text("Ab l?");
    assert_eq!(s.len(), 5);
    let glyphs: Vec<[u8; 35]> = s.iter().copied().collect();
    assert_eq!(glyphs, vec![A, B, SPACE, L, UNKNOWN]);
    assert_eq!(s.letters, glyphs);
}

#[test]
fn letter_string_counts_characters_not_bytes() {
    let s = LetterString::from_text("aäb€𝄞");
    assert_eq!(s.letters, vec![A, UNKNOWN, B, UNKNOWN, UNKNOWN]);
    assert_eq!(LetterString::from_text("").len(), 0);
}

fn drawn(c: &Canvas, w: usize, h: usize, pen: Pixel) -> Vec<(usize, usize)> {
    let mut cells = Vec::new();
    for x in 0..w {
        for y in 0..h {
            if *c.get_pixel(x, y) == pen {
                cells.push((x, y));
            }
        }
    }
    cells
}

#[test]
fn draw_letter_at_scale_one() {
    let mut c = canvas(10, 10);
    let color = Color::from_rgba(1, 2, 3, Some(4));
    c.draw_letter(&L, 2, 1, &color, 1);
    let mut expected = Vec::new();
    for ly in 0..7 {
        expected.push((2, 1 + ly));
    }
    for lx in 1..5 {
        expected.push((2 + lx, 7));
    }
    expected.sort();
    assert_eq!(drawn(&c, 10, 10, Pixel { r: 1, g: 2, b: 3, a: 4 }), expected);
}

#[test]
fn draw_letter_scales_each_cell_to_a_square() {
    let mut c = canvas(20, 20);
    let color = Color::from_rgba(7, 7, 7, None);
    c.draw_letter(&A, 1, 2, &color, 2);
    let mut expected = Vec::new();
    for ly in 0..7 {
        for lx in 0..5 {
            if A[lx + ly * 5] == 1 {
                for sx in 0..2 {
                    for sy in 0..2 {
                        expected.push((1 + 2 * lx + sx, 2 + 2 * ly + sy));
                    }
                }
            }
        }
    }
    expected.sort();
    assert_eq!(drawn(&c, 20, 20, Pixel { r: 7, g: 7, b: 7, a: 0xFF }), expected);
}

#[test]
fn draw_letter_wraps_around_and_keeps_the_rest() {
    let mut c = canvas(4, 4);
    c.fill(&Color::from_rgba(9, 9, 9, Some(9)));
    c.draw_letter(&L, 3, 0, &Color::from_rgba(1, 1, 1, Some(1)), 1);
    let pen = Pixel { r: 1, g: 1, b: 1, a: 1 };
    let mut expected = vec![(3, 0), (3, 1), (3, 2), (3, 3), (0, 2), (1, 2), (2, 2)];
    expected.sort();
    assert_eq!(drawn(&c, 4, 4, pen), expected);
    assert_eq!(drawn(&c, 4, 4, Pixel { r: 9, g: 9, b: 9, a: 9 }).len(), 16 - 7);
}

#[test]
fn draw_letter_at_scale_zero_draws_nothing() {
    let mut c = canvas(4, 4);
    c.draw_letter(&A, 0, 0, &Color::from_rgba(1, 1, 1, Some(1)), 0);
    assert_eq!(drawn(&c, 4, 4, Pixel::default()).len(), 16);
}
