use dvr::error::FontError;
use dvr::font::{Font, FontSheet, FRAC_ONE};
use dvr::layout::{horizontal_offset, vertical_offset, Align, GlyphDraw, VAlign};
use dvr::text::line_count;

/// One sheet for 'A'..'C' on a 30x10 atlas of three cells, every glyph filling its cell.
fn abc_sheet() -> FontSheet<()> {
    FontSheet::new(('A', 'C'), (), (30, 10), 3, 1, 0, 0, vec![0, 0, 0]).unwrap()
}

fn abc_font() -> Font<()> {
    Font::new(vec![abc_sheet()], 12000, '\0')
}

/// A sheet covering '!'..'~' on a 940x10 atlas (94 cells of 10x10), all full width.
fn ascii_sheet(half_margin: u32) -> FontSheet<()> {
    FontSheet::new(('!', '~'), (), (940, 10), 94, 1, 0, 0, vec![half_margin; 94]).unwrap()
}

#[test]
fn end_to_end_text_width() {
    let font = abc_font();
    assert_eq!(font.calculate_text_width("ABC", 10), Ok(30));
}

#[test]
fn half_margin_of_one_half_leaves_code_unclaimed() {
    let sheet = FontSheet::new(('A', 'C'), (), (30, 10), 3, 1, 0, 0, vec![FRAC_ONE / 2; 3]).unwrap();
    let font = Font::new(vec![sheet], FRAC_ONE, '\0');
    assert_eq!(font.calculate_text_width("ABC", 10), Err(FontError::CharacterNotInFont));
}

#[test]
fn uniform_width_text_is_count_times_glyph() {
    // half-margin 0.25 -> stored width 0.5; cell 10 px; scale 1 -> glyph width 5
    let sheet = FontSheet::new(('A', 'C'), (), (30, 10), 3, 1, 0, 0, vec![2500; 3]).unwrap();
    assert_eq!(sheet.get_char_width('A', 10), Ok(5));
    let font = Font::new(vec![sheet], FRAC_ONE, '\0');
    assert_eq!(font.calculate_text_width("AAAA", 10), Ok(20));
    assert_eq!(font.calculate_text_width("AAAA", 20), Ok(40));
}

#[test]
fn glyph_width_scales_with_height_and_margins() {
    // cell 10 wide, atlas 10 high, one row; ascent 0.2 and descent 0.3 leave half visible
    let sheet = FontSheet::new(('A', 'A'), (), (10, 10), 1, 1, 2000, 3000, vec![0]).unwrap();
    // 10 * 1 * 10 * 1 / (10 * 0.5) = 20
    assert_eq!(sheet.get_char_width('A', 10), Ok(20));
    assert_eq!(sheet.get_char_width('B', 10), Err(FontError::CharacterNotInSheet));
    assert_eq!(sheet.quad_size(10), (20, 20));
    assert_eq!(sheet.ascent_shift(10), -1);
}

#[test]
fn sheet_rejects_wrong_width_count() {
    let r = FontSheet::new(('A', 'C'), (), (30, 10), 3, 1, 0, 0, vec![0, 0]);
    assert!(matches!(r, Err(FontError::SheetConstructionMismatch)));
}

#[test]
fn sheet_rejects_bad_geometry() {
    let no_rows = FontSheet::new(('A', 'C'), (), (30, 10), 3, 0, 0, 0, vec![0; 3]);
    assert!(matches!(no_rows, Err(FontError::SheetGeometryMismatch)));
    let small_grid = FontSheet::new(('A', 'C'), (), (30, 10), 2, 1, 0, 0, vec![0; 3]);
    assert!(matches!(small_grid, Err(FontError::SheetGeometryMismatch)));
    let no_visible = FontSheet::new(('A', 'C'), (), (30, 10), 3, 1, 5000, 5000, vec![0; 3]);
    assert!(matches!(no_visible, Err(FontError::SheetGeometryMismatch)));
    let wide_margin = FontSheet::new(('A', 'C'), (), (30, 10), 3, 1, 0, 0, vec![0, 5001, 0]);
    assert!(matches!(wide_margin, Err(FontError::SheetGeometryMismatch)));
    let rows_over_pixels = FontSheet::new(('A', 'C'), (), (30, 2), 1, 3, 0, 0, vec![0; 3]);
    assert!(matches!(rows_over_pixels, Err(FontError::SheetGeometryMismatch)));
}

#[test]
fn sheet_range_given_in_reverse_is_normalised() {
    let sheet = FontSheet::new(('C', 'A'), (), (30, 10), 3, 1, 0, 0, vec![0, 0, 0]).unwrap();
    assert_eq!(sheet.get_pos('A'), (0, 0));
    assert_eq!(sheet.get_pos('C'), (2, 0));
    assert_eq!(sheet.get_char_width('B', 10), Ok(10));
}

#[test]
fn grid_position_and_cell_size() {
    let sheet = FontSheet::new(('a', 'f'), (), (40, 20), 3, 2, 0, 0, vec![0; 6]).unwrap();
    assert_eq!(sheet.get_char_cell_size(), (13, 10));
    assert_eq!(sheet.get_pos('a'), (0, 0));
    assert_eq!(sheet.get_pos('c'), (2, 0));
    assert_eq!(sheet.get_pos('d'), (0, 1));
    assert_eq!(sheet.get_pos('f'), (2, 1));
}

#[test]
fn first_sheet_wins() {
    let narrow = FontSheet::new(('A', 'C'), (), (30, 10), 3, 1, 0, 0, vec![2500; 3]).unwrap();
    let wide = abc_sheet();
    let font = Font::new(vec![narrow, wide], FRAC_ONE, '\0');
    for _ in 0..3 {
        assert_eq!(font.get_sheet('B'), Ok(0));
        assert_eq!(font.get_char_and_sheet('B'), Ok(('B', 0)));
        assert_eq!(font.calculate_line_width("B", 10), Ok(5));
    }
    let wide = abc_sheet();
    let narrow = FontSheet::new(('A', 'C'), (), (30, 10), 3, 1, 0, 0, vec![2500; 3]).unwrap();
    let font = Font::new(vec![wide, narrow], FRAC_ONE, '\0');
    assert_eq!(font.calculate_line_width("B", 10), Ok(10));
}

#[test]
fn later_sheet_supplies_code_absent_from_earlier() {
    let partial = FontSheet::new(('A', 'C'), (), (30, 10), 3, 1, 0, 0, vec![0, 5000, 0]).unwrap();
    let full = abc_sheet();
    let font = Font::new(vec![partial, full], FRAC_ONE, '\0');
    assert_eq!(font.get_sheet('A'), Ok(0));
    assert_eq!(font.get_sheet('B'), Ok(1));
}

#[test]
fn tofu_stands_in_for_unknown_code() {
    // '?' is narrower than the rest so that its width can be told apart
    let mut margins = vec![0u32; 94];
    margins[('?' as usize) - ('!' as usize)] = 2500;
    let sheet = FontSheet::new(('!', '~'), (), (940, 10), 94, 1, 0, 0, margins).unwrap();
    let font = Font::new(vec![sheet], FRAC_ONE, '?');
    assert_eq!(font.get_char_and_sheet('\u{E000}'), Ok(('?', 0)));
    assert_eq!(font.calculate_line_width("\u{E000}", 10), Ok(5));
    assert_eq!(font.calculate_line_width("?", 10), Ok(5));
    assert_eq!(font.calculate_line_width("A", 10), Ok(10));
}

#[test]
fn missing_tofu_fails_without_looping() {
    let font = Font::new(vec![ascii_sheet(0)], FRAC_ONE, '\u{E001}');
    assert_eq!(font.get_char_and_sheet('\u{E000}'), Err(FontError::CharacterNotInFont));
    assert_eq!(font.get_char_and_sheet('\u{E001}'), Err(FontError::CharacterNotInFont));
    assert_eq!(font.calculate_text_width("a\u{E000}", 10), Err(FontError::CharacterNotInFont));
}

#[test]
fn no_tofu_means_unknown_code_fails() {
    let font = abc_font();
    assert_eq!(font.get_char_and_sheet('Z'), Err(FontError::CharacterNotInFont));
    assert_eq!(font.get_sheet('Z'), Err(FontError::CharacterNotInFont));
}

#[test]
fn text_width_is_widest_line() {
    let font = abc_font();
    assert_eq!(font.calculate_text_width("A\nABC\nAB", 10), Ok(30));
    assert_eq!(font.calculate_text_width("", 10), Ok(0));
    assert_eq!(font.calculate_text_width("AB\r\nA", 10), Ok(20));
}

#[test]
fn line_counts_follow_str_lines() {
    let font = abc_font();
    assert_eq!(font.calculate_num_lines(""), 0);
    assert_eq!(font.calculate_num_lines("A"), 1);
    assert_eq!(font.calculate_num_lines("A\n"), 1);
    assert_eq!(font.calculate_num_lines("A\n\nB"), 3);
    assert_eq!(line_count("\n"), 1);
    assert_eq!(line_count("a\r\nb\r"), 2);
}

#[test]
fn wrap_breaks_before_overflowing_character() {
    let font = abc_font();
    let wrapped = font.auto_line_split("ABCABC", 25, 10).unwrap();
    assert_eq!(wrapped, "AB\nCA\nBC");
    for line in wrapped.lines() {
        assert!(font.calculate_line_width(line, 10).unwrap() <= 25);
    }
}

#[test]
fn wrap_keeps_hard_breaks_and_exact_fit() {
    let font = abc_font();
    assert_eq!(font.auto_line_split("ABC\nAB", 30, 10).unwrap(), "ABC\nAB");
    assert_eq!(font.auto_line_split("ABC\r\nAB\n", 20, 10).unwrap(), "AB\nC\nAB");
    assert_eq!(font.auto_line_split("", 20, 10).unwrap(), "");
}

#[test]
fn wrap_places_wide_character_alone() {
    let font = abc_font();
    assert_eq!(font.auto_line_split("A", 5, 10).unwrap(), "\nA");
    assert_eq!(font.auto_line_split("AB", 5, 10).unwrap(), "\nA\nB");
}

#[test]
fn wrap_substitutes_tofu() {
    let font = Font::new(vec![ascii_sheet(0)], FRAC_ONE, '?');
    assert_eq!(font.auto_line_split("a\u{E000}b", 100, 10).unwrap(), "a?b");
    let plain = abc_font();
    assert_eq!(plain.auto_line_split("AZ", 100, 10), Err(FontError::CharacterNotInFont));
}

#[test]
fn wrap_twice_changes_nothing() {
    let font = abc_font();
    let once = font.auto_line_split("ABCABCA\nCBA", 25, 10).unwrap();
    let twice = font.auto_line_split(&once, 25, 10).unwrap();
    assert_eq!(once, twice);
}

#[test]
fn vertical_offsets_of_three_lines() {
    assert_eq!(vertical_offset(VAlign::Top, 10, 3), 0);
    assert_eq!(vertical_offset(VAlign::Centre, 10, 3), 10);
    assert_eq!(vertical_offset(VAlign::Bottom, 10, 3), 20);
    assert_eq!(vertical_offset(VAlign::Bottom, 10, 0), 0);
}

#[test]
fn horizontal_offsets_of_measured_line() {
    let font = abc_font();
    let w = font.calculate_line_width("ABC", 10).unwrap();
    assert_eq!(w, 30);
    assert_eq!(horizontal_offset(Align::Left, w), 0);
    assert_eq!(horizontal_offset(Align::Centre, w), -15);
    assert_eq!(horizontal_offset(Align::Right, w), -30);
    assert_eq!(horizontal_offset(Align::Centre, 7), -3);
}

#[test]
fn draw_text_lays_out_one_line() {
    let font = abc_font();
    let draws = font.draw_text("AB", 100, 50, None, 10, Align::Left, VAlign::Top).unwrap();
    assert_eq!(
        draws,
        vec![
            GlyphDraw {
                sheet: 0,
                center_x: 105,
                center_y: 45,
                width: 10,
                height: 10,
                src_x: 0,
                src_y: 0,
                src_width: 10,
                src_height: 10,
            },
            GlyphDraw {
                sheet: 0,
                center_x: 115,
                center_y: 45,
                width: 10,
                height: 10,
                src_x: 10,
                src_y: 0,
                src_width: 10,
                src_height: 10,
            },
        ]
    );
}

#[test]
fn draw_text_aligns_lines_and_block() {
    let font = abc_font();
    let draws = font.draw_text("A\nBC", 100, 50, None, 10, Align::Centre, VAlign::Bottom).unwrap();
    assert_eq!(draws.len(), 3);
    // first line: width 10, pen at 95; block of two lines pushes it up by 10; glyph shift +5
    assert_eq!((draws[0].center_x, draws[0].center_y), (100, 65));
    // second line: width 20, pen at 90; one advance (12) lower
    assert_eq!((draws[1].center_x, draws[1].center_y), (95, 53));
    assert_eq!((draws[2].center_x, draws[2].center_y, draws[2].src_x), (105, 53, 20));
}

#[test]
fn draw_text_wraps_first() {
    let font = abc_font();
    let draws = font.draw_text("ABC", 0, 0, Some(20), 10, Align::Right, VAlign::Top).unwrap();
    assert_eq!(draws.len(), 3);
    assert_eq!((draws[0].center_x, draws[0].center_y), (-15, -5));
    assert_eq!((draws[1].center_x, draws[1].center_y), (-5, -5));
    assert_eq!((draws[2].center_x, draws[2].center_y), (-5, -17));
}

#[test]
fn draw_text_fails_on_unknown_character() {
    let font = abc_font();
    assert_eq!(
        font.draw_text("AZ", 0, 0, None, 10, Align::Left, VAlign::Top),
        Err(FontError::CharacterNotInFont)
    );
    assert_eq!(font.draw_text("", 0, 0, None, 10, Align::Left, VAlign::Top), Ok(vec![]));
}

#[test]
fn sheet_lookup_and_texture() {
    let sheet = FontSheet::new(('A', 'C'), 7u8, (30, 10), 3, 1, 0, 0, vec![0; 3]).unwrap();
    assert_eq!(*sheet.texture(), 7);
    let font = Font::new(vec![sheet], FRAC_ONE, '\0');
    assert_eq!(*font.sheet(0).texture(), 7);
}
