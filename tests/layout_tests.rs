use fontlayout::layout::{
    FontMetrics, GlyphMetrics, LayoutError, LineHeight, LineMetrics, StyledText, MAX_CHARS,
    MAX_FACTOR, MAX_METRIC, UNITS_PER_PIXEL,
};
use fontlayout::{GlyphPosition, HorizontalAlign, Layout, LayoutSettings};

const U: i64 = UNITS_PER_PIXEL;

fn gm(advance: i64, xmin: i64, ymin: i64, width: usize, height: usize) -> GlyphMetrics {
    GlyphMetrics { advance_width: advance * U, xmin: xmin * U, ymin: ymin * U, width, height }
}

fn font(line: Option<LineMetrics>, kerning: Vec<(char, char, i64)>) -> FontMetrics {
    FontMetrics {
        line,
        glyphs: vec![
            ('H', gm(20, 2, 0, 16, 24)),
            ('i', gm(8, 1, 0, 5, 22)),
            ('O', gm(22, 1, -1, 20, 26)),
            ('k', gm(15, 1, 0, 13, 24)),
            ('g', gm(14, 1, -6, 12, 22)),
            ('A', gm(10, 0, 0, 10, 20)),
            ('B', gm(12, 1, 0, 10, 20)),
            ('V', gm(10, 1, 0, 10, 20)),
        ],
        fallback: gm(9, 0, 0, 8, 18),
        kerning,
    }
}

fn standard_lines() -> Option<LineMetrics> {
    Some(LineMetrics { ascent: 28 * U, descent: -6 * U, line_gap: 2 * U })
}

fn settings(align: HorizontalAlign, line_height: LineHeight) -> LayoutSettings {
    LayoutSettings { horizontal_align: align, line_height }
}

fn run(text: &str) -> StyledText<'_, u8> {
    StyledText { text, font_size: 32 * U, font_index: 0, user: 7 }
}

fn layout_of(text: &str, s: LayoutSettings, fm: &FontMetrics) -> Layout<u8> {
    let mut layout = Layout::new(s);
    assert_eq!(layout.append(fm, run(text)), Ok(()));
    layout
}

fn xs(glyphs: &[GlyphPosition<u8>]) -> Vec<i64> {
    glyphs.iter().map(|g| g.x).collect()
}

#[test]
fn scenario_two_lines_font_default() {
    let fm = font(standard_lines(), vec![]);
    let layout = layout_of("Hi\nOk", settings(HorizontalAlign::Left, LineHeight::Font), &fm);
    // each line is 28 + 6 + 2 = 36 pixels high
    assert_eq!(layout.height(), 72 * U);
    assert_eq!(layout.width(), 37 * U);
    let glyphs = layout.glyphs();
    assert_eq!(glyphs.len(), 4);
    let chars: Vec<char> = glyphs.iter().map(|g| g.c).collect();
    assert_eq!(chars, vec!['H', 'i', 'O', 'k']);
    // x: 'H' at its xmin, 'i' after H's advance
    assert_eq!(xs(&glyphs), vec![2 * U, 21 * U, U, 23 * U]);
    // first baseline 28, second 28 + 6 + 2 + 28 = 64
    assert_eq!(glyphs[0].y, (28 - 0 - 24) * U);
    assert_eq!(glyphs[1].y, (28 - 0 - 22) * U);
    assert_eq!(glyphs[2].y, (64 + 1 - 26) * U);
    assert_eq!(glyphs[3].y, (64 - 0 - 24) * U);
    assert!(glyphs.iter().all(|g| g.user == 7 && g.font_size == 32 * U && g.font_index == 0));
    assert_eq!((glyphs[0].width, glyphs[0].height), (16, 24));
}

#[test]
fn scenario_kerning_never_left_of_zero() {
    let fm = font(standard_lines(), vec![('A', 'V', -3 * U)]);
    let layout = layout_of("AV", settings(HorizontalAlign::Left, LineHeight::Font), &fm);
    let glyphs = layout.glyphs();
    // max(0, -3 + 1 + 10) = 8
    assert_eq!(xs(&glyphs), vec![0, 8 * U]);

    let fm = font(standard_lines(), vec![('A', 'V', -30 * U)]);
    let layout = layout_of("AV", settings(HorizontalAlign::Left, LineHeight::Font), &fm);
    assert_eq!(xs(&layout.glyphs()), vec![0, 0]);
}

#[test]
fn kerning_does_not_move_the_cursor() {
    let fm = font(standard_lines(), vec![('A', 'V', -3 * U)]);
    let layout = layout_of("AVA", settings(HorizontalAlign::Left, LineHeight::Font), &fm);
    assert_eq!(layout.width(), 30 * U);
    assert_eq!(xs(&layout.glyphs()), vec![0, 8 * U, 20 * U]);
}

#[test]
fn no_newline_gives_one_line_and_one_glyph_per_drawable_char() {
    let fm = font(standard_lines(), vec![]);
    let layout = layout_of("Hi\tk\u{7}", settings(HorizontalAlign::Left, LineHeight::Font), &fm);
    assert_eq!(layout.height(), 36 * U);
    let glyphs = layout.glyphs();
    assert_eq!(glyphs.len(), 3);
    assert_eq!(xs(&glyphs), vec![2 * U, 21 * U, 29 * U]);
}

#[test]
fn unknown_characters_use_the_fallback_glyph() {
    let fm = font(standard_lines(), vec![]);
    let layout = layout_of("zz", settings(HorizontalAlign::Left, LineHeight::Font), &fm);
    assert_eq!(layout.width(), 18 * U);
    let glyphs = layout.glyphs();
    assert_eq!((glyphs[1].x, glyphs[1].width, glyphs[1].height), (9 * U, 8, 18));
}

#[test]
fn blank_lines_take_the_height_of_the_line_before() {
    let fm = font(standard_lines(), vec![]);
    let layout = layout_of("H\n\n\nk", settings(HorizontalAlign::Left, LineHeight::Font), &fm);
    assert_eq!(layout.height(), 4 * 36 * U);
    let glyphs = layout.glyphs();
    assert_eq!(glyphs.len(), 2);
    // the baseline of the fourth line is 3 * 36 + 28
    assert_eq!(glyphs[1].y, (3 * 36 + 28 - 24) * U);
}

#[test]
fn leading_blank_lines_have_no_height() {
    let fm = font(standard_lines(), vec![]);
    let layout = layout_of("\n\nH", settings(HorizontalAlign::Left, LineHeight::Font), &fm);
    assert_eq!(layout.height(), 36 * U);
    let glyphs = layout.glyphs();
    assert_eq!(glyphs[0].y, (28 - 24) * U);
}

#[test]
fn newlines_alone() {
    let fm = font(standard_lines(), vec![]);
    let layout = layout_of("\n\n", settings(HorizontalAlign::Left, LineHeight::Font), &fm);
    assert_eq!(layout.height(), 0);
    assert_eq!(layout.width(), 0);
    assert!(layout.glyphs().is_empty());
}

#[test]
fn width_accumulates_over_appends() {
    let fm = font(standard_lines(), vec![]);
    let s = settings(HorizontalAlign::Left, LineHeight::Font);
    let mut two = Layout::new(s);
    assert_eq!(two.append(&fm, run("A")), Ok(()));
    assert_eq!(two.append(&fm, run("BB")), Ok(()));
    let one = layout_of("ABB", s, &fm);
    assert_eq!(two.width(), one.width());
    assert_eq!(two.width(), 34 * U);
    assert_eq!(two.chars_appended(), 3);
    assert_eq!(xs(&two.glyphs()), xs(&one.glyphs()));
}

#[test]
fn alignment_of_a_single_line_changes_nothing() {
    let fm = font(standard_lines(), vec![]);
    for align in [HorizontalAlign::Center, HorizontalAlign::Right] {
        let layout = layout_of("Hik", settings(align, LineHeight::Font), &fm);
        let left = layout_of("Hik", settings(HorizontalAlign::Left, LineHeight::Font), &fm);
        assert_eq!(xs(&layout.glyphs()), xs(&left.glyphs()));
    }
}

#[test]
fn alignment_shifts_the_shorter_line() {
    let fm = font(standard_lines(), vec![]);
    let text = "AAA\nB";
    let left = xs(&layout_of(text, settings(HorizontalAlign::Left, LineHeight::Font), &fm).glyphs());
    let right = xs(&layout_of(text, settings(HorizontalAlign::Right, LineHeight::Font), &fm).glyphs());
    let center = xs(&layout_of(text, settings(HorizontalAlign::Center, LineHeight::Font), &fm).glyphs());
    assert_eq!(left, vec![0, 10 * U, 20 * U, U]);
    // block width 30, second line width 12
    assert_eq!(right, vec![0, 10 * U, 20 * U, U + 18 * U]);
    assert_eq!(center, vec![0, 10 * U, 20 * U, U + 9 * U]);
}

#[test]
fn ratio_sets_the_gap() {
    let fm = font(standard_lines(), vec![]);
    // factor 1.5: the line advances by (28 + 6) * 1.5 = 51 pixels
    let layout = layout_of("H", settings(HorizontalAlign::Left, LineHeight::Ratio(96)), &fm);
    assert_eq!(layout.height(), 51 * U);
}

#[test]
fn ratio_below_one_gives_a_negative_gap() {
    let fm = font(standard_lines(), vec![]);
    // factor 0.5: the line advances by 17 pixels
    let layout = layout_of("H\nk", settings(HorizontalAlign::Left, LineHeight::Ratio(32)), &fm);
    assert_eq!(layout.height(), 34 * U);
    let glyphs = layout.glyphs();
    assert_eq!(glyphs[1].y, (17 + 28 - 24) * U);
}

#[test]
fn smallest_uses_the_glyphs_bounds() {
    // no line metrics: the policy does not need them
    let fm = font(None, vec![]);
    let layout = layout_of("Hg", settings(HorizontalAlign::Left, LineHeight::Smallest(64)), &fm);
    // ascent 24 from 'H', descent -6 from 'g', factor 1: no gap
    assert_eq!(layout.height(), 30 * U);
    let glyphs = layout.glyphs();
    assert_eq!(glyphs[0].y, 0);
    assert_eq!(glyphs[1].y, (24 + 6 - 22) * U);
}

#[test]
fn mixed_sizes_take_the_extremes() {
    let small = font(Some(LineMetrics { ascent: 10 * U, descent: -3 * U, line_gap: 4 * U }), vec![]);
    let big = font(standard_lines(), vec![]);
    let mut layout: Layout<u8> = Layout::new(settings(HorizontalAlign::Left, LineHeight::Font));
    assert_eq!(layout.append(&small, run("H")), Ok(()));
    assert_eq!(layout.append(&big, run("k")), Ok(()));
    // ascent 28, descent -6, gap max(4, 2) = 4
    assert_eq!(layout.height(), 38 * U);
}

#[test]
fn missing_line_metrics_is_an_error() {
    let fm = font(None, vec![]);
    for policy in [LineHeight::Font, LineHeight::Ratio(64)] {
        let mut layout: Layout<u8> = Layout::new(settings(HorizontalAlign::Left, policy));
        assert_eq!(layout.append(&fm, run("Hi")), Err(LayoutError::NoLineMetrics));
        assert_eq!(layout.chars_appended(), 0);
        assert_eq!(layout.width(), 0);
        assert!(layout.glyphs().is_empty());
    }
}

#[test]
fn empty_layout() {
    let layout: Layout<u8> = Layout::new(LayoutSettings::default());
    assert_eq!(layout.width(), 0);
    assert_eq!(layout.height(), 0);
    assert!(layout.glyphs().is_empty());
}

#[test]
fn defaults() {
    let s = LayoutSettings::default();
    assert_eq!(s.horizontal_align, HorizontalAlign::Left);
    assert_eq!(s.line_height, LineHeight::Font);
    assert_eq!(HorizontalAlign::default(), HorizontalAlign::Left);
    assert_eq!(LineHeight::default(), LineHeight::Font);
}

#[test]
fn payload_is_copied_into_each_glyph() {
    let fm = font(standard_lines(), vec![]);
    let mut layout: Layout<String> = Layout::new(LayoutSettings::default());
    let styled = StyledText { text: "Hi", font_size: 12 * U, font_index: 3, user: String::from("red") };
    assert_eq!(layout.append(&fm, styled), Ok(()));
    let glyphs = layout.glyphs();
    assert!(glyphs.iter().all(|g| g.user == "red" && g.font_index == 3 && g.font_size == 12 * U));
}

#[test]
fn parse_font_rejects_garbage() {
    assert!(fontlayout::parse_font(&[]).is_err());
    assert!(fontlayout::parse_font(&[1, 2, 3, 4, 5, 6, 7, 8]).is_err());
    match fontlayout::parse_font(&[0; 16]) {
        Err(fontlayout::FontParseError::ParseError(msg)) => assert!(!msg.is_empty()),
        Ok(_) => panic!("zeros parsed as a font"),
    }
}

#[test]
fn too_long_a_text_is_refused() {
    let fm = font(standard_lines(), vec![]);
    let mut layout: Layout<u8> = Layout::new(LayoutSettings::default());
    assert_eq!(layout.append(&fm, run("Hi")), Ok(()));
    let text = "\u{1}".repeat(MAX_CHARS - 1);
    assert_eq!(layout.append(&fm, run(&text)), Err(LayoutError::TooLong));
    assert_eq!(layout.chars_appended(), 2);
    assert_eq!(layout.width(), 28 * U);
}

#[test]
fn validity_checks() {
    assert!(font(standard_lines(), vec![('A', 'V', -3 * U)]).is_valid());
    assert!(!font(standard_lines(), vec![('A', 'V', MAX_METRIC + 1)]).is_valid());
    let mut fm = font(None, vec![]);
    fm.glyphs.push(('x', GlyphMetrics { advance_width: 0, xmin: 0, ymin: 0, width: 1, height: 1 << 20 }));
    assert!(!fm.is_valid());
    let fm = font(Some(LineMetrics { ascent: MAX_METRIC + 1, descent: 0, line_gap: 0 }), vec![]);
    assert!(!fm.is_valid());
    assert!(settings(HorizontalAlign::Left, LineHeight::Ratio(MAX_FACTOR)).is_valid());
    assert!(!settings(HorizontalAlign::Left, LineHeight::Smallest(-MAX_FACTOR - 1)).is_valid());
    assert!(settings(HorizontalAlign::Left, LineHeight::Font).is_valid());
}
