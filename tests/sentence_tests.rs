use fontlayout::sentence::sentence_extent;

#[test]
fn extent_of_nothing() {
    assert_eq!(sentence_extent(&[]), (0, 0));
}

#[test]
fn extent_with_a_descender() {
    assert_eq!(sentence_extent(&[(0, 20), (-5, 15), (3, 10)]), (25, 5));
}

#[test]
fn extent_of_a_glyph_mostly_above_the_baseline() {
    assert_eq!(sentence_extent(&[(-4, 30)]), (30, 4));
}

#[test]
fn extent_of_raised_glyphs_ignores_the_depth() {
    // a glyph above the baseline is measured from the bottom
    assert_eq!(sentence_extent(&[(-6, 6), (10, 20)]), (30, 6));
}
