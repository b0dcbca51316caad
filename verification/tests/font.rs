use ascii_screensaver::font::{bitmap, half_cell_points, GLYPH_HEIGHT};

fn points(text: &str) -> Vec<(f64, f64)> {
    half_cell_points(text)
        .into_iter()
        .map(|(x, y)| (x as f64 * 0.5, y as f64 * 0.5))
        .collect()
}

#[test]
fn covers_alphanumerics_and_clock_punctuation() {
    for glyph in "ABCDEFGHIJKLMNOPQRSTUVWXYZ0123456789:".chars() {
        assert!(bitmap(glyph).is_some(), "missing {glyph}");
        assert!(!points(&glyph.to_string()).is_empty(), "blank {glyph}");
    }
}

#[test]
fn centers_text_geometry() {
    let points = points("12:34");
    let min = points.iter().map(|point| point.0).fold(f64::INFINITY, f64::min);
    let max = points.iter().map(|point| point.0).fold(f64::NEG_INFINITY, f64::max);
    assert!((min + max).abs() < 1.0);
}

#[test]
fn lower_case_letters_share_upper_case_glyphs() {
    assert_eq!(bitmap('a'), bitmap('A'));
    assert_eq!(bitmap('z'), Some([31, 1, 2, 4, 8, 16, 31]));
    assert_eq!(bitmap(' '), Some([0; GLYPH_HEIGHT]));
    assert_eq!(bitmap('?'), None);
    assert_eq!(bitmap('é'), None);
}

#[test]
fn single_glyph_points_are_exact() {
    // "1" is [4, 12, 4, 4, 4, 4, 14]: the column of lit pixels spans
    // columns 1 to 3, so x is centred on column 2.
    let points = half_cell_points("1");
    assert_eq!(points.len(), 10);
    assert_eq!(points[0], (0, 6));
    assert_eq!(points[1], (-2, 4));
    assert_eq!(points[2], (0, 4));
    assert_eq!(points[points.len() - 1], (2, -6));
    assert!(half_cell_points("").is_empty());
    assert!(half_cell_points("  ").is_empty());
}

#[test]
fn characters_without_glyphs_keep_their_place() {
    let with_gap = half_cell_points("I?I");
    let ones = half_cell_points("I");
    assert_eq!(with_gap.len(), 2 * ones.len());
    let min = with_gap.iter().map(|p| p.0).min().unwrap();
    let max = with_gap.iter().map(|p| p.0).max().unwrap();
    assert_eq!(min + max, 0);
    assert_eq!(max - min, 2 * 16);
}
