use ascii_screensaver::app::next_frame_due;
use ascii_screensaver::solids::{cube_edges, hypercube_edges, line_glyph, octahedron_edges};

#[test]
fn segment_glyphs_follow_the_slope() {
    assert_eq!(line_glyph(0, 0, 10, 2), '-');
    assert_eq!(line_glyph(0, 0, 1, 5), '|');
    assert_eq!(line_glyph(0, 0, 4, 3), '\\');
    assert_eq!(line_glyph(0, 0, -4, -3), '\\');
    assert_eq!(line_glyph(0, 0, 4, -3), '/');
    assert_eq!(line_glyph(3, 3, 3, 3), '\\');
    assert_eq!(line_glyph(i32::MIN, 0, i32::MAX, 0), '-');
}

#[test]
fn tesseract_has_thirty_two_edges() {
    let edges = hypercube_edges();
    assert_eq!(edges.len(), 32);
    assert_eq!(edges[0], (0, 1));
    assert_eq!(edges[31], (14, 15));
    for &(a, b) in &edges {
        assert!(a < b && b < 16);
        assert_eq!((a ^ b).count_ones(), 1);
    }
}

#[test]
fn frame_schedule_skips_missed_frames() {
    assert_eq!(next_frame_due(0, 0, 10), 10);
    assert_eq!(next_frame_due(0, 9, 10), 10);
    assert_eq!(next_frame_due(0, 10, 10), 20);
    assert_eq!(next_frame_due(5, 47, 10), 55);
    assert_eq!(next_frame_due(100, 40, 10), 110);
}

fn cube_side(i: usize) -> [bool; 3] {
    [i % 4 == 1 || i % 4 == 2, i % 4 >= 2, i >= 4]
}

#[test]
fn cube_edges_join_corners_one_axis_apart() {
    let edges = cube_edges();
    assert_eq!(edges.len(), 12);
    for &(a, b) in &edges {
        let (sa, sb) = (cube_side(a), cube_side(b));
        assert_eq!((0..3).filter(|&k| sa[k] != sb[k]).count(), 1);
    }
    for a in 0..8 {
        for b in (a + 1)..8 {
            let differ = (0..3).filter(|&k| cube_side(a)[k] != cube_side(b)[k]).count();
            let listed = edges.iter().filter(|&&e| e == (a, b) || e == (b, a)).count();
            assert_eq!(listed, if differ == 1 { 1 } else { 0 });
        }
    }
}

#[test]
fn octahedron_edges_join_vertices_on_different_axes() {
    let edges = octahedron_edges();
    assert_eq!(edges.len(), 12);
    for a in 0..6 {
        for b in (a + 1)..6 {
            let listed = edges.iter().filter(|&&e| e == (a, b) || e == (b, a)).count();
            assert_eq!(listed, if a / 2 != b / 2 { 1 } else { 0 });
        }
    }
    assert_eq!(edges[9], (4, 3));
}

#[test]
fn edge_lists_come_in_drawing_order() {
    assert_eq!(
        cube_edges(),
        vec![(0, 1), (1, 2), (2, 3), (3, 0), (4, 5), (5, 6), (6, 7), (7, 4), (0, 4), (1, 5), (2, 6), (3, 7)]
    );
    assert_eq!(
        octahedron_edges(),
        vec![(0, 2), (0, 3), (0, 4), (0, 5), (1, 2), (1, 3), (1, 4), (1, 5), (2, 4), (4, 3), (3, 5), (5, 2)]
    );
}
