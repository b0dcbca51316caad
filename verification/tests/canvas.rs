use ascii_screensaver::canvas::{Canvas, Cell, Rgb, Style};

fn quantize(depth: f64) -> i32 {
    (depth * 1_000_000.0) as i32
}

#[test]
fn clips_writes_and_prefers_nearer_depth() {
    let mut canvas = Canvas::new(3, 2);
    canvas.put(-1, 0, 'X', Style::default());
    canvas.plot_quantized(1, 1, quantize(0.2), '.', Style::default());
    canvas.plot_quantized(1, 1, quantize(0.1), '#', Style::default());
    canvas.plot_quantized(1, 1, quantize(0.3), '@', Style::default());

    assert_eq!(canvas.visible_cells(), 1);
    assert_eq!(canvas.get(1, 1).unwrap().glyph, '@');
}

#[test]
fn tiny_canvases_are_valid() {
    let mut canvas = Canvas::new(0, 0);
    canvas.put(0, 0, '#', Style::default());
    canvas.resize(1, 1);
    canvas.put(0, 0, '#', Style::default());
    assert_eq!(canvas.visible_cells(), 1);
}

#[test]
fn put_then_get_reads_back_the_cell() {
    let mut canvas = Canvas::new(4, 3);
    let style = Style::color(Rgb::new(1, 2, 3));
    canvas.put(2, 1, 'Z', style);
    assert_eq!(canvas.get(2, 1), Some(Cell { glyph: 'Z', style }));
    assert_eq!(canvas.get(1, 2), Some(Cell::default()));
    assert_eq!(canvas.get(4, 0), None);
    assert_eq!(canvas.get(0, 3), None);
}

#[test]
fn new_and_clear_give_blank_canvases() {
    let mut canvas = Canvas::new(5, 2);
    assert_eq!(canvas.cells().len(), 10);
    assert!(canvas.cells().iter().all(|cell| *cell == Cell::default()));
    canvas.text(0, 0, "hello", Style::default());
    assert_eq!(canvas.visible_cells(), 5);
    canvas.clear();
    assert_eq!(canvas.visible_cells(), 0);
    assert_eq!(canvas.width(), 5);
    assert_eq!(canvas.height(), 2);
}

#[test]
fn resize_keeps_same_size_and_resets_new_size() {
    let mut canvas = Canvas::new(3, 3);
    canvas.put(0, 0, 'a', Style::default());
    canvas.resize(3, 3);
    assert_eq!(canvas.get(0, 0).unwrap().glyph, 'a');
    canvas.resize(2, 4);
    assert_eq!((canvas.width(), canvas.height()), (2, 4));
    assert_eq!(canvas.visible_cells(), 0);
}

#[test]
fn text_is_clipped_at_both_edges() {
    let mut canvas = Canvas::new(4, 1);
    canvas.text(-2, 0, "abcdef", Style::default());
    let glyphs: String = canvas.cells().iter().map(|cell| cell.glyph).collect();
    assert_eq!(glyphs, "cdef");
    canvas.text(3, 0, "xyz", Style::default());
    let glyphs: String = canvas.cells().iter().map(|cell| cell.glyph).collect();
    assert_eq!(glyphs, "cdex");
    canvas.text(0, 1, "row", Style::default());
    assert_eq!(canvas.visible_cells(), 4);
}

#[test]
fn fill_rect_blanks_only_the_rectangle() {
    let mut canvas = Canvas::new(4, 3);
    canvas.text(0, 0, "abcd", Style::default());
    canvas.text(0, 1, "efgh", Style::default());
    canvas.text(0, 2, "ijkl", Style::default());
    let bold = Style { foreground: None, bold: true, dim: false };
    canvas.fill_rect(1, 1, 5, 5, bold);
    let glyphs: String = canvas.cells().iter().map(|cell| cell.glyph).collect();
    assert_eq!(glyphs, "abcde   i   ");
    assert_eq!(canvas.get(2, 2).unwrap().style, bold);
    assert_eq!(canvas.get(0, 2).unwrap().style, Style::default());
}

#[test]
fn equal_depth_goes_to_the_later_plot() {
    let mut canvas = Canvas::new(2, 2);
    canvas.plot_quantized(0, 0, 5, 'a', Style::default());
    canvas.plot_quantized(0, 0, 5, 'b', Style::default());
    canvas.plot_quantized(0, 0, 4, 'c', Style::default());
    canvas.plot_quantized(9, 9, 100, 'd', Style::default());
    assert_eq!(canvas.get(0, 0).unwrap().glyph, 'b');
    assert_eq!(canvas.visible_cells(), 1);
    canvas.clear();
    canvas.plot_quantized(0, 0, i32::MIN, 'e', Style::default());
    assert_eq!(canvas.get(0, 0).unwrap().glyph, 'e');
}

#[test]
fn snapshot_copies_cells() {
    let mut canvas = Canvas::new(3, 1);
    canvas.put(1, 0, 'q', Style::default());
    let copy = canvas.snapshot();
    canvas.put(1, 0, 'r', Style::default());
    assert_eq!(copy.get(1, 0).unwrap().glyph, 'q');
    assert_eq!(copy.width(), 3);
}

#[test]
fn plots_keep_the_nearest_and_writes_leave_depths() {
    let mut canvas = Canvas::new(3, 3);
    canvas.plot_quantized(2, 2, 7, 'a', Style::default());
    canvas.plot_quantized(2, 2, 3, 'b', Style::default());
    canvas.plot_quantized(2, 2, 9, 'c', Style::default());
    canvas.plot_quantized(2, 2, 9, 'd', Style::default());
    canvas.plot_quantized(2, 2, 8, 'e', Style::default());
    assert_eq!(canvas.get(2, 2).unwrap().glyph, 'd');
    canvas.put(2, 2, 'f', Style::default());
    canvas.plot_quantized(2, 2, 8, 'g', Style::default());
    assert_eq!(canvas.get(2, 2).unwrap().glyph, 'f');
    canvas.plot_quantized(2, 2, 9, 'h', Style::default());
    assert_eq!(canvas.get(2, 2).unwrap().glyph, 'h');
    assert_eq!(canvas.get(1, 2).unwrap(), Cell::default());
}
