use ascii_screensaver::canvas::{Canvas, Rgb, Style};
use ascii_screensaver::terminal::{Renderer, SYNC_END, SYNC_START};

#[test]
fn emits_synchronized_full_then_small_diff() {
    let mut renderer = Renderer::default();
    let mut canvas = Canvas::new(5, 2);
    canvas.put(1, 0, 'A', Style::default());
    let mut first = Vec::new();
    renderer.render(&mut first, &canvas, false);

    canvas.put(2, 0, 'B', Style::default());
    let mut second = Vec::new();
    renderer.render(&mut second, &canvas, false);

    assert!(first.starts_with(&SYNC_START));
    assert!(first.ends_with(&SYNC_END));
    assert!(second.len() < first.len());
    assert!(String::from_utf8(second).unwrap().contains('B'));
}

#[test]
fn full_frame_bytes_are_exact() {
    let mut renderer = Renderer::default();
    let mut canvas = Canvas::new(2, 1);
    canvas.put(1, 0, 'é', Style { foreground: Some(Rgb::new(1, 20, 255)), bold: true, dim: true });
    let mut out = Vec::new();
    renderer.render(&mut out, &canvas, true);
    let expected = "\x1b[?2026h\x1b[?25l\x1b[0m\x1b[2J\x1b[1;1H \x1b[0m\x1b[1m\x1b[2m\x1b[38;2;1;20;255mé\x1b[0m\x1b[?2026l";
    assert_eq!(String::from_utf8(out).unwrap(), expected);
}

#[test]
fn same_canvas_again_emits_idle_frame() {
    let mut renderer = Renderer::default();
    let mut canvas = Canvas::new(3, 2);
    canvas.text(0, 1, "abc", Style::default());
    let mut out = Vec::new();
    renderer.render(&mut out, &canvas, false);
    let mut again = Vec::new();
    renderer.render(&mut again, &canvas, false);
    assert_eq!(String::from_utf8(again).unwrap(), "\x1b[?2026h\x1b[?25l\x1b[0m\x1b[0m\x1b[?2026l");
}

#[test]
fn monochrome_frames_drop_colour_and_mode_change_redraws() {
    let mut renderer = Renderer::default();
    let mut canvas = Canvas::new(1, 1);
    canvas.put(0, 0, 'x', Style::color(Rgb::new(9, 9, 9)));
    let mut mono = Vec::new();
    renderer.render(&mut mono, &canvas, false);
    assert_eq!(
        String::from_utf8(mono).unwrap(),
        "\x1b[?2026h\x1b[?25l\x1b[0m\x1b[2J\x1b[1;1Hx\x1b[0m\x1b[?2026l"
    );
    let mut colour = Vec::new();
    renderer.render(&mut colour, &canvas, true);
    assert_eq!(
        String::from_utf8(colour).unwrap(),
        "\x1b[?2026h\x1b[?25l\x1b[0m\x1b[2J\x1b[1;1H\x1b[0m\x1b[38;2;9;9;9mx\x1b[0m\x1b[?2026l"
    );
}

#[test]
fn changed_cells_skip_redundant_moves() {
    let mut renderer = Renderer::default();
    let mut canvas = Canvas::new(4, 2);
    let mut out = Vec::new();
    renderer.render(&mut out, &canvas, false);
    canvas.text(1, 1, "ab", Style::default());
    canvas.put(3, 0, 'c', Style::default());
    let mut diff = Vec::new();
    renderer.render(&mut diff, &canvas, false);
    assert_eq!(
        String::from_utf8(diff).unwrap(),
        "\x1b[?2026h\x1b[?25l\x1b[0m\x1b[1;4Hc\x1b[2;2Hab\x1b[0m\x1b[?2026l"
    );
}

#[test]
fn invalidate_and_resize_force_full_redraw() {
    let mut renderer = Renderer::default();
    let canvas = Canvas::new(2, 2);
    let mut out = Vec::new();
    renderer.render(&mut out, &canvas, false);
    renderer.invalidate();
    let mut again = Vec::new();
    renderer.render(&mut again, &canvas, false);
    assert!(String::from_utf8(again).unwrap().contains("\x1b[2J"));
    let bigger = Canvas::new(3, 2);
    let mut resized = Vec::new();
    renderer.render(&mut resized, &bigger, false);
    assert!(String::from_utf8(resized).unwrap().contains("\x1b[2J"));
}

#[test]
fn only_full_redraws_erase_the_screen() {
    let opening = [SYNC_START.as_slice(), b"\x1b[?25l\x1b[0m\x1b[2J"].concat();
    let mut renderer = Renderer::default();
    let mut canvas = Canvas::new(3, 2);
    canvas.put(2, 1, 'Z', Style::default());
    let mut first = Vec::new();
    renderer.render(&mut first, &canvas, true);
    assert!(first.starts_with(&opening));

    canvas.put(0, 0, 'Q', Style::default());
    let mut second = Vec::new();
    renderer.render(&mut second, &canvas, true);
    assert!(!second.starts_with(&opening));
    assert_eq!(&second[18..22], b"\x1b[1;");
    assert!(!second.windows(4).any(|w| w == b"\x1b[2J"));

    let mut idle = Vec::new();
    renderer.render(&mut idle, &canvas, true);
    assert!(!idle.starts_with(&opening));

    let mut mode_change = Vec::new();
    renderer.render(&mut mode_change, &canvas, false);
    assert!(mode_change.starts_with(&opening));
}

fn text_of(frame: &[u8]) -> Vec<u8> {
    let mut text = Vec::new();
    let mut i = 0;
    while i < frame.len() {
        if frame[i] == 0x1b {
            i += 2;
            while i < frame.len() && (0x30..=0x3f).contains(&frame[i]) {
                i += 1;
            }
            i += 1;
        } else {
            text.push(frame[i]);
            i += 1;
        }
    }
    text
}

#[test]
fn frame_text_is_the_changed_glyphs_in_row_order() {
    let mut renderer = Renderer::default();
    let mut canvas = Canvas::new(4, 3);
    canvas.put(3, 0, 'a', Style::default());
    canvas.put(0, 2, 'é', Style::color(Rgb::new(9, 99, 199)));
    let mut first = Vec::new();
    renderer.render(&mut first, &canvas, true);
    assert_eq!(String::from_utf8(text_of(&first)).unwrap(), "   a    é   ");

    canvas.put(1, 2, '→', Style::default());
    canvas.put(2, 0, 'b', Style::default());
    canvas.put(3, 0, 'a', Style::default());
    let mut second = Vec::new();
    renderer.render(&mut second, &canvas, true);
    assert_eq!(String::from_utf8(text_of(&second)).unwrap(), "b→");
}
