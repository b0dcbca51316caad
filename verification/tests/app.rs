use ascii_screensaver::app::{draw_help, AppState, Input, Key, Response};
use ascii_screensaver::canvas::{Canvas, Cell, Rgb, Style};
use ascii_screensaver::config::{ColorChoice, Config};
use ascii_screensaver::effects::EffectKind;
use ascii_screensaver::profile::Profile;

fn press(key: Key) -> Input {
    Input::Key { key, control: false, press: true }
}

#[test]
fn pinned_effect_regenerates_without_changing_kind() {
    let app_config = Config { seed: Some(5), effect: Some(EffectKind::Plasma), ..Config::default() };
    let mut app = AppState::new(app_config, false);
    let first_seed = app.scene_seed();
    app.next_scene();
    assert_eq!(app.current_kind(), EffectKind::Plasma);
    assert_ne!(app.scene_seed(), first_seed);
}

#[test]
fn profile_rotation_stays_within_group() {
    let mut app =
        AppState::new(Config { seed: Some(23), profile: Some(Profile::ThreeD), ..Config::default() }, false);
    let allowed = Profile::ThreeD.effects();
    assert!(allowed.contains(&app.current_kind()));
    let mut previous = app.current_kind();
    for _ in 0..allowed.len() * 3 {
        app.next_scene();
        assert!(allowed.contains(&app.current_kind()));
        assert_ne!(app.current_kind(), previous);
        previous = app.current_kind();
    }
}

#[test]
fn single_effect_profile_repeats_same_kind() {
    let mut app =
        AppState::new(Config { seed: Some(7), profile: Some(Profile::Time), ..Config::default() }, false);
    for _ in 0..4 {
        app.next_scene();
        assert_eq!(app.current_kind(), EffectKind::Clock);
    }
}

#[test]
fn shuffled_rotation_avoids_immediate_repeats() {
    let mut app = AppState::new(Config { seed: Some(17), ..Config::default() }, false);
    let mut previous = app.current_kind();
    for _ in 0..EffectKind::ALL.len() * 3 {
        app.next_scene();
        assert_ne!(app.current_kind(), previous);
        previous = app.current_kind();
    }
}

#[test]
fn each_round_shows_every_effect_once() {
    let mut app = AppState::new(Config { seed: Some(3), ..Config::default() }, false);
    let mut seen = vec![app.current_kind()];
    for _ in 1..EffectKind::ALL.len() {
        app.next_scene();
        assert!(!seen.contains(&app.current_kind()));
        seen.push(app.current_kind());
    }
    assert_eq!(seen.len(), EffectKind::ALL.len());
}

#[test]
fn colour_choice_follows_the_policy() {
    let always = AppState::new(Config { seed: Some(1), color: ColorChoice::Always, ..Config::default() }, true);
    assert!(always.is_colored());
    let never = AppState::new(Config { seed: Some(1), color: ColorChoice::Never, ..Config::default() }, false);
    assert!(!never.is_colored());
    for seed in 0..20 {
        let auto = AppState::new(Config { seed: Some(seed), ..Config::default() }, true);
        assert!(!auto.is_colored());
    }
}

#[test]
fn keys_drive_the_switches() {
    let mut app = AppState::new(Config { seed: Some(9), color: ColorChoice::Always, ..Config::default() }, false);
    let toggled = Response { redraw: true, new_scene: false, restart_clock: false };
    let ignored = Response { redraw: false, new_scene: false, restart_clock: false };

    assert_eq!(app.handle_input(press(Key::Char('m'))), toggled);
    assert!(!app.is_colored());
    assert_eq!(app.handle_input(press(Key::Char('m'))), toggled);
    assert!(app.is_colored());

    assert_eq!(app.handle_input(press(Key::Char('?'))), toggled);
    assert!(app.show_help());

    let paused = app.handle_input(press(Key::Char('p')));
    assert_eq!(paused, Response { redraw: true, new_scene: false, restart_clock: true });
    assert!(app.is_paused());

    let kind = app.current_kind();
    let seed = app.scene_seed();
    let regenerated = app.handle_input(press(Key::Char('r')));
    assert_eq!(regenerated, Response { redraw: true, new_scene: true, restart_clock: true });
    assert_eq!(app.current_kind(), kind);
    assert_ne!(app.scene_seed(), seed);

    assert_eq!(app.handle_input(press(Key::Right)).new_scene, true);
    assert_ne!(app.current_kind(), kind);

    assert_eq!(app.handle_input(press(Key::Char('x'))), ignored);
    assert_eq!(app.handle_input(press(Key::Char('c'))), ignored);
    assert_eq!(app.handle_input(Input::Key { key: Key::Char('q'), control: false, press: false }), ignored);
    assert_eq!(app.handle_input(Input::Other), ignored);
    assert_eq!(app.handle_input(Input::Resize), toggled);
    assert!(!app.should_quit());

    assert_eq!(app.handle_input(Input::Key { key: Key::Char('c'), control: true, press: true }), toggled);
    assert!(app.should_quit());
    let mut other = AppState::new(Config { seed: Some(9), ..Config::default() }, false);
    other.handle_input(press(Key::Esc));
    assert!(other.should_quit());
}

#[test]
fn advance_rotates_after_the_interval_unless_paused() {
    let config = Config { seed: Some(4), interval_nanos: 1_000, ..Config::default() };
    let mut app = AppState::new(config, false);
    let kind = app.current_kind();
    assert!(!app.advance(400));
    assert_eq!(app.scene_elapsed_nanos(), 400);
    assert!(!app.advance(599));
    assert_eq!(app.current_kind(), kind);
    assert!(app.advance(1));
    assert_ne!(app.current_kind(), kind);
    assert_eq!(app.scene_elapsed_nanos(), 0);

    app.handle_input(press(Key::Char('p')));
    let kind = app.current_kind();
    assert!(!app.advance(u64::MAX));
    assert_eq!(app.current_kind(), kind);
    assert_eq!(app.scene_elapsed_nanos(), 0);
    app.handle_input(press(Key::Char('p')));
    assert!(!app.advance(999));
    assert!(app.advance(u64::MAX));
}

#[test]
fn help_box_is_centred() {
    let mut canvas = Canvas::new(40, 12);
    canvas.text(0, 0, "################################################", Style::default());
    draw_help(&mut canvas, true);
    let style = Style { foreground: Some(Rgb::new(120, 235, 196)), bold: false, dim: false };
    // The box is 36 by 10, so its corner is at (2, 1).
    assert_eq!(canvas.get(1, 1).unwrap(), Cell::default());
    assert_eq!(canvas.get(2, 1).unwrap(), Cell::default());
    assert_eq!(canvas.get(1, 0).unwrap().glyph, '#');
    assert_eq!(canvas.get(12, 2).unwrap(), Cell { glyph: 'T', style });
    assert_eq!(canvas.get(10, 9).unwrap(), Cell { glyph: 'q', style });
    let row: String = (0..40).map(|x| canvas.get(x, 5).unwrap().glyph).collect();
    assert_eq!(row, "       r              regenerate        ");
    assert_eq!(canvas.get(37, 10).unwrap(), Cell::default());
    assert_eq!(canvas.get(38, 10).unwrap(), Cell::default());
}

#[test]
fn help_box_on_a_small_canvas_starts_at_the_corner() {
    let mut canvas = Canvas::new(10, 3);
    draw_help(&mut canvas, false);
    let plain = Style::default();
    let row: String = (0..10).map(|x| canvas.get(x, 1).unwrap().glyph).collect();
    assert_eq!(row, "          ");
    let row: String = (0..10).map(|x| canvas.get(x, 2).unwrap().glyph).collect();
    assert_eq!(row, "          ");
    assert_eq!(canvas.get(0, 1).unwrap().style, plain);
}

#[test]
fn a_seed_reproduces_the_scene_sequence() {
    let config = Config { seed: Some(42), ..Config::default() };
    let mut first = AppState::new(config, false);
    let mut second = AppState::new(config, false);
    for _ in 0..30 {
        assert_eq!(first.current_kind(), second.current_kind());
        assert_eq!(first.scene_seed(), second.scene_seed());
        assert_eq!(first.is_colored(), second.is_colored());
        first.next_scene();
        second.next_scene();
    }
}

#[test]
fn colour_settings_that_draw_nothing_keep_the_seed_sequence() {
    let base = Config { seed: Some(11), ..Config::default() };
    let mut always = AppState::new(Config { color: ColorChoice::Always, ..base }, false);
    let mut never = AppState::new(Config { color: ColorChoice::Never, ..base }, false);
    let mut no_color = AppState::new(Config { color: ColorChoice::Auto, ..base }, true);
    for _ in 0..12 {
        assert_eq!(always.scene_seed(), never.scene_seed());
        assert_eq!(always.scene_seed(), no_color.scene_seed());
        assert_eq!(always.current_kind(), never.current_kind());
        assert!(always.is_colored());
        assert!(!never.is_colored());
        assert!(!no_color.is_colored());
        always.next_scene();
        never.next_scene();
        no_color.next_scene();
    }
}

#[test]
fn pausing_freezes_the_whole_scene() {
    let config = Config { seed: Some(8), interval_nanos: 1_000, ..Config::default() };
    let mut app = AppState::new(config, false);
    assert!(!app.advance(300));
    app.handle_input(press(Key::Char('p')));
    let (kind, seed, elapsed, colored) =
        (app.current_kind(), app.scene_seed(), app.scene_elapsed_nanos(), app.is_colored());
    for _ in 0..5 {
        assert!(!app.advance(u64::MAX));
    }
    assert_eq!(app.current_kind(), kind);
    assert_eq!(app.scene_seed(), seed);
    assert_eq!(app.scene_elapsed_nanos(), elapsed);
    assert_eq!(app.is_colored(), colored);
    assert!(app.is_paused());
}

#[test]
fn switch_keys_change_only_their_switch_and_undo_when_pressed_again() {
    let mut app = AppState::new(Config { seed: Some(12), color: ColorChoice::Always, ..Config::default() }, false);
    let (kind, seed) = (app.current_kind(), app.scene_seed());
    for key in ['m', '?', 'p'] {
        app.handle_input(press(Key::Char(key)));
        assert_eq!(app.current_kind(), kind);
        assert_eq!(app.scene_seed(), seed);
        assert!(!app.should_quit());
    }
    assert!(!app.is_colored());
    assert!(app.show_help());
    assert!(app.is_paused());
    for key in ['m', '?', 'p'] {
        app.handle_input(press(Key::Char(key)));
    }
    assert!(app.is_colored());
    assert!(!app.show_help());
    assert!(!app.is_paused());
    assert_eq!(app.current_kind(), kind);
    assert_eq!(app.scene_seed(), seed);
}

#[test]
fn a_started_scene_takes_the_drawn_seed_and_colour() {
    let mut auto = AppState::new(Config { seed: Some(21), ..Config::default() }, false);
    let kind = auto.current_kind();
    auto.start_scene(kind, 77, true);
    assert_eq!(auto.scene_seed(), 77);
    assert_eq!(auto.current_kind(), kind);
    assert!(auto.is_colored());
    assert_eq!(auto.scene_elapsed_nanos(), 0);
    auto.start_scene(kind, 78, false);
    assert_eq!(auto.scene_seed(), 78);
    assert!(!auto.is_colored());

    let mut no_color = AppState::new(Config { seed: Some(21), ..Config::default() }, true);
    let kind = no_color.current_kind();
    no_color.start_scene(kind, 5, true);
    assert!(!no_color.is_colored());

    let mut always = AppState::new(
        Config { seed: Some(21), color: ColorChoice::Always, effect: Some(EffectKind::Orb), ..Config::default() },
        false,
    );
    always.start_scene(EffectKind::Orb, 6, false);
    assert!(always.is_colored());
    assert_eq!(always.scene_seed(), 6);
}

#[test]
fn next_kind_stays_in_the_profile_without_repeats() {
    let mut pinned = AppState::new(Config { seed: Some(2), effect: Some(EffectKind::Knot), ..Config::default() }, false);
    assert_eq!(pinned.next_kind(), EffectKind::Knot);

    let mut app = AppState::new(Config { seed: Some(2), profile: Some(Profile::ThreeD), ..Config::default() }, false);
    let allowed = Profile::ThreeD.effects();
    for _ in 0..allowed.len() * 2 {
        let current = app.current_kind();
        let kind = app.next_kind();
        assert!(allowed.contains(&kind));
        assert_ne!(kind, current);
        app.start_scene(kind, 1, false);
    }
}
