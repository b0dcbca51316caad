use chrono::{Local, TimeZone, Timelike};

use ascii_screensaver::effects::{clock_text, EffectKind};
use ascii_screensaver::profile::Profile;

#[test]
fn formats_clock_rollovers() {
    let time = |hour, minute| Local.with_ymd_and_hms(2026, 9, 22, hour, minute, 0).unwrap();
    let text = |hour, minute| {
        let wall_time = time(hour, minute);
        clock_text(wall_time.hour(), wall_time.minute())
    };
    assert_eq!(text(9, 59), "09:59");
    assert_eq!(text(10, 0), "10:00");
    assert_eq!(text(23, 59), "23:59");
    assert_eq!(text(0, 0), "00:00");
}

#[test]
fn clock_text_pads_and_keeps_long_numbers() {
    assert_eq!(clock_text(7, 5), "07:05");
    assert_eq!(clock_text(123, 4567), "123:4567");
}

#[test]
fn effect_names_round_trip() {
    for &kind in EffectKind::ALL.iter() {
        assert_eq!(EffectKind::from_name(kind.name()), Some(kind));
    }
    assert_eq!(EffectKind::from_name("plasma"), Some(EffectKind::Plasma));
    assert_eq!(EffectKind::from_name("Plasma"), None);
    assert_eq!(EffectKind::from_name(""), None);
    assert_eq!(EffectKind::all().len(), EffectKind::ALL.len());
}

#[test]
fn profile_names_round_trip() {
    for &profile in Profile::ALL.iter() {
        assert_eq!(Profile::from_name(profile.name()), Some(profile));
    }
    assert_eq!(Profile::from_name("3d"), Some(Profile::ThreeD));
    assert_eq!(Profile::from_name("3D"), None);
    assert_eq!(Profile::names(), vec!["all", "3d", "time"]);
}

#[test]
fn profiles_list_their_effects() {
    assert_eq!(Profile::All.effects(), &EffectKind::ALL[..]);
    assert_eq!(Profile::ThreeD.effects(), &[EffectKind::Orb, EffectKind::Donut, EffectKind::Wireframe]);
    assert_eq!(Profile::Time.effects(), &[EffectKind::Clock]);
}
