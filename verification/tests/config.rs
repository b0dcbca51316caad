use std::time::Duration;

use ascii_screensaver::config::{parse, Argument, ColorChoice, Command, Config, ParseError};
use ascii_screensaver::effects::EffectKind;
use ascii_screensaver::profile::Profile;

/// An argument read as a scene interval the way the program reads it.
fn interval_nanos(text: &str) -> Option<u64> {
    let seconds: f64 = text.parse().ok()?;
    if !seconds.is_finite() || !(1.0..=3600.0).contains(&seconds) {
        return None;
    }
    Some(Duration::from_secs_f64(seconds).as_nanos() as u64)
}

fn strings(args: &[&str]) -> Vec<Argument> {
    args.iter()
        .map(|value| Argument { text: (*value).to_owned(), interval_nanos: interval_nanos(value) })
        .collect()
}

fn error_of(args: &[&str]) -> String {
    parse(strings(args)).err().unwrap().to_string()
}

#[test]
fn parses_runtime_options() {
    let Command::Run(config) = parse(strings(&[
        "--fps",
        "24",
        "--interval",
        "7.5",
        "--seed",
        "42",
        "--effect",
        "plasma",
        "--color",
        "never",
        "--ascii",
    ]))
    .unwrap() else {
        panic!("expected run command");
    };

    assert_eq!(config.fps, 24);
    assert_eq!(Duration::from_nanos(config.interval_nanos), Duration::from_secs_f64(7.5));
    assert_eq!(config.seed, Some(42));
    assert_eq!(config.effect, Some(EffectKind::Plasma));
    assert_eq!(config.color, ColorChoice::Never);
    assert!(config.ascii);
}

#[test]
fn rejects_invalid_ranges() {
    assert_eq!(
        parse(strings(&["--fps", "0"])).err().unwrap().to_string(),
        "--fps must be an integer from 1 to 60"
    );
    assert!(parse(strings(&["--interval", "NaN"])).is_err());
}

#[test]
fn no_arguments_run_with_defaults() {
    assert_eq!(parse(Vec::new()), Ok(Command::Run(Config::default())));
    let config = Config::default();
    assert_eq!(config.fps, 30);
    assert_eq!(Duration::from_nanos(config.interval_nanos), Duration::from_secs(20));
    assert_eq!(config.seed, None);
    assert_eq!(config.color, ColorChoice::Auto);
    assert_eq!(config.profile(), Profile::All);
}

#[test]
fn help_version_and_list_win() {
    assert_eq!(parse(strings(&["--ascii", "-h", "--bogus"])), Ok(Command::Help));
    assert_eq!(parse(strings(&["--help"])), Ok(Command::Help));
    assert_eq!(parse(strings(&["-V"])), Ok(Command::Version));
    assert_eq!(parse(strings(&["--version"])), Ok(Command::Version));
    assert_eq!(parse(strings(&["--list"])), Ok(Command::List));
    assert!(parse(strings(&["--bogus", "--help"])).is_err());
}

#[test]
fn every_error_has_its_message() {
    assert_eq!(error_of(&["--fps"]), "--fps requires a value");
    assert_eq!(error_of(&["--fps", "61"]), "--fps must be an integer from 1 to 60");
    assert_eq!(error_of(&["--fps", "4294967296"]), "--fps must be an integer from 1 to 60");
    assert_eq!(error_of(&["--fps", " 5"]), "--fps must be an integer from 1 to 60");
    assert_eq!(error_of(&["--interval", "0.5"]), "--interval must be a number from 1 to 3600");
    assert_eq!(error_of(&["--interval", "3601"]), "--interval must be a number from 1 to 3600");
    assert_eq!(error_of(&["--seed", "-1"]), "--seed must be an unsigned integer");
    assert_eq!(error_of(&["--seed", "18446744073709551616"]), "--seed must be an unsigned integer");
    assert_eq!(
        error_of(&["--effect", "sparkles"]),
        "unknown effect 'sparkles'; use --list to see available effects"
    );
    assert_eq!(error_of(&["--profile", "2d"]), "--profile must be one of: all, 3d, time");
    assert_eq!(error_of(&["--color", "sometimes"]), "--color must be one of: auto, always, never");
    assert_eq!(error_of(&["--colour"]), "unknown option '--colour'");
    assert_eq!(error_of(&["plasma"]), "unexpected argument 'plasma'");
    assert_eq!(error_of(&["--seed"]), "--seed requires a value");
}

#[test]
fn accepts_boundary_values() {
    let Ok(Command::Run(config)) = parse(strings(&[
        "--fps", "+60", "--seed", "18446744073709551615", "--interval", "3600", "--profile", "3d",
        "--color", "always", "--fps", "001",
    ])) else {
        panic!("expected run command");
    };
    assert_eq!(config.fps, 1);
    assert_eq!(config.seed, Some(u64::MAX));
    assert_eq!(config.interval_nanos, 3_600_000_000_000);
    assert_eq!(config.profile, Some(Profile::ThreeD));
    assert_eq!(config.color, ColorChoice::Always);
}

#[test]
fn parse_errors_compare_by_message() {
    let first: Result<Command, ParseError> = parse(strings(&["--fps", "x"]));
    let second: Result<Command, ParseError> = parse(strings(&["--fps", "0"]));
    assert_eq!(first, second);
}
