use vstd::prelude::*;

use crate::effects::{
    decimal_text, effect_from_name, effect_name, lemma_effect_name_round_trip, EffectKind,
};
use crate::encoding::{
    all_digits, digits_value, is_digit, parse_unsigned, str_eq, unsigned_digits, unsigned_text_value,
};
use crate::profile::{lemma_profile_name_round_trip, profile_from_name, profile_name, Profile};

verus! {

pub const HELP: &'static str = "ascii-screensaver - procedural terminal animation\n\nUsage: ascii-screensaver [OPTIONS]\n\nOptions:\n  --fps <1-60>                 Frame rate [default: 30]\n  --interval <SECONDS>         Seconds between scenes [default: 20]\n  --seed <INTEGER>             Reproducible random seed\n  --effect <NAME>              Stay within one animation family\n  --profile <all|3d|time>      Rotate through one group of effects\n  --color <auto|always|never>  Color policy [default: auto]\n  --ascii                      Use printable ASCII glyphs only\n  --list                       List animation families\n  -h, --help                   Show this help\n  -V, --version                Show version\n\nControls:\n  Space/Right  next scene      r  regenerate scene\n  p            pause           m  toggle monochrome\n  ?            toggle help     q/Esc/Ctrl-C  quit\n";

/// When scenes are drawn in colour.
#[derive(Clone, Copy, Debug, PartialEq, Eq, Structural)]
pub enum ColorChoice {
    Auto,
    Always,
    Never,
}

/// The run-time settings.
#[derive(Clone, Copy, Debug, PartialEq, Eq, Structural)]
pub struct Config {
    /// Frames per second, from 1 to 60.
    pub fps: u32,
    /// Time between scenes, in nanoseconds.
    pub interval_nanos: u64,
    /// The seed of the scene sequence; a random one when absent.
    pub seed: Option<u64>,
    /// The only animation family to show, when pinned.
    pub effect: Option<EffectKind>,
    /// The group of effects to rotate through; all of them when absent.
    pub profile: Option<Profile>,
    pub color: ColorChoice,
    /// Draw with printable ASCII glyphs only.
    pub ascii: bool,
}

/// The settings when no option is given.
pub open spec fn default_config() -> Config {
    Config {
        fps: 30,
        interval_nanos: 20_000_000_000,
        seed: None,
        effect: None,
        profile: None,
        color: ColorChoice::Auto,
        ascii: false,
    }
}

impl Default for Config {
    fn default() -> (config: Self)
        ensures
            config == default_config(),
    {
        Config {
            fps: 30,
            interval_nanos: 20_000_000_000,
            seed: None,
            effect: None,
            profile: None,
            color: ColorChoice::Auto,
            ascii: false,
        }
    }
}

/// The profile that applies: the chosen one, or all effects.
pub open spec fn config_profile(config: Config) -> Profile {
    match config.profile {
        Some(p) => p,
        None => Profile::All,
    }
}

impl Config {
    pub fn profile(&self) -> (profile: Profile)
        ensures
            profile == config_profile(*self),
    {
        match self.profile {
            Some(p) => p,
            None => Profile::All,
        }
    }
}

/// What the program is asked to do.
#[derive(Clone, Copy, Debug, PartialEq, Eq, Structural)]
pub enum Command {
    Run(Config),
    Help,
    Version,
    List,
}

/// Why the command line was refused.
#[derive(Debug, PartialEq, Eq)]
pub struct ParseError(String);

impl ParseError {
    /// The explanation shown to the user.
    pub closed spec fn message(&self) -> Seq<char> {
        self.0@
    }

    pub fn to_string(&self) -> (text: String)
        ensures
            text@ == self.message(),
    {
        self.0.clone()
    }
}

/// A command-line argument, together with its value when read as a scene
/// interval: the number of nanoseconds, present when the argument is a
/// number of seconds from 1 to 3600.
pub struct Argument {
    pub text: String,
    pub interval_nanos: Option<u64>,
}

/// The settings after one option with its value, or the message that
/// refuses the value.
pub open spec fn apply_option(option: Seq<char>, value: Argument, config: Config) -> Result<
    Config,
    Seq<char>,
> {
    let text = value.text@;
    if option == "--fps"@ {
        match unsigned_text_value(text) {
            Some(v) if 1 <= v <= 60 => Ok(Config { fps: v as u32, ..config }),
            _ => Err("--fps must be an integer from 1 to 60"@),
        }
    } else if option == "--interval"@ {
        match value.interval_nanos {
            Some(n) => Ok(Config { interval_nanos: n, ..config }),
            None => Err("--interval must be a number from 1 to 3600"@),
        }
    } else if option == "--seed"@ {
        match unsigned_text_value(text) {
            Some(v) if v <= u64::MAX => Ok(Config { seed: Some(v as u64), ..config }),
            _ => Err("--seed must be an unsigned integer"@),
        }
    } else if option == "--effect"@ {
        match effect_from_name(text) {
            Some(k) => Ok(Config { effect: Some(k), ..config }),
            None => Err(
                "unknown effect '"@ + text + "'; use --list to see available effects"@,
            ),
        }
    } else if option == "--profile"@ {
        match profile_from_name(text) {
            Some(p) => Ok(Config { profile: Some(p), ..config }),
            None => Err("--profile must be one of: all, 3d, time"@),
        }
    } else {
        if text == "auto"@ {
            Ok(Config { color: ColorChoice::Auto, ..config })
        } else if text == "always"@ {
            Ok(Config { color: ColorChoice::Always, ..config })
        } else if text == "never"@ {
            Ok(Config { color: ColorChoice::Never, ..config })
        } else {
            Err("--color must be one of: auto, always, never"@)
        }
    }
}

/// The options that take a value.
pub open spec fn takes_value(option: Seq<char>) -> bool {
    ||| option == "--fps"@
    ||| option == "--interval"@
    ||| option == "--seed"@
    ||| option == "--effect"@
    ||| option == "--profile"@
    ||| option == "--color"@
}

/// The command given by the arguments from position `i` on, starting from
/// the settings `config`: the first help, version or list request wins,
/// options set the settings in order, and the first unknown or malformed
/// argument is refused with its message.
pub open spec fn parse_from(args: Seq<Argument>, i: int, config: Config) -> Result<
    Command,
    Seq<char>,
>
    decreases args.len() - i,
{
    if i < 0 || i >= args.len() {
        Ok(Command::Run(config))
    } else {
        let arg = args[i].text@;
        if arg == "-h"@ || arg == "--help"@ {
            Ok(Command::Help)
        } else if arg == "-V"@ || arg == "--version"@ {
            Ok(Command::Version)
        } else if arg == "--list"@ {
            Ok(Command::List)
        } else if arg == "--ascii"@ {
            parse_from(args, i + 1, Config { ascii: true, ..config })
        } else if takes_value(arg) {
            if i + 1 >= args.len() {
                Err(arg + " requires a value"@)
            } else {
                match apply_option(arg, args[i + 1], config) {
                    Ok(next) => parse_from(args, i + 2, next),
                    Err(message) => Err(message),
                }
            }
        } else if arg.len() > 0 && arg[0] == '-' {
            Err("unknown option '"@ + arg + "'"@)
        } else {
            Err("unexpected argument '"@ + arg + "'"@)
        }
    }
}

/// The command given by the whole command line.
pub open spec fn parse_spec(args: Seq<Argument>) -> Result<Command, Seq<char>> {
    parse_from(args, 0, default_config())
}

/// A parse result agrees with its specification: the same command, or an
/// error with the same message.
pub open spec fn outcome_is(result: Result<Command, ParseError>, expected: Result<Command, Seq<char>>) -> bool {
    match (result, expected) {
        (Ok(c), Ok(e)) => c == e,
        (Err(err), Err(m)) => err.message() == m,
        _ => false,
    }
}

/// The value of `--color` that names each colour policy.
pub open spec fn color_option_value(choice: ColorChoice) -> Seq<char> {
    match choice {
        ColorChoice::Auto => "auto"@,
        ColorChoice::Always => "always"@,
        ColorChoice::Never => "never"@,
    }
}

proof fn lemma_parse_from_append(args: Seq<Argument>, tail: Seq<Argument>, i: int, config: Config)
    requires
        0 <= i <= args.len(),
    ensures
        parse_from(args, i, config) matches Ok(Command::Run(c)) ==> parse_from(args + tail, i, config)
            == parse_from(args + tail, args.len() as int, c),
    decreases args.len() - i,
{
    let all = args + tail;
    if i < args.len() {
        assert(all[i] == args[i]);
        let arg = args[i].text@;
        if arg == "--ascii"@ {
            lemma_parse_from_append(args, tail, i + 1, Config { ascii: true, ..config });
        } else if takes_value(arg) && i + 1 < args.len() {
            assert(all[i + 1] == args[i + 1]);
            if let Ok(next) = apply_option(arg, args[i + 1], config) {
                lemma_parse_from_append(args, tail, i + 2, next);
            }
        }
    }
}

/// An option with its value, after arguments that ask to run with `config`,
/// is applied to `config`.
proof fn lemma_option_after_run(args: Seq<Argument>, tail: Seq<Argument>, config: Config)
    requires
        tail.len() == 2,
        takes_value(tail[0].text@),
        parse_spec(args) == Ok::<Command, Seq<char>>(Command::Run(config)),
    ensures
        parse_spec(args + tail) == match apply_option(tail[0].text@, tail[1], config) {
            Ok(next) => Ok::<Command, Seq<char>>(Command::Run(next)),
            Err(message) => Err(message),
        },
{
    reveal_strlit("--color");
    reveal_strlit("-h");
    reveal_strlit("--help");
    reveal_strlit("-V");
    reveal_strlit("--version");
    reveal_strlit("--list");
    reveal_strlit("--ascii");
    reveal_strlit("--fps");
    reveal_strlit("--interval");
    reveal_strlit("--seed");
    reveal_strlit("--effect");
    reveal_strlit("--profile");
    lemma_parse_from_append(args, tail, 0, default_config());
    let all = args + tail;
    let n = args.len() as int;
    assert(all[n] == tail[0]);
    assert(all[n + 1] == tail[1]);
    let arg = all[n].text@;
    assert(arg.len() > 2 && arg[2] != 'h' && arg[2] != 'v' && arg[2] != 'l' && arg[2] != 'a');
    assert(arg != "-h"@);
    assert(arg != "-V"@);
    assert(arg[2] != "--help"@[2]);
    assert(arg[2] != "--version"@[2]);
    assert(arg[2] != "--list"@[2]);
    assert(arg[2] != "--ascii"@[2]);
    assert(n + 1 < all.len());
    if let Ok(next) = apply_option(arg, all[n + 1], config) {
        assert(parse_from(all, n + 2, next) == Ok::<Command, Seq<char>>(Command::Run(next)));
    }
}

/// The decimal text of a number reads back as that number.
proof fn lemma_decimal_text_value(n: nat)
    ensures
        all_digits(decimal_text(n)),
        decimal_text(n).len() > 0,
        digits_value(decimal_text(n)) == n,
        unsigned_text_value(decimal_text(n)) == Some(n),
    decreases n,
{
    let t = decimal_text(n);
    if n >= 10 {
        lemma_decimal_text_value(n / 10);
        assert(t.drop_last() =~= decimal_text(n / 10));
        assert(t.last() == (0x30 + n % 10) as char);
        assert((t.last() as u32) == 0x30 + n % 10);
        assert(digits_value(t) == digits_value(decimal_text(n / 10)) * 10 + n % 10);
        assert((n / 10) * 10 + n % 10 == n);
        assert forall|i: int| 0 <= i < t.len() implies is_digit(#[trigger] t[i]) by {
            if i < t.len() - 1 {
                assert(t[i] == decimal_text(n / 10)[i]);
            }
        }
    } else {
        assert(t.drop_last() =~= Seq::<char>::empty());
        assert(t.last() == (0x30 + n) as char);
        assert((t.last() as u32) == 0x30 + n);
        assert(digits_value(t) == digits_value(Seq::<char>::empty()) * 10 + n);
    }
    assert(t[0] != '+');
    assert(unsigned_digits(t) == t);
}

/// `--fps` with a frame rate from 1 to 60 written in decimal, after any
/// arguments that ask to run, asks to run at that frame rate with every
/// other setting as those arguments gave it.
pub proof fn lemma_fps_option_sets_rate(args: Seq<Argument>, tail: Seq<Argument>, fps: nat)
    requires
        1 <= fps <= 60,
        tail.len() == 2,
        tail[0].text@ == "--fps"@,
        tail[1].text@ == decimal_text(fps),
    ensures
        parse_spec(args) matches Ok(Command::Run(c)) ==> parse_spec(args + tail) == Ok::<
            Command,
            Seq<char>,
        >(Command::Run(Config { fps: fps as u32, ..c })),
{
    reveal_strlit("--fps");
    if let Ok(Command::Run(c)) = parse_spec(args) {
        lemma_decimal_text_value(fps);
        lemma_option_after_run(args, tail, c);
    }
}

/// `--seed` with a number written in decimal, after any arguments that ask
/// to run, asks to run with that seed and every other setting as those
/// arguments gave it.
pub proof fn lemma_seed_option_sets_seed(args: Seq<Argument>, tail: Seq<Argument>, seed: u64)
    requires
        tail.len() == 2,
        tail[0].text@ == "--seed"@,
        tail[1].text@ == decimal_text(seed as nat),
    ensures
        parse_spec(args) matches Ok(Command::Run(c)) ==> parse_spec(args + tail) == Ok::<
            Command,
            Seq<char>,
        >(Command::Run(Config { seed: Some(seed), ..c })),
{
    reveal_strlit("--fps");
    reveal_strlit("--interval");
    reveal_strlit("--seed");
    assert("--seed"@.len() == 6 && "--fps"@.len() == 5 && "--interval"@.len() == 10);
    if let Ok(Command::Run(c)) = parse_spec(args) {
        lemma_decimal_text_value(seed as nat);
        lemma_option_after_run(args, tail, c);
    }
}

/// `--effect` with the name of an animation family, after any arguments
/// that ask to run, asks to run pinned to that family with every other
/// setting as those arguments gave it.
pub proof fn lemma_effect_option_pins_effect(
    args: Seq<Argument>,
    tail: Seq<Argument>,
    kind: EffectKind,
)
    requires
        tail.len() == 2,
        tail[0].text@ == "--effect"@,
        tail[1].text@ == effect_name(kind),
    ensures
        parse_spec(args) matches Ok(Command::Run(c)) ==> parse_spec(args + tail) == Ok::<
            Command,
            Seq<char>,
        >(Command::Run(Config { effect: Some(kind), ..c })),
{
    reveal_strlit("--fps");
    reveal_strlit("--interval");
    reveal_strlit("--seed");
    reveal_strlit("--effect");
    assert("--effect"@.len() == 8 && "--fps"@.len() == 5 && "--interval"@.len() == 10
        && "--seed"@.len() == 6);
    if let Ok(Command::Run(c)) = parse_spec(args) {
        lemma_effect_name_round_trip(kind);
        lemma_option_after_run(args, tail, c);
    }
}

/// `--profile` with the name of a profile, after any arguments that ask to
/// run, asks to run through that profile with every other setting as those
/// arguments gave it.
pub proof fn lemma_profile_option_sets_profile(
    args: Seq<Argument>,
    tail: Seq<Argument>,
    profile: Profile,
)
    requires
        tail.len() == 2,
        tail[0].text@ == "--profile"@,
        tail[1].text@ == profile_name(profile),
    ensures
        parse_spec(args) matches Ok(Command::Run(c)) ==> parse_spec(args + tail) == Ok::<
            Command,
            Seq<char>,
        >(Command::Run(Config { profile: Some(profile), ..c })),
{
    reveal_strlit("--fps");
    reveal_strlit("--interval");
    reveal_strlit("--seed");
    reveal_strlit("--effect");
    reveal_strlit("--profile");
    assert("--profile"@.len() == 9 && "--effect"@.len() == 8 && "--fps"@.len() == 5
        && "--interval"@.len() == 10 && "--seed"@.len() == 6);
    if let Ok(Command::Run(c)) = parse_spec(args) {
        lemma_profile_name_round_trip(profile);
        lemma_option_after_run(args, tail, c);
    }
}

/// `--ascii`, after any arguments that ask to run, asks to run with ASCII
/// glyphs only and every other setting as those arguments gave it.
pub proof fn lemma_ascii_option_sets_ascii(args: Seq<Argument>, tail: Seq<Argument>)
    requires
        tail.len() == 1,
        tail[0].text@ == "--ascii"@,
    ensures
        parse_spec(args) matches Ok(Command::Run(c)) ==> parse_spec(args + tail) == Ok::<
            Command,
            Seq<char>,
        >(Command::Run(Config { ascii: true, ..c })),
{
    reveal_strlit("-h");
    reveal_strlit("--help");
    reveal_strlit("-V");
    reveal_strlit("--version");
    reveal_strlit("--list");
    reveal_strlit("--ascii");
    assert("--ascii"@.len() == 7 && "--help"@.len() == 6 && "--version"@.len() == 9
        && "--list"@.len() == 6 && "-h"@.len() == 2 && "-V"@.len() == 2);
    lemma_parse_from_append(args, tail, 0, default_config());
    if let Ok(Command::Run(c)) = parse_spec(args) {
        let all = args + tail;
        let n = args.len() as int;
        assert(all[n] == tail[0]);
        assert(parse_from(all, n + 1, Config { ascii: true, ..c }) == Ok::<Command, Seq<char>>(
            Command::Run(Config { ascii: true, ..c }),
        ));
    }
}

/// `--color` followed by the name of a colour policy, after any arguments
/// that ask to run, asks to run with that policy and every other setting
/// as those arguments gave it.
pub proof fn lemma_color_option_sets_policy(
    args: Seq<Argument>,
    tail: Seq<Argument>,
    choice: ColorChoice,
)
    requires
        tail.len() == 2,
        tail[0].text@ == "--color"@,
        tail[1].text@ == color_option_value(choice),
    ensures
        parse_spec(args) matches Ok(Command::Run(c)) ==> parse_spec(args + tail) == Ok::<
            Command,
            Seq<char>,
        >(Command::Run(Config { color: choice, ..c })),
{
    reveal_strlit("--color");
    reveal_strlit("-h");
    reveal_strlit("--help");
    reveal_strlit("-V");
    reveal_strlit("--version");
    reveal_strlit("--list");
    reveal_strlit("--ascii");
    reveal_strlit("--fps");
    reveal_strlit("--interval");
    reveal_strlit("--seed");
    reveal_strlit("--effect");
    reveal_strlit("--profile");
    reveal_strlit("auto");
    reveal_strlit("always");
    reveal_strlit("never");
    lemma_parse_from_append(args, tail, 0, default_config());
    if let Ok(Command::Run(c)) = parse_spec(args) {
        let all = args + tail;
        let n = args.len() as int;
        assert(all[n] == tail[0]);
        assert(all[n + 1] == tail[1]);
        assert(apply_option(all[n].text@, all[n + 1], c) == Ok::<Config, Seq<char>>(
            Config { color: choice, ..c },
        ));
        assert(parse_from(all, n + 2, Config { color: choice, ..c }) == Ok::<Command, Seq<char>>(
            Command::Run(Config { color: choice, ..c }),
        ));
        let arg = all[n].text@;
        assert(arg == "--color"@);
        assert(arg != "-h"@);
        assert(arg != "--help"@);
        assert(arg != "-V"@);
        assert(arg != "--version"@);
        assert(arg != "--list"@);
        assert(arg[2] != "--ascii"@[2]);
        assert(takes_value(arg));
        assert(n + 1 < all.len());
        assert(parse_from(all, n, c) == parse_from(all, n + 2, Config { color: choice, ..c }));
        assert(parse_spec(all) == parse_from(all, n, c));
    }
}

/// Options keep the frame rate in range: every command to run that the
/// command line gives, starting from settings with a frame rate from 1 to
/// 60, has a frame rate from 1 to 60.
pub proof fn lemma_parsed_fps_in_range(args: Seq<Argument>, i: int, config: Config)
    requires
        1 <= config.fps <= 60,
    ensures
        parse_from(args, i, config) matches Ok(Command::Run(c)) ==> 1 <= c.fps <= 60,
    decreases args.len() - i,
{
    if 0 <= i < args.len() {
        let arg = args[i].text@;
        lemma_parsed_fps_in_range(args, i + 1, Config { ascii: true, ..config });
        if takes_value(arg) && i + 1 < args.len() {
            if let Ok(next) = apply_option(arg, args[i + 1], config) {
                lemma_parsed_fps_in_range(args, i + 2, next);
            }
        }
    }
}

/// A command line that parses to a run command asks for a frame rate from
/// 1 to 60.
pub proof fn lemma_parse_fps_in_range(args: Seq<Argument>)
    ensures
        parse_spec(args) matches Ok(Command::Run(c)) ==> 1 <= c.fps <= 60,
{
    lemma_parsed_fps_in_range(args, 0, default_config());
}

fn error_with(prefix: &str, middle: &str, suffix: &str) -> (err: ParseError)
    ensures
        err.message() == prefix@ + middle@ + suffix@,
{
    let mut text = String::from_str(prefix);
    text.append(middle);
    text.append(suffix);
    ParseError(text)
}

fn error(message: &str) -> (err: ParseError)
    ensures
        err.message() == message@,
{
    ParseError(String::from_str(message))
}

/// The argument after an option, or the error for an option given last.
fn value_for<'a>(option: &str, args: &'a Vec<Argument>, next: usize) -> (value: Result<
    &'a Argument,
    ParseError,
>)
    ensures
        next < args@.len() ==> value == Ok::<&Argument, ParseError>(&args@[next as int]),
        next >= args@.len() ==> (value matches Err(e) && e.message() == option@
            + " requires a value"@),
{
    if next < args.len() {
        Ok(&args[next])
    } else {
        let mut text = String::from_str(option);
        text.append(" requires a value");
        Err(ParseError(text))
    }
}

fn apply(option: &str, value: &Argument, config: Config) -> (result: Result<Config, ParseError>)
    requires
        takes_value(option@),
    ensures
        match (result, apply_option(option@, *value, config)) {
            (Ok(c), Ok(e)) => c == e,
            (Err(err), Err(m)) => err.message() == m,
            _ => false,
        },
{
    let text = value.text.as_str();
    if str_eq(option, "--fps") {
        match parse_unsigned(text, 60) {
            Some(v) if v >= 1 => Ok(Config { fps: v as u32, ..config }),
            _ => Err(error("--fps must be an integer from 1 to 60")),
        }
    } else if str_eq(option, "--interval") {
        match value.interval_nanos {
            Some(n) => Ok(Config { interval_nanos: n, ..config }),
            None => Err(error("--interval must be a number from 1 to 3600")),
        }
    } else if str_eq(option, "--seed") {
        match parse_unsigned(text, u64::MAX) {
            Some(v) => Ok(Config { seed: Some(v), ..config }),
            None => Err(error("--seed must be an unsigned integer")),
        }
    } else if str_eq(option, "--effect") {
        match EffectKind::from_name(text) {
            Some(k) => Ok(Config { effect: Some(k), ..config }),
            None => Err(
                error_with("unknown effect '", text, "'; use --list to see available effects"),
            ),
        }
    } else if str_eq(option, "--profile") {
        match Profile::from_name(text) {
            Some(p) => Ok(Config { profile: Some(p), ..config }),
            None => Err(error("--profile must be one of: all, 3d, time")),
        }
    } else if str_eq(text, "auto") {
        Ok(Config { color: ColorChoice::Auto, ..config })
    } else if str_eq(text, "always") {
        Ok(Config { color: ColorChoice::Always, ..config })
    } else if str_eq(text, "never") {
        Ok(Config { color: ColorChoice::Never, ..config })
    } else {
        Err(error("--color must be one of: auto, always, never"))
    }
}

/// Reads the command line (the program name excluded).
pub fn parse(args: Vec<Argument>) -> (result: Result<Command, ParseError>)
    ensures
        outcome_is(result, parse_spec(args@)),
{
    let mut config = Config::default();
    let mut i: usize = 0;
    while i < args.len()
        invariant
            i <= args@.len(),
            parse_spec(args@) == parse_from(args@, i as int, config),
        decreases args@.len() - i,
    {
        let arg = args[i].text.as_str();
        if str_eq(arg, "-h") || str_eq(arg, "--help") {
            return Ok(Command::Help);
        } else if str_eq(arg, "-V") || str_eq(arg, "--version") {
            return Ok(Command::Version);
        } else if str_eq(arg, "--list") {
            return Ok(Command::List);
        } else if str_eq(arg, "--ascii") {
            config.ascii = true;
            i = i + 1;
        } else if str_eq(arg, "--fps") || str_eq(arg, "--interval") || str_eq(arg, "--seed")
            || str_eq(arg, "--effect") || str_eq(arg, "--profile") || str_eq(arg, "--color") {
            let value = match value_for(arg, &args, i + 1) {
                Ok(v) => v,
                Err(e) => {
                    return Err(e);
                },
            };
            config = match apply(arg, value, config) {
                Ok(c) => c,
                Err(e) => {
                    return Err(e);
                },
            };
            i = i + 2;
        } else if arg.unicode_len() > 0 && arg.get_char(0) == '-' {
            return Err(error_with("unknown option '", arg, "'"));
        } else {
            return Err(error_with("unexpected argument '", arg, "'"));
        }
    }
    Ok(Command::Run(config))
}

} // verus!
