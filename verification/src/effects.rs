use vstd::prelude::*;

use rand::rngs::StdRng;
use rand::seq::SliceRandom;
use rand::{Rng, SeedableRng};

use crate::encoding::str_eq;

verus! {

/// The animation families.
#[derive(Clone, Copy, Debug, PartialEq, Eq, Hash, Structural)]
pub enum EffectKind {
    Orb,
    Fractal,
    Donut,
    Wireframe,
    Tesseract,
    Knot,
    Helix,
    Glyphs,
    Clock,
    Starfield,
    Plasma,
}

/// The seeded random number generator of `rand`; opaque here.
#[verifier::external_type_specification]
#[verifier::external_body]
pub struct ExStdRng(StdRng);

/// A seed drawn from `rand::thread_rng`, which the system seeds; nothing is
/// stated of the value.
#[verifier::external_body]
pub fn random_seed() -> u64 {
    rand::thread_rng().gen::<u64>()
}

/// `StdRng::seed_from_u64`: a generator whose sequence depends on the seed
/// alone. The generator is opaque, so nothing is stated of it.
#[verifier::external_body]
pub fn seeded_rng(seed: u64) -> StdRng {
    StdRng::seed_from_u64(seed)
}

/// `Rng::gen::<u64>`: the next random `u64` of the generator; nothing is
/// stated of the value.
#[verifier::external_body]
pub(crate) fn next_random(rng: &mut StdRng) -> u64 {
    rng.gen::<u64>()
}

/// `Rng::gen_ratio`: `true` with probability `numerator / denominator`.
/// Its documentation promises `false` when the numerator is 0 and `true`
/// when it equals the denominator, and a panic when the denominator is 0 or
/// below the numerator, which the precondition rules out.
#[verifier::external_body]
pub(crate) fn random_ratio(rng: &mut StdRng, numerator: u32, denominator: u32) -> (hit: bool)
    requires
        0 < denominator,
        numerator <= denominator,
    ensures
        numerator == 0 ==> !hit,
        numerator == denominator ==> hit,
{
    rng.gen_ratio(numerator, denominator)
}

/// `SliceRandom::shuffle`: puts the items in a random order, so the result
/// holds the same items as many times each; which order comes out is not
/// stated.
#[verifier::external_body]
pub(crate) fn shuffle_effects(items: &mut Vec<EffectKind>, rng: &mut StdRng)
    ensures
        final(items)@.to_multiset() == old(items)@.to_multiset(),
{
    items.as_mut_slice().shuffle(rng)
}

/// Every animation family, in listing order.
pub open spec fn all_effects() -> Seq<EffectKind> {
    seq![
        EffectKind::Orb,
        EffectKind::Fractal,
        EffectKind::Donut,
        EffectKind::Wireframe,
        EffectKind::Tesseract,
        EffectKind::Knot,
        EffectKind::Helix,
        EffectKind::Glyphs,
        EffectKind::Clock,
        EffectKind::Starfield,
        EffectKind::Plasma,
    ]
}

/// The name by which an animation family is listed and selected.
pub open spec fn effect_name(kind: EffectKind) -> Seq<char> {
    match kind {
        EffectKind::Orb => "orb"@,
        EffectKind::Fractal => "fractal"@,
        EffectKind::Donut => "donut"@,
        EffectKind::Wireframe => "wireframe"@,
        EffectKind::Tesseract => "tesseract"@,
        EffectKind::Knot => "knot"@,
        EffectKind::Helix => "helix"@,
        EffectKind::Glyphs => "glyphs"@,
        EffectKind::Clock => "clock"@,
        EffectKind::Starfield => "starfield"@,
        EffectKind::Plasma => "plasma"@,
    }
}

impl EffectKind {
    pub const ALL: [EffectKind; 11] = [
        EffectKind::Orb,
        EffectKind::Fractal,
        EffectKind::Donut,
        EffectKind::Wireframe,
        EffectKind::Tesseract,
        EffectKind::Knot,
        EffectKind::Helix,
        EffectKind::Glyphs,
        EffectKind::Clock,
        EffectKind::Starfield,
        EffectKind::Plasma,
    ];

    pub fn all() -> (kinds: &'static [EffectKind])
        ensures
            kinds@ == all_effects(),
    {
        let kinds: &'static [EffectKind] = &Self::ALL;
        assert(kinds@ =~= all_effects());
        kinds
    }
}

/// The animation family named `name`, if any.
pub open spec fn effect_from_name(name: Seq<char>) -> Option<EffectKind> {
    if exists|k: EffectKind| effect_name(k) == name {
        Some(choose|k: EffectKind| effect_name(k) == name)
    } else {
        None
    }
}

/// Looking a family up by its own name gives back that family.
pub proof fn lemma_effect_name_round_trip(kind: EffectKind)
    ensures
        effect_from_name(effect_name(kind)) == Some(kind),
{
    let k = choose|k: EffectKind| effect_name(k) == effect_name(kind);
    lemma_effect_names_distinct(k, kind);
}

/// Distinct animation families have distinct names.
pub proof fn lemma_effect_names_distinct(a: EffectKind, b: EffectKind)
    ensures
        effect_name(a) == effect_name(b) ==> a == b,
{
    reveal_strlit("orb");
    reveal_strlit("fractal");
    reveal_strlit("donut");
    reveal_strlit("wireframe");
    reveal_strlit("tesseract");
    reveal_strlit("knot");
    reveal_strlit("helix");
    reveal_strlit("glyphs");
    reveal_strlit("clock");
    reveal_strlit("starfield");
    reveal_strlit("plasma");
    if effect_name(a) == effect_name(b) {
        assert(effect_name(a)[0] == effect_name(b)[0]);
        assert(effect_name(a)[1] == effect_name(b)[1]);
        assert(effect_name(a).len() == effect_name(b).len());
    }
}

/// The names of the animation families, as `--list` shows them and
/// `--effect` takes them: each family's name, and the family each name
/// selects.
pub proof fn lemma_effect_name_table()
    ensures
        effect_name(EffectKind::Orb) == "orb"@,
        effect_from_name("orb"@) == Some(EffectKind::Orb),
        effect_name(EffectKind::Fractal) == "fractal"@,
        effect_from_name("fractal"@) == Some(EffectKind::Fractal),
        effect_name(EffectKind::Donut) == "donut"@,
        effect_from_name("donut"@) == Some(EffectKind::Donut),
        effect_name(EffectKind::Wireframe) == "wireframe"@,
        effect_from_name("wireframe"@) == Some(EffectKind::Wireframe),
        effect_name(EffectKind::Tesseract) == "tesseract"@,
        effect_from_name("tesseract"@) == Some(EffectKind::Tesseract),
        effect_name(EffectKind::Knot) == "knot"@,
        effect_from_name("knot"@) == Some(EffectKind::Knot),
        effect_name(EffectKind::Helix) == "helix"@,
        effect_from_name("helix"@) == Some(EffectKind::Helix),
        effect_name(EffectKind::Glyphs) == "glyphs"@,
        effect_from_name("glyphs"@) == Some(EffectKind::Glyphs),
        effect_name(EffectKind::Clock) == "clock"@,
        effect_from_name("clock"@) == Some(EffectKind::Clock),
        effect_name(EffectKind::Starfield) == "starfield"@,
        effect_from_name("starfield"@) == Some(EffectKind::Starfield),
        effect_name(EffectKind::Plasma) == "plasma"@,
        effect_from_name("plasma"@) == Some(EffectKind::Plasma),
{
    lemma_effect_name_round_trip(EffectKind::Orb);
    lemma_effect_name_round_trip(EffectKind::Fractal);
    lemma_effect_name_round_trip(EffectKind::Donut);
    lemma_effect_name_round_trip(EffectKind::Wireframe);
    lemma_effect_name_round_trip(EffectKind::Tesseract);
    lemma_effect_name_round_trip(EffectKind::Knot);
    lemma_effect_name_round_trip(EffectKind::Helix);
    lemma_effect_name_round_trip(EffectKind::Glyphs);
    lemma_effect_name_round_trip(EffectKind::Clock);
    lemma_effect_name_round_trip(EffectKind::Starfield);
    lemma_effect_name_round_trip(EffectKind::Plasma);
}

/// Every animation family is listed.
pub proof fn lemma_all_effects_complete(kind: EffectKind)
    ensures
        all_effects().contains(kind),
{
    let all = all_effects();
    match kind {
        EffectKind::Orb => assert(all[0] == kind),
        EffectKind::Fractal => assert(all[1] == kind),
        EffectKind::Donut => assert(all[2] == kind),
        EffectKind::Wireframe => assert(all[3] == kind),
        EffectKind::Tesseract => assert(all[4] == kind),
        EffectKind::Knot => assert(all[5] == kind),
        EffectKind::Helix => assert(all[6] == kind),
        EffectKind::Glyphs => assert(all[7] == kind),
        EffectKind::Clock => assert(all[8] == kind),
        EffectKind::Starfield => assert(all[9] == kind),
        EffectKind::Plasma => assert(all[10] == kind),
    }
}

impl EffectKind {
    pub fn name(self) -> (name: &'static str)
        ensures
            name@ == effect_name(self),
    {
        match self {
            EffectKind::Orb => "orb",
            EffectKind::Fractal => "fractal",
            EffectKind::Donut => "donut",
            EffectKind::Wireframe => "wireframe",
            EffectKind::Tesseract => "tesseract",
            EffectKind::Knot => "knot",
            EffectKind::Helix => "helix",
            EffectKind::Glyphs => "glyphs",
            EffectKind::Clock => "clock",
            EffectKind::Starfield => "starfield",
            EffectKind::Plasma => "plasma",
        }
    }

    /// The animation family with the given name, if there is one.
    pub fn from_name(name: &str) -> (kind: Option<Self>)
        ensures
            kind == effect_from_name(name@),
    {
        let kinds = Self::all();
        let mut i: usize = 0;
        while i < kinds.len()
            invariant
                kinds@ == all_effects(),
                i <= kinds@.len(),
                forall|j: int| 0 <= j < i ==> effect_name(#[trigger] kinds@[j]) != name@,
            decreases kinds@.len() - i,
        {
            let kind = kinds[i];
            if str_eq(kind.name(), name) {
                proof {
                    lemma_effect_name_round_trip(kind);
                }
                return Some(kind);
            }
            i = i + 1;
        }
        proof {
            assert forall|k: EffectKind| effect_name(k) != name@ by {
                lemma_all_effects_complete(k);
                let j = choose|j: int| 0 <= j < kinds@.len() && kinds@[j] == k;
                assert(effect_name(kinds@[j]) != name@);
            }
        }
        None
    }
}

/// The decimal digits of `n`, most significant first.
pub open spec fn decimal_text(n: nat) -> Seq<char>
    decreases n,
{
    if n < 10 {
        seq![(0x30 + n) as char]
    } else {
        decimal_text(n / 10).push((0x30 + n % 10) as char)
    }
}

/// `n` in decimal, with a leading zero when it has a single digit.
pub open spec fn two_digit_text(n: nat) -> Seq<char> {
    if n < 10 {
        seq!['0'] + decimal_text(n)
    } else {
        decimal_text(n)
    }
}

/// The clock label `HH:MM` of a time of day.
pub open spec fn clock_label(hour: nat, minute: nat) -> Seq<char> {
    two_digit_text(hour) + seq![':'] + two_digit_text(minute)
}

fn digit_text(d: u32) -> (text: &'static str)
    requires
        d < 10,
    ensures
        text@ == seq![(0x30 + d) as char],
{
    proof {
        reveal_strlit("0");
        reveal_strlit("1");
        reveal_strlit("2");
        reveal_strlit("3");
        reveal_strlit("4");
        reveal_strlit("5");
        reveal_strlit("6");
        reveal_strlit("7");
        reveal_strlit("8");
        reveal_strlit("9");
    }
    let text = match d {
        0 => "0",
        1 => "1",
        2 => "2",
        3 => "3",
        4 => "4",
        5 => "5",
        6 => "6",
        7 => "7",
        8 => "8",
        _ => "9",
    };
    assert(text@ =~= seq![(0x30 + d) as char]);
    text
}

fn push_decimal_text(out: &mut String, n: u32)
    ensures
        final(out)@ == old(out)@ + decimal_text(n as nat),
    decreases n,
{
    if n >= 10 {
        push_decimal_text(out, n / 10);
    }
    out.append(digit_text(n % 10));
    assert(out@ =~= old(out)@ + decimal_text(n as nat));
}

fn push_two_digits(out: &mut String, n: u32)
    ensures
        final(out)@ == old(out)@ + two_digit_text(n as nat),
{
    if n < 10 {
        out.append("0");
        proof {
            reveal_strlit("0");
        }
    }
    push_decimal_text(out, n);
    assert(out@ =~= old(out)@ + two_digit_text(n as nat));
}

/// The text a clock scene shows for the given hour and minute: both
/// zero-padded to two digits, joined by a colon.
pub fn clock_text(hour: u32, minute: u32) -> (text: String)
    ensures
        text@ == clock_label(hour as nat, minute as nat),
{
    let mut text = String::new();
    push_two_digits(&mut text, hour);
    text.append(":");
    proof {
        reveal_strlit(":");
    }
    push_two_digits(&mut text, minute);
    assert(text@ =~= clock_label(hour as nat, minute as nat));
    text
}

} // verus!
