use vstd::prelude::*;

use crate::effects::{all_effects, lemma_all_effects_complete, EffectKind};
use crate::encoding::str_eq;

verus! {

/// A named group of effects that scenes rotate through.
#[derive(Clone, Copy, Debug, PartialEq, Eq, Structural)]
pub enum Profile {
    All,
    ThreeD,
    Time,
}

/// Every profile, in listing order.
pub open spec fn all_profiles() -> Seq<Profile> {
    seq![Profile::All, Profile::ThreeD, Profile::Time]
}

/// The name by which a profile is listed and selected.
pub open spec fn profile_name(profile: Profile) -> Seq<char> {
    match profile {
        Profile::All => "all"@,
        Profile::ThreeD => "3d"@,
        Profile::Time => "time"@,
    }
}

/// The profile named `name`, if any.
pub open spec fn profile_from_name(name: Seq<char>) -> Option<Profile> {
    if exists|p: Profile| profile_name(p) == name {
        Some(choose|p: Profile| profile_name(p) == name)
    } else {
        None
    }
}

/// The effects a profile rotates through.
pub open spec fn profile_effects(profile: Profile) -> Seq<EffectKind> {
    match profile {
        Profile::All => all_effects(),
        Profile::ThreeD => seq![EffectKind::Orb, EffectKind::Donut, EffectKind::Wireframe],
        Profile::Time => seq![EffectKind::Clock],
    }
}

/// Distinct profiles have distinct names.
pub proof fn lemma_profile_names_distinct(a: Profile, b: Profile)
    ensures
        profile_name(a) == profile_name(b) ==> a == b,
{
    reveal_strlit("all");
    reveal_strlit("3d");
    reveal_strlit("time");
    if profile_name(a) == profile_name(b) {
        assert(profile_name(a)[0] == profile_name(b)[0]);
    }
}

/// Looking a profile up by its own name gives back that profile.
pub proof fn lemma_profile_name_round_trip(profile: Profile)
    ensures
        profile_from_name(profile_name(profile)) == Some(profile),
{
    let p = choose|p: Profile| profile_name(p) == profile_name(profile);
    lemma_profile_names_distinct(p, profile);
}

/// The names of the profiles, as `--profile` takes them: each profile's
/// name, and the profile each name selects.
pub proof fn lemma_profile_name_table()
    ensures
        profile_name(Profile::All) == "all"@,
        profile_from_name("all"@) == Some(Profile::All),
        profile_name(Profile::ThreeD) == "3d"@,
        profile_from_name("3d"@) == Some(Profile::ThreeD),
        profile_name(Profile::Time) == "time"@,
        profile_from_name("time"@) == Some(Profile::Time),
{
    lemma_profile_name_round_trip(Profile::All);
    lemma_profile_name_round_trip(Profile::ThreeD);
    lemma_profile_name_round_trip(Profile::Time);
}

/// Which animation families each profile rotates through: all of them;
/// the orb, the donut and the wireframe for `3d`; the clock for `time`.
pub proof fn lemma_profile_members(kind: EffectKind)
    ensures
        profile_effects(Profile::All).contains(kind),
        profile_effects(Profile::ThreeD).contains(kind) <==> (kind == EffectKind::Orb || kind
            == EffectKind::Donut || kind == EffectKind::Wireframe),
        profile_effects(Profile::Time).contains(kind) <==> kind == EffectKind::Clock,
{
    lemma_all_effects_complete(kind);
    let three = profile_effects(Profile::ThreeD);
    if kind == EffectKind::Orb {
        assert(three[0] == kind);
    } else if kind == EffectKind::Donut {
        assert(three[1] == kind);
    } else if kind == EffectKind::Wireframe {
        assert(three[2] == kind);
    }
    if kind == EffectKind::Clock {
        assert(profile_effects(Profile::Time)[0] == kind);
    }
}

/// Every profile rotates through at least one effect, lists each effect at
/// most once, and only lists effects that exist.
pub proof fn lemma_profile_effects_well_formed(profile: Profile)
    ensures
        profile_effects(profile).len() > 0,
        profile_effects(profile).no_duplicates(),
        forall|i: int|
            0 <= i < profile_effects(profile).len() ==> all_effects().contains(
                #[trigger] profile_effects(profile)[i],
            ),
{
    let e = profile_effects(profile);
    let all = all_effects();
    assert forall|i: int, j: int| 0 <= i < e.len() && 0 <= j < e.len() && i != j implies e[i]
        != e[j] by {}
    assert forall|i: int| 0 <= i < e.len() implies all.contains(#[trigger] e[i]) by {
        crate::effects::lemma_all_effects_complete(e[i]);
    }
}

const THREE_D_EFFECTS: [EffectKind; 3] = [EffectKind::Orb, EffectKind::Donut, EffectKind::Wireframe];

const TIME_EFFECTS: [EffectKind; 1] = [EffectKind::Clock];

impl Profile {
    pub const ALL: [Profile; 3] = [Profile::All, Profile::ThreeD, Profile::Time];

    pub fn name(self) -> (name: &'static str)
        ensures
            name@ == profile_name(self),
    {
        match self {
            Profile::All => "all",
            Profile::ThreeD => "3d",
            Profile::Time => "time",
        }
    }

    /// The profile with the given name, if there is one.
    pub fn from_name(name: &str) -> (profile: Option<Self>)
        ensures
            profile == profile_from_name(name@),
    {
        let profiles: &'static [Profile] = &Self::ALL;
        assert(profiles@ =~= all_profiles());
        let mut i: usize = 0;
        while i < profiles.len()
            invariant
                profiles@ == all_profiles(),
                i <= profiles@.len(),
                forall|j: int| 0 <= j < i ==> profile_name(#[trigger] profiles@[j]) != name@,
            decreases profiles@.len() - i,
        {
            let profile = profiles[i];
            if str_eq(profile.name(), name) {
                proof {
                    lemma_profile_name_round_trip(profile);
                }
                return Some(profile);
            }
            i = i + 1;
        }
        proof {
            assert forall|p: Profile| profile_name(p) != name@ by {
                match p {
                    Profile::All => assert(profiles@[0] == p),
                    Profile::ThreeD => assert(profiles@[1] == p),
                    Profile::Time => assert(profiles@[2] == p),
                }
            }
        }
        None
    }

    /// The effects this profile rotates through.
    pub fn effects(self) -> (effects: &'static [EffectKind])
        ensures
            effects@ == profile_effects(self),
    {
        match self {
            Profile::All => EffectKind::all(),
            Profile::ThreeD => {
                let effects: &'static [EffectKind] = &THREE_D_EFFECTS;
                assert(effects@ =~= profile_effects(self));
                effects
            },
            Profile::Time => {
                let effects: &'static [EffectKind] = &TIME_EFFECTS;
                assert(effects@ =~= profile_effects(self));
                effects
            },
        }
    }

    /// The names of all profiles, in listing order.
    pub fn names() -> (names: Vec<&'static str>)
        ensures
            names@.len() == all_profiles().len(),
            forall|i: int| 0 <= i < names@.len() ==> names@[i]@ == profile_name(all_profiles()[i]),
    {
        let mut names: Vec<&'static str> = Vec::new();
        names.push(Profile::All.name());
        names.push(Profile::ThreeD.name());
        names.push(Profile::Time.name());
        names
    }
}

} // verus!
