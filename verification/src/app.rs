use vstd::prelude::*;

use rand::rngs::StdRng;

use crate::canvas::{plain_style, Canvas, Cell, Rgb, Style};
use crate::config::{config_profile, ColorChoice, Config};
use crate::effects::{next_random, random_ratio, random_seed, seeded_rng, shuffle_effects, EffectKind};
use crate::profile::{lemma_profile_effects_well_formed, profile_effects};

verus! {

/// Items in the same numbers, in any order, are the same set of items, and
/// a list without repeats stays without repeats.
proof fn lemma_permutation(a: Seq<EffectKind>, b: Seq<EffectKind>)
    requires
        a.to_multiset() == b.to_multiset(),
    ensures
        a.len() == b.len(),
        forall|x: EffectKind| a.contains(x) <==> b.contains(x),
        a.no_duplicates() ==> b.no_duplicates(),
{
    vstd::seq_lib::to_multiset_len(a);
    vstd::seq_lib::to_multiset_len(b);

    assert forall|x: EffectKind| a.contains(x) <==> b.contains(x) by {
        vstd::seq_lib::to_multiset_contains(a, x);
        vstd::seq_lib::to_multiset_contains(b, x);
    }
    if a.no_duplicates() {
        a.lemma_multiset_has_no_duplicates();
        b.lemma_multiset_has_no_duplicates_conv();
    }
}

/// Exchanging the first and the last item of a list keeps its items in
/// the same numbers.
proof fn lemma_swap_ends(before: Seq<EffectKind>, after: Seq<EffectKind>)
    requires
        before.len() > 1,
        after == before.update(0, before[before.len() - 1]).update(
            before.len() - 1,
            before[0],
        ),
    ensures
        after.to_multiset() == before.to_multiset(),
        after[after.len() - 1] == before[0],
{
    let last = before.len() - 1;
    let swapped_first = before.update(0, before[last]);
    vstd::seq_lib::to_multiset_update(before, 0, before[last]);
    vstd::seq_lib::to_multiset_update(swapped_first, last, before[0]);
    vstd::seq_lib::to_multiset_contains(before, before[0]);
    vstd::seq_lib::to_multiset_contains(before, before[last]);
    assert(after.to_multiset() =~= before.to_multiset());
}

/// Whether a scene is drawn in colour, given the colour setting, whether
/// `NO_COLOR` is set, and the random draw of the scene: always, never, or,
/// by default, when `NO_COLOR` is not set and the draw came up.
pub open spec fn scene_color(choice: ColorChoice, no_color: bool, draw: bool) -> bool {
    match choice {
        ColorChoice::Always => true,
        ColorChoice::Never => false,
        ColorChoice::Auto => !no_color && draw,
    }
}

/// The random draw behind the colour of a scene: a draw with chance 18 in
/// 25 when the setting is automatic and `NO_COLOR` is not set. Otherwise no
/// draw is made: the generator is left as it is and the answer is `false`.
fn color_draw(choice: ColorChoice, no_color: bool, rng: &mut StdRng) -> (draw: bool)
    ensures
        !(choice == ColorChoice::Auto && !no_color) ==> !draw && *final(rng) == *old(rng),
{
    match choice {
        ColorChoice::Auto => if no_color {
            false
        } else {
            random_ratio(rng, 18, 25)
        },
        _ => false,
    }
}

/// A key as the screensaver reads it.
#[derive(Clone, Copy, Debug, PartialEq, Eq, Structural)]
pub enum Key {
    Char(char),
    Esc,
    Right,
    Other,
}

/// Something that happened at the terminal.
#[derive(Clone, Copy, Debug, PartialEq, Eq, Structural)]
pub enum Input {
    /// The terminal changed size.
    Resize,
    /// A key event: the key, whether Control was held, and whether it was a
    /// press (rather than a repeat or a release).
    Key { key: Key, control: bool, press: bool },
    /// Anything else.
    Other,
}

/// What the program has to do after an input.
#[derive(Clone, Copy, Debug, PartialEq, Eq, Structural)]
pub struct Response {
    /// The whole screen has to be redrawn.
    pub redraw: bool,
    /// A new scene began: its animation has to be created.
    pub new_scene: bool,
    /// The scene clock starts counting again from now.
    pub restart_clock: bool,
}

/// The scene rotation and the interactive switches of the screensaver.
pub struct AppState {
    config: Config,
    no_color: bool,
    rng: StdRng,
    bag: Vec<EffectKind>,
    current_kind: EffectKind,
    scene_seed: u64,
    scene_elapsed_nanos: u64,
    paused: bool,
    force_monochrome: bool,
    scene_colored: bool,
    show_help: bool,
    should_quit: bool,
}

impl AppState {
    pub closed spec fn settings(&self) -> Config {
        self.config
    }

    pub closed spec fn kind(&self) -> EffectKind {
        self.current_kind
    }

    /// The effects left to show before the rotation starts over.
    pub closed spec fn upcoming(&self) -> Seq<EffectKind> {
        self.bag@
    }

    pub closed spec fn seed(&self) -> u64 {
        self.scene_seed
    }

    pub closed spec fn elapsed(&self) -> u64 {
        self.scene_elapsed_nanos
    }

    pub closed spec fn on_pause(&self) -> bool {
        self.paused
    }

    pub closed spec fn monochrome_forced(&self) -> bool {
        self.force_monochrome
    }

    pub closed spec fn scene_in_color(&self) -> bool {
        self.scene_colored
    }

    pub closed spec fn help_shown(&self) -> bool {
        self.show_help
    }

    pub closed spec fn quitting(&self) -> bool {
        self.should_quit
    }

    pub closed spec fn no_color_set(&self) -> bool {
        self.no_color
    }

    /// The state of the generator from which scenes draw their seeds,
    /// colours and shuffles.
    pub closed spec fn generator(&self) -> StdRng {
        self.rng
    }

    /// Everything but the four switches (pause, monochrome, help, quit)
    /// is the same in `self` and `other`: the settings, the generator, the
    /// rotation and the scene.
    pub open spec fn same_scene(&self, other: AppState) -> bool {
        &&& other.settings() == self.settings()
        &&& other.no_color_set() == self.no_color_set()
        &&& other.generator() == self.generator()
        &&& other.upcoming() == self.upcoming()
        &&& other.kind() == self.kind()
        &&& other.seed() == self.seed()
        &&& other.elapsed() == self.elapsed()
        &&& other.scene_in_color() == self.scene_in_color()
    }

    /// The four switches are the same in `self` and `other`.
    pub open spec fn same_switches(&self, other: AppState) -> bool {
        &&& other.on_pause() == self.on_pause()
        &&& other.monochrome_forced() == self.monochrome_forced()
        &&& other.help_shown() == self.help_shown()
        &&& other.quitting() == self.quitting()
    }

    /// Whether the scene's colour follows the colour setting: always,
    /// never, and never but for `--color always` when `NO_COLOR` is set.
    pub open spec fn color_follows_setting(&self) -> bool {
        &&& self.settings().color == ColorChoice::Always ==> self.scene_in_color()
        &&& self.settings().color == ColorChoice::Never ==> !self.scene_in_color()
        &&& self.no_color_set() ==> (self.scene_in_color() <==> self.settings().color
            == ColorChoice::Always)
    }

    /// `next` shows the scene that follows this one in the rotation: the
    /// pinned effect with the effects to come unchanged; or else an effect
    /// of the profile, other than the current one when the profile has more
    /// than one, taken from the end of the effects to come, or, once they
    /// have all been shown, from a new round in which every effect of the
    /// profile comes once.
    pub open spec fn rotates_to(&self, next: AppState) -> bool {
        match self.settings().effect {
            Some(k) => next.kind() == k && next.upcoming() == self.upcoming(),
            None => {
                &&& self.pool().contains(next.kind())
                &&& self.pool().len() > 1 ==> next.kind() != self.kind()
                &&& self.upcoming().len() > 0 ==> self.upcoming() == next.upcoming().push(
                    next.kind(),
                )
                &&& self.upcoming().len() == 0 ==> next.upcoming().push(
                    next.kind(),
                ).to_multiset() == self.pool().to_multiset()
            },
        }
    }

    /// This state with the four switches set to the given values and
    /// everything else kept.
    pub closed spec fn with_switches(
        self,
        paused: bool,
        monochrome: bool,
        help: bool,
        quit: bool,
    ) -> AppState {
        AppState {
            paused,
            force_monochrome: monochrome,
            show_help: help,
            should_quit: quit,
            ..self
        }
    }

    /// Setting the switches keeps the scene and sets exactly the four
    /// switches; setting them to what they are gives the same state back,
    /// and of two settings in a row the second one counts. So a switch
    /// toggled twice leaves the state as it was.
    pub proof fn lemma_with_switches(
        self,
        paused: bool,
        monochrome: bool,
        help: bool,
        quit: bool,
        paused2: bool,
        monochrome2: bool,
        help2: bool,
        quit2: bool,
    )
        ensures
            self.same_scene(self.with_switches(paused, monochrome, help, quit)),
            self.with_switches(paused, monochrome, help, quit).on_pause() == paused,
            self.with_switches(paused, monochrome, help, quit).monochrome_forced() == monochrome,
            self.with_switches(paused, monochrome, help, quit).help_shown() == help,
            self.with_switches(paused, monochrome, help, quit).quitting() == quit,
            self.with_switches(paused, monochrome, help, quit).wf() == self.wf(),
            self.with_switches(
                self.on_pause(),
                self.monochrome_forced(),
                self.help_shown(),
                self.quitting(),
            ) == self,
            self.with_switches(paused, monochrome, help, quit).with_switches(
                paused2,
                monochrome2,
                help2,
                quit2,
            ) == self.with_switches(paused2, monochrome2, help2, quit2),
    {
    }

    /// The effects the rotation draws from.
    pub open spec fn pool(&self) -> Seq<EffectKind> {
        profile_effects(config_profile(self.settings()))
    }

    /// The state's invariant: the scene's colour follows the colour
    /// setting; a pinned effect is always the current one; otherwise the
    /// current effect belongs to the profile, and the effects still to come
    /// are distinct effects of the profile other than the current one.
    pub open spec fn wf(&self) -> bool {
        &&& self.color_follows_setting()
        &&& match self.settings().effect {
            Some(k) => self.kind() == k,
            None => {
                &&& self.pool().contains(self.kind())
                &&& self.upcoming().no_duplicates()
                &&& forall|i: int|
                    0 <= i < self.upcoming().len() ==> self.pool().contains(
                        #[trigger] self.upcoming()[i],
                    )
                &&& !self.upcoming().contains(self.kind())
            },
        }
    }

    /// A new scene state: the rotation is seeded by the configured seed or a
    /// random one; the first scene is the pinned effect or one drawn from a
    /// shuffle of the profile. `no_color` tells whether `NO_COLOR` is set.
    pub fn new(config: Config, no_color: bool) -> (state: Self)
        ensures
            state.wf(),
            state.settings() == config,
            state.no_color_set() == no_color,
            state.elapsed() == 0,
            !state.on_pause(),
            !state.monochrome_forced(),
            !state.help_shown(),
            !state.quitting(),
            config.color == ColorChoice::Always ==> state.scene_in_color(),
            config.color == ColorChoice::Never ==> !state.scene_in_color(),
            no_color ==> (state.scene_in_color() <==> config.color == ColorChoice::Always),
            config.effect is None ==> state.upcoming().push(state.kind()).to_multiset()
                == state.pool().to_multiset(),
    {
        let seed = match config.seed {
            Some(s) => s,
            None => random_seed(),
        };
        let mut rng = seeded_rng(seed);
        let pool = config.profile().effects();
        let mut bag: Vec<EffectKind> = Vec::new();
        let mut i: usize = 0;
        while i < pool.len()
            invariant
                i <= pool@.len(),
                bag@ == pool@.take(i as int),
            decreases pool@.len() - i,
        {
            bag.push(pool[i]);
            assert(pool@.take(i + 1) =~= pool@.take(i as int).push(pool@[i as int]));
            i = i + 1;
        }
        assert(pool@.take(pool@.len() as int) =~= pool@);
        let ghost filled = bag@;
        shuffle_effects(&mut bag, &mut rng);
        proof {
            lemma_profile_effects_well_formed(config_profile(config));
            lemma_permutation(filled, bag@);
        }
        let ghost shuffled = bag@;
        let current_kind = match config.effect {
            Some(k) => k,
            None => match bag.pop() {
                Some(k) => k,
                None => EffectKind::Plasma,
            },
        };
        proof {
            if config.effect is None {
                assert(shuffled.len() > 0);
                assert(shuffled.contains(current_kind)) by {
                    assert(shuffled[shuffled.len() - 1] == current_kind);
                }
                assert(bag@ =~= shuffled.drop_last());
                assert(shuffled =~= bag@.push(current_kind));
                assert(!bag@.contains(current_kind)) by {
                    if bag@.contains(current_kind) {
                        let j = choose|j: int| 0 <= j < bag@.len() && bag@[j] == current_kind;
                        assert(shuffled[j] == shuffled[shuffled.len() - 1]);
                    }
                }
                assert forall|j: int| 0 <= j < bag@.len() implies pool@.contains(#[trigger] bag@[j]) by {
                    assert(shuffled.contains(bag@[j]));
                }
            }
        }
        let seed = next_random(&mut rng);
        let draw = color_draw(config.color, no_color, &mut rng);
        let mut state = AppState {
            config,
            no_color,
            rng,
            bag,
            current_kind,
            scene_seed: 0,
            scene_elapsed_nanos: 0,
            paused: false,
            force_monochrome: false,
            scene_colored: false,
            show_help: false,
            should_quit: false,
        };
        state.start_scene(current_kind, seed, draw);
        state
    }

    /// The effect of the next scene: the pinned effect, or the next one of
    /// the shuffled profile. When the profile has been shown through, it is
    /// shuffled again, and an order that would repeat the current effect
    /// first is changed by swapping the first and last entries.
    #[verifier::rlimit(40)]
    pub fn next_kind(&mut self) -> (kind: EffectKind)
        requires
            old(self).wf(),
        ensures
            final(self).settings() == old(self).settings(),
            final(self).kind() == old(self).kind(),
            final(self).no_color_set() == old(self).no_color_set(),
            final(self).seed() == old(self).seed(),
            final(self).elapsed() == old(self).elapsed(),
            final(self).on_pause() == old(self).on_pause(),
            final(self).monochrome_forced() == old(self).monochrome_forced(),
            final(self).scene_in_color() == old(self).scene_in_color(),
            final(self).help_shown() == old(self).help_shown(),
            final(self).quitting() == old(self).quitting(),
            match old(self).settings().effect {
                Some(k) => kind == k && final(self).upcoming() == old(self).upcoming(),
                None => {
                    &&& old(self).upcoming().len() > 0
                        ==> old(self).upcoming() == final(self).upcoming().push(kind)
                    &&& old(self).upcoming().len() == 0
                        ==> final(self).upcoming().push(kind).to_multiset()
                        == old(self).pool().to_multiset()
                    &&& old(self).pool().contains(kind)
                    &&& old(self).pool().len() > 1 ==> kind != old(self).kind()
                    &&& final(self).upcoming().no_duplicates()
                    &&& forall|i: int|
                        0 <= i < final(self).upcoming().len() ==> old(self).pool().contains(
                            #[trigger] final(self).upcoming()[i],
                        )
                    &&& !final(self).upcoming().contains(kind)
                },
            },
    {
        if let Some(kind) = self.config.effect {
            return kind;
        }
        let ghost pool = self.pool();
        let ghost initial = self.bag@;
        proof {
            lemma_profile_effects_well_formed(config_profile(self.config));
        }
        if self.bag.len() == 0 {
            let effects = self.config.profile().effects();
            let ghost start = *self;
            let mut i: usize = 0;
            while i < effects.len()
                invariant
                    self.config == start.config,
                    self.no_color == start.no_color,
                    self.current_kind == start.current_kind,
                    self.scene_seed == start.scene_seed,
                    self.scene_elapsed_nanos == start.scene_elapsed_nanos,
                    self.paused == start.paused,
                    self.force_monochrome == start.force_monochrome,
                    self.scene_colored == start.scene_colored,
                    self.show_help == start.show_help,
                    self.should_quit == start.should_quit,
                    effects@ == pool,
                    i <= effects@.len(),
                    self.bag@ == effects@.take(i as int),
                decreases effects@.len() - i,
            {
                self.bag.push(effects[i]);
                assert(effects@.take(i + 1) =~= effects@.take(i as int).push(effects@[i as int]));
                i = i + 1;
            }
            assert(effects@.take(effects@.len() as int) =~= effects@);
            let ghost filled = self.bag@;
            shuffle_effects(&mut self.bag, &mut self.rng);
            proof {
                lemma_permutation(filled, self.bag@);
            }
            let len = self.bag.len();
            if len > 1 && self.bag[len - 1] == self.current_kind {
                let ghost before = self.bag@;
                let first = self.bag[0];
                let last = self.bag[len - 1];
                self.bag[0] = last;
                self.bag[len - 1] = first;
                proof {
                    lemma_swap_ends(before, self.bag@);
                }
            }
            proof {
                assert(self.bag@.to_multiset() == pool.to_multiset());
                lemma_permutation(pool, self.bag@);
                assert(self.bag@.len() == pool.len());
                assert(pool.len() > 1 ==> self.bag@[self.bag@.len() - 1] != self.current_kind);
                assert forall|j: int| 0 <= j < self.bag@.len() implies pool.contains(
                    #[trigger] self.bag@[j],
                ) by {
                    assert(self.bag@.contains(self.bag@[j]));
                }
                if pool.len() <= 1 {
                    assert(pool.len() == 1);
                }
            }
        }
        let ghost before = self.bag@;
        let kind = match self.bag.pop() {
            Some(k) => k,
            None => EffectKind::Plasma,
        };
        proof {
            assert(before.len() > 0);
            assert(kind == before[before.len() - 1]);
            assert(self.bag@ =~= before.drop_last());
            assert(before =~= self.bag@.push(kind));
            assert(pool.contains(kind));
            assert(!self.bag@.contains(kind)) by {
                if self.bag@.contains(kind) {
                    let j = choose|j: int| 0 <= j < self.bag@.len() && self.bag@[j] == kind;
                    assert(before[j] == before[before.len() - 1]);
                }
            }
            assert forall|j: int| 0 <= j < self.bag@.len() implies pool.contains(
                #[trigger] self.bag@[j],
            ) by {
                assert(before[j] == self.bag@[j]);
            }
        }
        kind
    }
}

/// The effects shown by scenes 1 to `count` of `states`.
pub open spec fn shown_kinds(states: Seq<AppState>, count: int) -> Seq<EffectKind> {
    Seq::new(count as nat, |j: int| states[j + 1].kind())
}

/// Whether each state of `states` follows the one before in the rotation,
/// with the same settings, starting with the effects to come used up and
/// no pinned effect.
pub open spec fn is_round(states: Seq<AppState>) -> bool {
    &&& states.len() >= 1
    &&& states[0].settings().effect is None
    &&& states[0].upcoming().len() == 0
    &&& forall|i: int|
        0 <= i < states.len() - 1 ==> (#[trigger] states[i]).rotates_to(states[i + 1])
            && states[i + 1].settings() == states[i].settings()
}

proof fn lemma_round_so_far(states: Seq<AppState>, i: int)
    requires
        is_round(states),
        1 <= i < states.len(),
        states.len() <= states[0].pool().len() + 1,
    ensures
        states[i].settings() == states[0].settings(),
        states[i].upcoming().len() + i == states[0].pool().len(),
        states[i].upcoming().to_multiset().add(shown_kinds(states, i).to_multiset())
            == states[0].pool().to_multiset(),
    decreases i,
{
    broadcast use vstd::multiset::group_multiset_axioms;

    let s = states[i];
    let k = s.kind();
    assert(states[i - 1].rotates_to(states[i]) && states[i].settings() == states[i - 1].settings());
    assert(shown_kinds(states, i) =~= shown_kinds(states, i - 1).push(k));
    vstd::seq_lib::to_multiset_build(shown_kinds(states, i - 1), k);
    if i == 1 {
        let p = states[0].pool();
        assert(shown_kinds(states, 0) =~= Seq::<EffectKind>::empty());
        vstd::seq_lib::to_multiset_len(Seq::<EffectKind>::empty());
        vstd::multiset::lemma_multiset_empty_len(Seq::<EffectKind>::empty().to_multiset());
        vstd::seq_lib::to_multiset_build(s.upcoming(), k);
        vstd::seq_lib::to_multiset_len(s.upcoming().push(k));
        vstd::seq_lib::to_multiset_len(p);
        assert(s.upcoming().to_multiset().add(shown_kinds(states, i).to_multiset())
            =~= s.upcoming().push(k).to_multiset());
    } else {
        lemma_round_so_far(states, i - 1);
        let prev = states[i - 1];
        assert(prev.upcoming().len() > 0);
        assert(prev.upcoming() == s.upcoming().push(k));
        vstd::seq_lib::to_multiset_build(s.upcoming(), k);
        assert(s.upcoming().to_multiset().add(shown_kinds(states, i).to_multiset())
            =~= prev.upcoming().to_multiset().add(shown_kinds(states, i - 1).to_multiset()));
    }
}

/// A round of the rotation shows every effect of the profile once: when the
/// effects to come are used up, the scenes that follow one another in the
/// rotation show, over as many scenes as the profile has effects, each
/// effect of the profile exactly once.
pub proof fn lemma_round_shows_each_effect_once(states: Seq<AppState>)
    requires
        is_round(states),
        states.len() == states[0].pool().len() + 1,
    ensures
        shown_kinds(states, states.len() - 1).to_multiset() == states[0].pool().to_multiset(),
{
    let n = states.len() - 1;
    if n == 0 {
        lemma_profile_effects_well_formed(config_profile(states[0].settings()));
    } else {
        lemma_round_so_far(states, n);
        let left = states[n].upcoming().to_multiset();
        let shown = shown_kinds(states, n).to_multiset();
        vstd::seq_lib::to_multiset_len(states[n].upcoming());
        vstd::multiset::lemma_multiset_empty_len(left);
        assert(left.add(shown) =~= shown) by {
            broadcast use vstd::multiset::group_multiset_axioms;

        }
    }
}

impl AppState {
    /// Whether `kind` may be the effect of the next scene: the pinned effect,
    /// or else an effect of the profile that is not among the effects still
    /// to come, which are distinct effects of the profile.
    pub open spec fn may_start(&self, kind: EffectKind) -> bool {
        match self.settings().effect {
            Some(k) => kind == k,
            None => {
                &&& self.pool().contains(kind)
                &&& !self.upcoming().contains(kind)
                &&& self.upcoming().no_duplicates()
                &&& forall|i: int|
                    0 <= i < self.upcoming().len() ==> self.pool().contains(
                        #[trigger] self.upcoming()[i],
                    )
            },
        }
    }

    /// `next` shows a new scene of `kind` whose parameters come from the
    /// seed `seed` and whose colour follows the setting and the colour draw
    /// `draw`; the scene clock starts at zero, and the settings and the
    /// switches stay.
    pub open spec fn starts_scene(&self, next: AppState, kind: EffectKind, seed: u64, draw: bool) -> bool {
        &&& next.kind() == kind
        &&& next.seed() == seed
        &&& next.scene_in_color() == scene_color(self.settings().color, self.no_color_set(), draw)
        &&& next.elapsed() == 0
        &&& next.settings() == self.settings()
        &&& next.no_color_set() == self.no_color_set()
        &&& self.same_switches(next)
    }

    /// Starts a scene of `kind` from the seed `seed` and the colour draw
    /// `draw`, the values drawn from the generator for it; the scene clock
    /// restarts, and the rotation, the generator and the switches stay.
    pub fn start_scene(&mut self, kind: EffectKind, seed: u64, draw: bool)
        requires
            old(self).may_start(kind),
        ensures
            final(self).wf(),
            old(self).starts_scene(*final(self), kind, seed, draw),
            final(self).upcoming() == old(self).upcoming(),
            final(self).generator() == old(self).generator(),
    {
        self.current_kind = kind;
        self.scene_seed = seed;
        self.scene_colored = match self.config.color {
            ColorChoice::Always => true,
            ColorChoice::Never => false,
            ColorChoice::Auto => !self.no_color && draw,
        };
        self.scene_elapsed_nanos = 0;
    }

    /// Starts a scene of `kind` with a seed and a colour draw taken from the
    /// generator, which of their values is left open.
    fn replace_scene(&mut self, kind: EffectKind)
        requires
            old(self).may_start(kind),
        ensures
            final(self).wf(),
            exists|seed: u64, draw: bool| old(self).starts_scene(*final(self), kind, seed, draw),
            final(self).upcoming() == old(self).upcoming(),
    {
        let seed = next_random(&mut self.rng);
        let draw = color_draw(self.config.color, self.no_color, &mut self.rng);
        self.start_scene(kind, seed, draw);
        assert(old(self).starts_scene(*self, kind, seed, draw));
    }

    /// Moves on to the next scene of the rotation, started from a seed and a
    /// colour draw taken from the generator; the scene clock restarts and
    /// the switches stay.
    pub fn next_scene(&mut self)
        requires
            old(self).wf(),
        ensures
            final(self).wf(),
            old(self).rotates_to(*final(self)),
            exists|seed: u64, draw: bool|
                old(self).starts_scene(*final(self), final(self).kind(), seed, draw),
    {
        let kind = self.next_kind();
        let ghost mid = *self;
        self.replace_scene(kind);
        proof {
            let (seed, draw) = choose|seed: u64, draw: bool| mid.starts_scene(*self, kind, seed, draw);
            assert(old(self).starts_scene(*self, self.kind(), seed, draw));
        }
    }

    /// Starts the current effect over from a new seed and a new colour draw
    /// taken from the generator; the scene clock restarts, and the rotation
    /// and the switches stay.
    pub fn regenerate(&mut self)
        requires
            old(self).wf(),
        ensures
            final(self).wf(),
            final(self).upcoming() == old(self).upcoming(),
            exists|seed: u64, draw: bool|
                old(self).starts_scene(*final(self), old(self).kind(), seed, draw),
    {
        let kind = self.current_kind;
        self.replace_scene(kind);
    }

    /// Lets `delta_nanos` of wall time pass. While paused nothing changes;
    /// otherwise the scene clock advances (saturating), and once it reaches
    /// the interval the next scene begins. Returns whether it began.
    pub fn advance(&mut self, delta_nanos: u64) -> (new_scene: bool)
        requires
            old(self).wf(),
        ensures
            final(self).wf(),
            old(self).on_pause() ==> !new_scene && *final(self) == *old(self),
            !old(self).on_pause() ==> (new_scene <==> old(self).elapsed() + delta_nanos
                >= old(self).settings().interval_nanos),
            !old(self).on_pause() && !new_scene ==> {
                &&& final(self).elapsed() == old(self).elapsed() + delta_nanos
                &&& final(self).settings() == old(self).settings()
                &&& final(self).no_color_set() == old(self).no_color_set()
                &&& final(self).generator() == old(self).generator()
                &&& final(self).upcoming() == old(self).upcoming()
                &&& final(self).kind() == old(self).kind()
                &&& final(self).seed() == old(self).seed()
                &&& final(self).scene_in_color() == old(self).scene_in_color()
            },
            new_scene ==> {
                &&& old(self).rotates_to(*final(self))
                &&& exists|seed: u64, draw: bool|
                    old(self).starts_scene(*final(self), final(self).kind(), seed, draw)
            },
            old(self).same_switches(*final(self)),
    {
        if self.paused {
            return false;
        }
        let elapsed = self.scene_elapsed_nanos.saturating_add(delta_nanos);
        if elapsed >= self.config.interval_nanos {
            self.next_scene();
            true
        } else {
            self.scene_elapsed_nanos = elapsed;
            false
        }
    }

    /// `next` is this state with the switches set to the given values and
    /// the scene, the rotation and the generator unchanged.
    pub open spec fn switched_to(
        &self,
        next: AppState,
        paused: bool,
        monochrome: bool,
        help: bool,
        quit: bool,
    ) -> bool {
        &&& next == self.with_switches(paused, monochrome, help, quit)
        &&& self.same_scene(next)
        &&& next.on_pause() == paused
        &&& next.monochrome_forced() == monochrome
        &&& next.help_shown() == help
        &&& next.quitting() == quit
    }

    /// Applies an input. Resizes and handled key presses ask for a full
    /// redraw: `q`, Esc and Control-C quit; Space and Right move to the next
    /// scene; `r` regenerates the scene; `p` toggles the pause and restarts
    /// the scene clock; `m` toggles forced monochrome; `?` toggles the help.
    /// Other keys, releases and repeats are ignored and change nothing.
    pub fn handle_input(&mut self, input: Input) -> (response: Response)
        requires
            old(self).wf(),
        ensures
            final(self).wf(),
            match input {
                Input::Resize => response == (Response {
                    redraw: true,
                    new_scene: false,
                    restart_clock: false,
                }) && *final(self) == *old(self),
                Input::Key { key, control, press } => if !press {
                    response == (Response { redraw: false, new_scene: false, restart_clock: false })
                        && *final(self) == *old(self)
                } else if key == Key::Char('q') || key == Key::Esc || (key == Key::Char('c')
                    && control) {
                    &&& response == (Response {
                        redraw: true,
                        new_scene: false,
                        restart_clock: false,
                    })
                    &&& old(self).switched_to(
                        *final(self),
                        old(self).on_pause(),
                        old(self).monochrome_forced(),
                        old(self).help_shown(),
                        true,
                    )
                } else if key == Key::Char(' ') || key == Key::Right {
                    &&& response == (Response { redraw: true, new_scene: true, restart_clock: true })
                    &&& old(self).rotates_to(*final(self))
                    &&& exists|seed: u64, draw: bool|
                        old(self).starts_scene(*final(self), final(self).kind(), seed, draw)
                } else if key == Key::Char('r') {
                    &&& response == (Response { redraw: true, new_scene: true, restart_clock: true })
                    &&& final(self).upcoming() == old(self).upcoming()
                    &&& exists|seed: u64, draw: bool|
                        old(self).starts_scene(*final(self), old(self).kind(), seed, draw)
                } else if key == Key::Char('p') {
                    &&& response == (Response { redraw: true, new_scene: false, restart_clock: true })
                    &&& old(self).switched_to(
                        *final(self),
                        !old(self).on_pause(),
                        old(self).monochrome_forced(),
                        old(self).help_shown(),
                        old(self).quitting(),
                    )
                } else if key == Key::Char('m') {
                    &&& response == (Response {
                        redraw: true,
                        new_scene: false,
                        restart_clock: false,
                    })
                    &&& old(self).switched_to(
                        *final(self),
                        old(self).on_pause(),
                        !old(self).monochrome_forced(),
                        old(self).help_shown(),
                        old(self).quitting(),
                    )
                } else if key == Key::Char('?') {
                    &&& response == (Response {
                        redraw: true,
                        new_scene: false,
                        restart_clock: false,
                    })
                    &&& old(self).switched_to(
                        *final(self),
                        old(self).on_pause(),
                        old(self).monochrome_forced(),
                        !old(self).help_shown(),
                        old(self).quitting(),
                    )
                } else {
                    response == (Response { redraw: false, new_scene: false, restart_clock: false })
                        && *final(self) == *old(self)
                },
                Input::Other => response == (Response {
                    redraw: false,
                    new_scene: false,
                    restart_clock: false,
                }) && *final(self) == *old(self),
            },
    {
        let ignored = Response { redraw: false, new_scene: false, restart_clock: false };
        match input {
            Input::Resize => Response { redraw: true, new_scene: false, restart_clock: false },
            Input::Key { key, control, press } => {
                if !press {
                    return ignored;
                }
                match key {
                    Key::Char('q') | Key::Esc => {
                        self.should_quit = true;
                        Response { redraw: true, new_scene: false, restart_clock: false }
                    },
                    Key::Char('c') if control => {
                        self.should_quit = true;
                        Response { redraw: true, new_scene: false, restart_clock: false }
                    },
                    Key::Char(' ') | Key::Right => {
                        self.next_scene();
                        Response { redraw: true, new_scene: true, restart_clock: true }
                    },
                    Key::Char('r') => {
                        self.regenerate();
                        Response { redraw: true, new_scene: true, restart_clock: true }
                    },
                    Key::Char('p') => {
                        self.paused = !self.paused;
                        Response { redraw: true, new_scene: false, restart_clock: true }
                    },
                    Key::Char('m') => {
                        self.force_monochrome = !self.force_monochrome;
                        Response { redraw: true, new_scene: false, restart_clock: false }
                    },
                    Key::Char('?') => {
                        self.show_help = !self.show_help;
                        Response { redraw: true, new_scene: false, restart_clock: false }
                    },
                    _ => ignored,
                }
            },
            Input::Other => ignored,
        }
    }

    /// Whether the current frame is drawn in colour: the scene was chosen
    /// to be coloured and monochrome is not forced.
    pub fn is_colored(&self) -> (colored: bool)
        ensures
            colored == (self.scene_in_color() && !self.monochrome_forced()),
    {
        self.scene_colored && !self.force_monochrome
    }

    pub fn current_kind(&self) -> (kind: EffectKind)
        ensures
            kind == self.kind(),
    {
        self.current_kind
    }

    pub fn scene_seed(&self) -> (seed: u64)
        ensures
            seed == self.seed(),
    {
        self.scene_seed
    }

    pub fn scene_elapsed_nanos(&self) -> (nanos: u64)
        ensures
            nanos == self.elapsed(),
    {
        self.scene_elapsed_nanos
    }

    pub fn config(&self) -> (config: Config)
        ensures
            config == self.settings(),
    {
        self.config
    }

    pub fn is_paused(&self) -> (paused: bool)
        ensures
            paused == self.on_pause(),
    {
        self.paused
    }

    pub fn show_help(&self) -> (shown: bool)
        ensures
            shown == self.help_shown(),
    {
        self.show_help
    }

    pub fn should_quit(&self) -> (quit: bool)
        ensures
            quit == self.quitting(),
    {
        self.should_quit
    }
}

/// The lines of the help box, from the top.
pub open spec fn help_line(row: int) -> Seq<char> {
    if row == 0 {
        "TERM SCREENSAVER"@
    } else if row == 1 {
        ""@
    } else if row == 2 {
        "Space / Right  next scene"@
    } else if row == 3 {
        "r              regenerate"@
    } else if row == 4 {
        "p              pause"@
    } else if row == 5 {
        "m              toggle monochrome"@
    } else if row == 6 {
        "?              close help"@
    } else {
        "q / Esc        quit"@
    }
}

pub const HELP_LINE_COUNT: usize = 8;

/// The length of the longest of the first `count` help lines.
pub open spec fn longest_help_line(count: int) -> nat
    decreases count,
{
    if count <= 0 {
        0
    } else if help_line(count - 1).len() > longest_help_line(count - 1) {
        help_line(count - 1).len()
    } else {
        longest_help_line(count - 1)
    }
}

/// The help box: four columns wider than its longest line and two rows
/// taller than its lines.
pub open spec fn help_box_width() -> int {
    (longest_help_line(HELP_LINE_COUNT as int) + 4) as int
}

pub open spec fn help_box_height() -> int {
    HELP_LINE_COUNT + 2
}

/// The column where help line `row` starts when the box's left edge is at
/// `left`: the line is centred in the box.
pub open spec fn help_line_start(left: int, row: int) -> int {
    left + (help_box_width() - help_line(row).len()) / 2
}

/// The cell at (`x`, `y`) after the help box with top-left corner (`left`,
/// `top`) is drawn over `under`: a character of a help line, a blank of the
/// box, or the cell that was there.
pub open spec fn help_cell(under: Cell, x: int, y: int, left: int, top: int, style: Style) -> Cell {
    let row = y - top - 1;
    if 0 <= row < HELP_LINE_COUNT && help_line_start(left, row) <= x < help_line_start(left, row)
        + help_line(row).len() {
        Cell { glyph: help_line(row)[x - help_line_start(left, row)], style }
    } else if left <= x < left + help_box_width() && top <= y < top + help_box_height() {
        Cell { glyph: ' ', style: plain_style() }
    } else {
        under
    }
}

/// The help box colour on coloured frames.
pub open spec fn help_style(colored: bool) -> Style {
    Style {
        foreground: if colored {
            Some(Rgb { r: 120, g: 235, b: 196 })
        } else {
            None
        },
        bold: false,
        dim: false,
    }
}

proof fn lemma_help_lines_fit()
    ensures
        longest_help_line(HELP_LINE_COUNT as int) == 32,
        forall|row: int| 0 <= row < HELP_LINE_COUNT ==> #[trigger] help_line(row).len() <= 32,
{
    reveal_strlit("TERM SCREENSAVER");
    reveal_strlit("");
    reveal_strlit("Space / Right  next scene");
    reveal_strlit("r              regenerate");
    reveal_strlit("p              pause");
    reveal_strlit("m              toggle monochrome");
    reveal_strlit("?              close help");
    reveal_strlit("q / Esc        quit");
    assert(longest_help_line(0) == 0);
    assert(help_line(0).len() == 16);
    assert(longest_help_line(1) == 16);
    assert(longest_help_line(2) == 16);
    assert(longest_help_line(3) == 25);
    assert(longest_help_line(4) == 25);
    assert(longest_help_line(5) == 25);
    assert(longest_help_line(6) == 32);
    assert(longest_help_line(7) == 32);
    assert(longest_help_line(8) == 32);
}

fn help_line_text(row: usize) -> (line: &'static str)
    requires
        row < HELP_LINE_COUNT,
    ensures
        line@ == help_line(row as int),
{
    match row {
        0 => "TERM SCREENSAVER",
        1 => "",
        2 => "Space / Right  next scene",
        3 => "r              regenerate",
        4 => "p              pause",
        5 => "m              toggle monochrome",
        6 => "?              close help",
        _ => "q / Esc        quit",
    }
}

/// Draws the help box in the middle of the canvas (at the top-left corner
/// when the canvas is smaller than the box): the box is blanked, then each
/// line is written centred in its row, below a blank top row.
pub fn draw_help(canvas: &mut Canvas, colored: bool)
    requires
        old(canvas).wf(),
    ensures
        final(canvas).wf(),
        final(canvas).w() == old(canvas).w(),
        final(canvas).h() == old(canvas).h(),
        final(canvas).depths() == old(canvas).depths(),
        forall|x: int, y: int|
            old(canvas).in_bounds(x, y) ==> #[trigger] final(canvas).at(x, y) == help_cell(
                old(canvas).at(x, y),
                x,
                y,
                (if old(canvas).w() >= help_box_width() {
                    old(canvas).w() - help_box_width()
                } else {
                    0
                }) / 2,
                (if old(canvas).h() >= help_box_height() {
                    old(canvas).h() - help_box_height()
                } else {
                    0
                }) / 2,
                help_style(colored),
            ),
{
    proof {
        lemma_help_lines_fit();
    }
    let mut longest: usize = 0;
    let mut row: usize = 0;
    while row < HELP_LINE_COUNT
        invariant
            row <= HELP_LINE_COUNT,
            longest == longest_help_line(row as int),
            longest <= 32,
            forall|r: int| 0 <= r < HELP_LINE_COUNT ==> #[trigger] help_line(r).len() <= 32,
        decreases HELP_LINE_COUNT - row,
    {
        let n = help_line_text(row).unicode_len();
        if n > longest {
            longest = n;
        }
        row = row + 1;
    }
    let width: u16 = longest as u16 + 4;
    let height: u16 = HELP_LINE_COUNT as u16 + 2;
    let left: i32 = (canvas.width().saturating_sub(width) / 2) as i32;
    let top: i32 = (canvas.height().saturating_sub(height) / 2) as i32;
    let style = Style {
        foreground: if colored {
            Some(Rgb::new(120, 235, 196))
        } else {
            None
        },
        bold: false,
        dim: false,
    };
    let ghost start = *canvas;
    canvas.fill_rect(left, top, width, height, Style::default());
    let ghost boxed = *canvas;
    let mut row: usize = 0;
    while row < HELP_LINE_COUNT
        invariant
            row <= HELP_LINE_COUNT,
            width == help_box_width(),
            help_box_width() == 36,
            height == help_box_height(),
            style == help_style(colored),
            0 <= left <= 0x7fff,
            0 <= top <= 0x7fff,
            start.wf(),
            boxed.wf(),
            canvas.wf(),
            canvas.w() == start.w(),
            canvas.h() == start.h(),
            boxed.w() == start.w(),
            boxed.h() == start.h(),
            canvas.depths() == start.depths(),
            forall|r: int| 0 <= r < HELP_LINE_COUNT ==> #[trigger] help_line(r).len() <= 32,
            forall|x: int, y: int|
                start.in_bounds(x, y) ==> #[trigger] boxed.at(x, y) == if left <= x < left + width
                    && top <= y < top + height {
                    Cell { glyph: ' ', style: plain_style() }
                } else {
                    start.at(x, y)
                },
            forall|x: int, y: int|
                start.in_bounds(x, y) ==> #[trigger] canvas.at(x, y) == if y - top - 1 < row {
                    help_cell(start.at(x, y), x, y, left as int, top as int, style)
                } else {
                    boxed.at(x, y)
                },
        decreases HELP_LINE_COUNT - row,
    {
        let line = help_line_text(row);
        let len = line.unicode_len();
        assert(len == help_line(row as int).len() && len <= 32);
        let spare: u16 = width - len as u16;
        assert(spare == help_box_width() - help_line(row as int).len());
        let x: i32 = left + (spare / 2) as i32;
        let y: i32 = top + row as i32 + 1;
        let ghost before = *canvas;
        canvas.text(x, y, line, style);
        proof {
            assert(x == help_line_start(left as int, row as int));
            assert forall|cx: int, cy: int| start.in_bounds(cx, cy) implies #[trigger] canvas.at(
                cx,
                cy,
            ) == if cy - top - 1 < row + 1 {
                help_cell(start.at(cx, cy), cx, cy, left as int, top as int, style)
            } else {
                boxed.at(cx, cy)
            } by {
                assert(before.in_bounds(cx, cy));
            }
        }
        row = row + 1;
    }
    proof {
        assert forall|cx: int, cy: int| start.in_bounds(cx, cy) implies #[trigger] canvas.at(cx, cy)
            == help_cell(start.at(cx, cy), cx, cy, left as int, top as int, style) by {
            assert(canvas.at(cx, cy) == if cy - top - 1 < HELP_LINE_COUNT {
                help_cell(start.at(cx, cy), cx, cy, left as int, top as int, style)
            } else {
                boxed.at(cx, cy)
            });
        }
    }
}

/// `k` periods after `start`.
pub open spec fn periods_after(start: int, period: int, k: int) -> int {
    start + k * period
}

/// When the frame after one due at `due` is due, the current frame being
/// drawn at `now`: whole periods after `due`, the first that is still in
/// the future, so that missed frames are skipped rather than drawn late.
pub fn next_frame_due(due: u64, now: u64, period: u64) -> (next: u64)
    requires
        period > 0,
        due as int + period <= u64::MAX,
        now as int + period <= u64::MAX,
    ensures
        next > now,
        exists|k: int| k >= 1 && next == #[trigger] periods_after(due as int, period as int, k),
        next - period <= now || next - period == due,
{
    let mut next = due + period;
    let ghost mut k: int = 1;
    while next <= now
        invariant
            period > 0,
            now as int + period <= u64::MAX,
            k >= 1,
            next == due + k * period,
            next - period <= now || next - period == due,
        decreases now as int + period - next,
    {
        next = next + period;
        proof {
            assert(due + (k + 1) * period == due + k * period + period) by (nonlinear_arith);
            k = k + 1;
        }
    }
    assert(next == periods_after(due as int, period as int, k));
    next
}

} // verus!
