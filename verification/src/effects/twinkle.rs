//! The twinkle: every period of the text may light up for a while, grow into a
//! larger glyph and fade again, each on a random schedule of its own.

use std::collections::HashMap;
use vstd::prelude::*;
use crate::color::{blend_colors, blended};
use crate::cycle::{frames_per_cycle, ConfigError, CycleClock};
use crate::easing::lemma_eased_in_unit;
use crate::fixed::{clamp_unit, lemma_share_bounds, share, share_of, SCALE};
use crate::frame::{chars_of, Cell};
use crate::random::random_between;

pub use crate::easing::{EasingFunction, MAX_STEPS};

verus! {

broadcast use vstd::std_specs::hash::group_hash_axioms;

/// What a twinkle animation is made of. Ratios and percentages are in millionths.
#[derive(Debug, Clone, Copy)]
pub struct TwinkleConfig {
    pub base_color: (u8, u8, u8),
    pub twinkle_color: (u8, u8, u8),
    pub speed: u64,
    pub easing: EasingFunction,
    pub duration: u64,
    pub cycles: u32,
    pub twinkle_ratio: Option<u64>,
    pub min_twinkle_count: Option<usize>,
    pub max_twinkle_count: Option<usize>,
    pub twinkling_percentage: u64,
    pub star_mode: bool,
}

impl Default for TwinkleConfig {
    fn default() -> (config: Self)
        ensures
            config.base_color == (255u8, 255u8, 255u8),
            config.twinkle_color == (255u8, 255u8, 0u8),
            config.speed == 100,
            config.easing == EasingFunction::Linear,
            config.duration == 3000,
            config.cycles == 1,
            config.twinkle_ratio == Some(300_000u64),
            config.min_twinkle_count.is_none(),
            config.max_twinkle_count.is_none(),
            config.twinkling_percentage == 800_000,
            !config.star_mode,
    {
        TwinkleConfig {
            base_color: (255, 255, 255),
            twinkle_color: (255, 255, 0),
            speed: 100,
            easing: EasingFunction::Linear,
            duration: 3000,
            cycles: 1,
            twinkle_ratio: Some(300_000),
            min_twinkle_count: None,
            max_twinkle_count: None,
            twinkling_percentage: 800_000,
            star_mode: false,
        }
    }
}

/// One running twinkle: how far through its life it is, how many frames that life
/// lasts, and which share of it is spent at full brightness. All in millionths.
#[derive(Debug, Clone, Copy, PartialEq, Eq, Structural)]
pub struct TwinkleState {
    pub phase: u64,
    pub duration: u64,
    pub pause_duration: u64,
}

/// The brightness of a twinkle at `phase` of its life, for a hold of `pause` in the
/// middle: eased up over the first `(1 − pause) / 2`, full during the hold, eased
/// down, along the same curve run backwards, over the last `(1 − pause) / 2`.
pub open spec fn three_phase(phase: int, pause: int, easing: EasingFunction) -> int {
    let p = clamp_unit(phase);
    let s = SCALE as int;
    if 2 * p <= s - pause {
        easing.eased(share(2 * p, s, s - pause))
    } else if 2 * p <= s + pause {
        s
    } else {
        easing.eased(share(2 * s - 2 * p, s, s - pause))
    }
}

/// A twinkle is dark when it starts and, where it holds for less than its whole
/// life, dark again when it ends; during the hold it is at full brightness.
pub proof fn lemma_three_phase_shape(phase: int, pause: int, easing: EasingFunction)
    requires
        0 <= pause < SCALE,
    ensures
        0 <= three_phase(phase, pause, easing) <= SCALE,
        three_phase(0, pause, easing) == 0,
        three_phase(SCALE as int, pause, easing) == 0,
        SCALE - pause < 2 * phase <= SCALE + pause ==> three_phase(phase, pause, easing) == SCALE,
{
    let s = SCALE as int;
    let p = clamp_unit(phase);
    crate::easing::lemma_eased_endpoints(easing);
    lemma_share_bounds(0, s, s - pause);
    if 2 * p <= s - pause {
        lemma_share_bounds(2 * p, s, s - pause);
        lemma_eased_in_unit(easing, share(2 * p, s, s - pause));
    } else if 2 * p > s + pause {
        lemma_share_bounds(2 * s - 2 * p, s, s - pause);
        lemma_eased_in_unit(easing, share(2 * s - 2 * p, s, s - pause));
    }
}

/// A twinkle falls as it rose: it is as bright at `phase` as at `1 − phase`.
pub proof fn lemma_three_phase_mirrored(phase: int, pause: int, easing: EasingFunction)
    requires
        0 <= phase <= SCALE,
        0 <= pause < SCALE,
    ensures
        three_phase(phase, pause, easing) == three_phase(SCALE - phase, pause, easing),
{
    let s = SCALE as int;
    crate::easing::lemma_eased_endpoints(easing);
    lemma_share_bounds(s - pause, s, s - pause);
}

/// The brightness of a twinkle at `phase`, in millionths. The phase is limited to
/// one whole first.
pub fn calculate_three_phase_progress(
    phase: u64,
    pause_duration_ratio: u64,
    easing: &EasingFunction,
) -> (r: u64)
    requires
        pause_duration_ratio < SCALE,
    ensures
        r as int == three_phase(phase as int, pause_duration_ratio as int, *easing),
        r <= SCALE,
{
    let p: u64 = if phase > SCALE {
        SCALE
    } else {
        phase
    };
    let span: u64 = SCALE - pause_duration_ratio;
    if 2 * p <= span {
        easing.apply(share_of(2 * p, SCALE, span))
    } else if 2 * p <= SCALE + pause_duration_ratio {
        SCALE
    } else {
        easing.apply(share_of(2 * SCALE - 2 * p, SCALE, span))
    }
}

/// The glyphs a twinkle grows through, smallest first: seven round ones, or nine
/// stars.
pub open spec fn twinkle_glyphs(star_mode: bool) -> Seq<char> {
    if star_mode {
        seq![
            '.',
            '\u{2726}',
            '\u{2727}',
            '\u{22C6}',
            '\u{2729}',
            '\u{272A}',
            '\u{272B}',
            '\u{2B50}',
            '*',
        ]
    } else {
        seq!['.', '\u{00B7}', '\u{2022}', '\u{22C5}', '\u{2218}', '\u{25CB}', '\u{25CF}']
    }
}

/// The place in the row of glyphs that brightness `progress` maps to:
/// `progress · (count − 1)`, rounded to the nearest, halves up.
pub open spec fn glyph_index(progress: int, count: int) -> int {
    (2 * clamp_unit(progress) * (count - 1) + SCALE) / (2 * SCALE)
}

/// The glyph of a twinkle at brightness `progress`.
pub open spec fn twinkle_glyph(progress: int, star_mode: bool) -> char {
    let glyphs = twinkle_glyphs(star_mode);
    glyphs[glyph_index(progress, glyphs.len() as int)]
}

/// A dark twinkle shows the first glyph of its row, which is the period itself; a
/// twinkle at full brightness shows the last.
pub proof fn lemma_glyph_ends(star_mode: bool)
    ensures
        twinkle_glyph(0, star_mode) == '.',
        twinkle_glyph(SCALE as int, star_mode) == twinkle_glyphs(star_mode).last(),
{
    let glyphs = twinkle_glyphs(star_mode);
    if star_mode {
        assert(glyphs.len() == 9);
        assert(clamp_unit(SCALE as int) == 1_000_000);
        assert(glyph_index(SCALE as int, 9) == (2 * 1_000_000 * 8 + 1_000_000) / 2_000_000);
        assert(glyphs.last() == glyphs[8]);
    } else {
        assert(glyphs.len() == 7);
        assert(clamp_unit(SCALE as int) == 1_000_000);
        assert(glyph_index(SCALE as int, 7) == (2 * 1_000_000 * 6 + 1_000_000) / 2_000_000);
        assert(glyphs.last() == glyphs[6]);
    }
}

/// The glyph of a twinkle at brightness `progress`, in millionths and limited to
/// one whole first.
pub fn get_twinkle_char(progress: u64, star_mode: bool) -> (c: char)
    ensures
        c == twinkle_glyph(progress as int, star_mode),
{
    let p: u64 = if progress > SCALE {
        SCALE
    } else {
        progress
    };
    if star_mode {
        assert(twinkle_glyphs(true).len() == 9);
        let index: u64 = (2 * p * 8 + SCALE) / (2 * SCALE);
        match index {
            0 => '.',
            1 => '\u{2726}',
            2 => '\u{2727}',
            3 => '\u{22C6}',
            4 => '\u{2729}',
            5 => '\u{272A}',
            6 => '\u{272B}',
            7 => '\u{2B50}',
            _ => '*',
        }
    } else {
        assert(twinkle_glyphs(false).len() == 7);
        let index: u64 = (2 * p * 6 + SCALE) / (2 * SCALE);
        match index {
            0 => '.',
            1 => '\u{00B7}',
            2 => '\u{2022}',
            3 => '\u{22C5}',
            4 => '\u{2218}',
            5 => '\u{25CB}',
            _ => '\u{25CF}',
        }
    }
}

/// The shortest life of a new twinkle, in millionths of a frame.
pub const MIN_LIFETIME: u64 = 20_000_000;

/// The life of a new twinkle stays below this, in millionths of a frame.
pub const MAX_LIFETIME: u64 = 60_000_000;

/// The shortest hold of a new twinkle, in millionths of its life.
pub const MIN_PAUSE: u64 = 100_000;

/// The hold of a new twinkle stays below this, in millionths of its life.
pub const MAX_PAUSE: u64 = 200_000;

/// `i` is the place of a period in `chars`: only periods twinkle.
pub open spec fn is_period(chars: Seq<char>, i: int) -> bool {
    0 <= i < chars.len() && chars[i] == '.'
}

/// `anchors` holds the places of all periods of `chars`, and nothing else, in text
/// order.
pub open spec fn lists_periods(anchors: Seq<usize>, chars: Seq<char>) -> bool {
    &&& forall|k: int| 0 <= k < anchors.len() ==> is_period(chars, #[trigger] anchors[k] as int)
    &&& forall|j: int, k: int| 0 <= j < k < anchors.len() ==> anchors[j] < anchors[k]
    &&& forall|i: int| #[trigger] is_period(chars, i) ==> anchors.contains(i as usize)
}

/// The places of the periods of a text.
pub open spec fn periods_of(chars: Seq<char>) -> Set<usize> {
    Set::new(|i: usize| is_period(chars, i as int))
}

/// A list of the periods of a text is as long as the text has periods.
pub proof fn lemma_anchor_count(anchors: Seq<usize>, chars: Seq<char>)
    requires
        lists_periods(anchors, chars),
    ensures
        anchors.len() == periods_of(chars).len(),
        anchors.to_set() == periods_of(chars),
{
    assert(anchors.to_set() =~= periods_of(chars)) by {
        assert forall|i: usize| periods_of(chars).contains(i) implies anchors.to_set().contains(i) by {
            assert(is_period(chars, i as int));
            assert(anchors.contains(i));
        }
        assert forall|i: usize| anchors.to_set().contains(i) implies periods_of(chars).contains(i) by {
            let k = choose|k: int| 0 <= k < anchors.len() && anchors[k] == i;
            assert(is_period(chars, anchors[k] as int));
        }
    }
    anchors.unique_seq_to_set();
}

/// Finds the periods of a text.
pub fn period_positions(chars: &Vec<char>) -> (anchors: Vec<usize>)
    ensures
        lists_periods(anchors@, chars@),
{
    let mut anchors: Vec<usize> = Vec::new();
    let mut i: usize = 0;
    while i < chars.len()
        invariant
            i <= chars.len(),
            forall|k: int|
                0 <= k < anchors.len() ==> is_period(chars@, #[trigger] anchors[k] as int)
                    && anchors[k] < i,
            forall|j: int, k: int| 0 <= j < k < anchors.len() ==> anchors[j] < anchors[k],
            forall|p: int| #[trigger] is_period(chars@, p) && p < i ==> anchors@.contains(p as usize),
        decreases chars.len() - i,
    {
        let ghost found = anchors@;
        if chars[i] == '.' {
            anchors.push(i);
        }
        proof {
            assert forall|p: int| #[trigger] is_period(chars@, p) && p < i + 1 implies anchors@.contains(
                p as usize,
            ) by {
                if p < i {
                    let j = choose|j: int| 0 <= j < found.len() && found[j] == p as usize;
                    assert(anchors@[j] == p as usize);
                } else {
                    assert(anchors@[anchors@.len() - 1] == p as usize);
                }
            }
        }
        i += 1;
    }
    anchors
}

/// `count · ratio`, for a ratio in millionths, rounded to the nearest, halves up.
pub open spec fn rounded_share(count: int, ratio: int) -> int {
    (count * ratio + SCALE / 2) / (SCALE as int)
}

/// The bounds between which the number of twinkles is drawn, where both a minimum
/// and a maximum are set: from the minimum to the maximum, each limited to the
/// number of periods.
pub open spec fn count_range(config: TwinkleConfig, periods: int) -> Option<(int, int)> {
    match (config.min_twinkle_count, config.max_twinkle_count) {
        (Some(low), Some(high)) => Some(
            (
                if low <= periods {
                    low as int
                } else {
                    periods
                },
                if high <= periods {
                    high as int
                } else {
                    periods
                },
            ),
        ),
        _ => None,
    }
}

/// There are periods, and the minimum set for the number of twinkles is above the
/// maximum.
pub open spec fn range_is_empty(config: TwinkleConfig, periods: int) -> bool {
    periods > 0 && match (config.min_twinkle_count, config.max_twinkle_count) {
        (Some(low), Some(high)) => low > high,
        _ => false,
    }
}

/// The number of twinkles to keep running where no range is set. In this order: the
/// ratio of the periods, rounded, limited to what a `usize` holds and at least 1;
/// the minimum, or the maximum, limited to the number of periods; three tenths of
/// the periods, rounded.
pub open spec fn fixed_target(config: TwinkleConfig, periods: int) -> int {
    if let Some(ratio) = config.twinkle_ratio {
        let share = rounded_share(periods, ratio as int);
        if share < 1 {
            1
        } else if share > usize::MAX {
            usize::MAX as int
        } else {
            share
        }
    } else if let Some(low) = config.min_twinkle_count {
        if low <= periods {
            low as int
        } else {
            periods
        }
    } else if let Some(high) = config.max_twinkle_count {
        if high <= periods {
            high as int
        } else {
            periods
        }
    } else {
        rounded_share(periods, 300_000)
    }
}

/// `target` is a number of twinkles that an update may aim at: any number of the
/// range where one is set, else the fixed number.
pub open spec fn is_target(config: TwinkleConfig, periods: int, target: int) -> bool {
    match count_range(config, periods) {
        Some((low, high)) => low <= target <= high,
        None => target == fixed_target(config, periods),
    }
}

/// `count · ratio` rounded, limited to what a `usize` holds.
fn rounded_count(count: usize, ratio: u64) -> (r: usize)
    ensures
        r as int == if rounded_share(count as int, ratio as int) > usize::MAX {
            usize::MAX as int
        } else {
            rounded_share(count as int, ratio as int)
        },
{
    proof {
        assert(count * ratio <= 0xFFFF_FFFF_FFFF_FFFF * 0xFFFF_FFFF_FFFF_FFFF) by (nonlinear_arith)
            requires
                0 <= count <= 0xFFFF_FFFF_FFFF_FFFF,
                0 <= ratio <= 0xFFFF_FFFF_FFFF_FFFF,
        ;
        assert(0xFFFF_FFFF_FFFF_FFFFint * 0xFFFF_FFFF_FFFF_FFFFint + 500_000 <= u128::MAX);
    }
    let product: u128 = count as u128 * ratio as u128;
    let rounded: u128 = (product + (SCALE / 2) as u128) / SCALE as u128;
    if rounded > usize::MAX as u128 {
        usize::MAX
    } else {
        rounded as usize
    }
}

/// The number of twinkles to keep running over `periods` periods, where the
/// configuration sets no range.
pub fn fixed_target_count(config: &TwinkleConfig, periods: usize) -> (target: usize)
    ensures
        target as int == fixed_target(*config, periods as int),
{
    if let Some(ratio) = config.twinkle_ratio {
        let share = rounded_count(periods, ratio);
        if share < 1 {
            1
        } else {
            share
        }
    } else if let Some(low) = config.min_twinkle_count {
        if low <= periods {
            low
        } else {
            periods
        }
    } else if let Some(high) = config.max_twinkle_count {
        if high <= periods {
            high
        } else {
            periods
        }
    } else {
        rounded_count(periods, 300_000)
    }
}

/// A twinkle one update older: its phase has grown by one frame's share of its
/// life.
pub open spec fn aged(state: TwinkleState) -> TwinkleState {
    TwinkleState {
        phase: (state.phase + SCALE * SCALE / state.duration as int) as u64,
        duration: state.duration,
        pause_duration: state.pause_duration,
    }
}

/// The twinkles that are left one update later: each one aged, and those dropped
/// whose phase has passed one whole.
pub open spec fn aged_states(states: Map<usize, TwinkleState>) -> Map<usize, TwinkleState> {
    Map::new(
        |anchor: usize| states.contains_key(anchor) && aged(states[anchor]).phase <= SCALE,
        |anchor: usize| aged(states[anchor]),
    )
}

/// A twinkle that can be aged and drawn: it has not outlived its life, its life is
/// not empty, and its hold is shorter than its life.
pub open spec fn state_ok(state: TwinkleState) -> bool {
    state.phase <= SCALE && state.duration >= 1 && state.pause_duration < SCALE
}

/// A twinkle as an update starts it: at the beginning of a life of 20 to 60 frames,
/// a tenth to a fifth of which it holds.
pub open spec fn is_fresh(state: TwinkleState) -> bool {
    &&& state.phase == 0
    &&& MIN_LIFETIME <= state.duration < MAX_LIFETIME
    &&& MIN_PAUSE <= state.pause_duration < MAX_PAUSE
}

/// The test for an anchor that no twinkle of `claimed` runs on.
pub open spec fn is_free(claimed: Set<usize>) -> spec_fn(usize) -> bool {
    |anchor: usize| !claimed.contains(anchor)
}

/// The anchors that no twinkle runs on, in text order.
pub open spec fn unclaimed(anchors: Seq<usize>, claimed: Set<usize>) -> Seq<usize> {
    anchors.filter(is_free(claimed))
}

/// `after` is `before` topped up towards `target` twinkles over `periods` periods:
/// what ran before runs on unchanged, what is new is fresh, and the count has
/// reached the target, or the number of periods where the target is beyond it; a
/// count already at the target or above is left alone.
pub open spec fn topped_up(
    before: Map<usize, TwinkleState>,
    after: Map<usize, TwinkleState>,
    target: int,
    periods: int,
) -> bool {
    &&& before.submap_of(after)
    &&& forall|anchor: usize|
        after.contains_key(anchor) && !before.contains_key(anchor) ==> is_fresh(
            #[trigger] after[anchor],
        )
    &&& after.len() == if before.len() >= target {
        before.len() as int
    } else if target <= periods {
        target
    } else {
        periods
    }
}

/// A line of text and the twinkles that run on its periods.
pub struct TwinkleEngine {
    pub chars: Vec<char>,
    pub anchors: Vec<usize>,
    pub config: TwinkleConfig,
    pub clock: CycleClock,
    pub states: HashMap<usize, TwinkleState>,
}

impl TwinkleEngine {
    /// The engine's invariant. `anchors` lists the periods of the text. Every
    /// twinkle runs on a period, and as `states` is a map, no two run on the same
    /// one. Where the text has periods, the clock is that of the configuration, and
    /// a minimum set for the number of twinkles is not above the maximum.
    pub open spec fn wf(&self) -> bool {
        &&& self.clock.wf()
        &&& self.config.speed != 0
        &&& lists_periods(self.anchors@, self.chars@)
        &&& forall|anchor: usize| #[trigger]
            self.states@.contains_key(anchor) ==> is_period(self.chars@, anchor as int) && state_ok(
                self.states@[anchor],
            )
        &&& self.anchors@.len() > 0 ==> {
            &&& self.clock.total_frames as int == frames_per_cycle(
                self.config.duration as int,
                self.config.speed as int,
            )
            &&& self.clock.cycles == self.config.cycles
            &&& self.clock.easing == self.config.easing
            &&& !range_is_empty(self.config, self.anchors@.len() as int)
        }
    }

    /// `self` animates the same text under the same configuration as `other`.
    pub open spec fn same_setup(&self, other: &TwinkleEngine) -> bool {
        &&& self.chars == other.chars
        &&& self.anchors == other.anchors
        &&& self.config == other.config
        &&& self.clock == other.clock
    }

    /// What is drawn at place `i` of the text: on a running twinkle the glyph and
    /// the blend of its brightness, elsewhere the text's own character in the base
    /// colour.
    pub open spec fn cell_at(&self, i: int) -> Cell {
        if self.states@.contains_key(i as usize) {
            let state = self.states@[i as usize];
            let progress = three_phase(
                state.phase as int,
                state.pause_duration as int,
                self.config.easing,
            );
            Cell {
                glyph: twinkle_glyph(progress, self.config.star_mode),
                color: blended(self.config.base_color, self.config.twinkle_color, progress),
            }
        } else {
            Cell { glyph: self.chars@[i], color: self.config.base_color }
        }
    }

    /// Sets up the twinkles of one line of text, none of them running yet.
    ///
    /// A zero `speed` is refused. A text without periods is not animated, and
    /// nothing else of the configuration is held against it: its clock is that of a
    /// single still frame. Where there are periods, a cycle of more than
    /// `MAX_STEPS` frames is refused, and so is a minimum number of twinkles above
    /// the maximum. A minimum or a maximum above the number of periods counts as
    /// that number.
    pub fn new(text: &str, config: TwinkleConfig) -> (r: Result<TwinkleEngine, ConfigError>)
        ensures
            r is Err <==> config.speed == 0 || (periods_of(text@).len() > 0 && (config.duration
                / config.speed > MAX_STEPS || range_is_empty(
                config,
                periods_of(text@).len() as int,
            ))),
            r matches Err(e) ==> e == if config.speed == 0 {
                ConfigError::ZeroSpeed
            } else if config.duration / config.speed > MAX_STEPS {
                ConfigError::TooLarge
            } else {
                ConfigError::EmptyCountRange
            },
            r matches Ok(engine) ==> {
                &&& engine.wf()
                &&& engine.chars@ == text@
                &&& engine.config == config
                &&& engine.states@ == Map::<usize, TwinkleState>::empty()
                &&& periods_of(text@).len() == 0 ==> engine.clock == CycleClock::still_clock(
                    config.easing,
                )
            },
    {
        if config.speed == 0 {
            return Err(ConfigError::ZeroSpeed);
        }
        let chars = chars_of(text);
        let anchors = period_positions(&chars);
        proof {
            lemma_anchor_count(anchors@, chars@);
        }
        if anchors.len() == 0 {
            let clock = CycleClock::still(config.easing);
            return Ok(TwinkleEngine { chars, anchors, config, clock, states: HashMap::new() });
        }
        let clock = match CycleClock::new(config.speed, config.duration, config.cycles, config.easing) {
            Ok(clock) => clock,
            Err(e) => {
                return Err(e);
            },
        };
        if let (Some(low), Some(high)) = (config.min_twinkle_count, config.max_twinkle_count) {
            if low > high {
                return Err(ConfigError::EmptyCountRange);
            }
        }
        Ok(TwinkleEngine { chars, anchors, config, clock, states: HashMap::new() })
    }

    /// Whether the text has any period to twinkle on. Without one there is nothing
    /// to animate: the text is drawn once, as `render` gives it.
    pub fn is_animated(&self) -> (r: bool)
        requires
            self.wf(),
        ensures
            r == (periods_of(self.chars@).len() > 0),
    {
        proof {
            lemma_anchor_count(self.anchors@, self.chars@);
        }
        self.anchors.len() > 0
    }

    /// The number of running twinkles.
    pub fn active_count(&self) -> (count: usize)
        requires
            self.wf(),
        ensures
            count == self.states@.len(),
            count <= self.anchors@.len(),
    {
        proof {
            lemma_count_at_most_periods(self.states@, self.anchors@, self.chars@);
        }
        self.states.len()
    }

    /// Ages every running twinkle by one update and drops those that are over.
    pub fn age(&mut self)
        requires
            old(self).wf(),
        ensures
            final(self).wf(),
            final(self).same_setup(old(self)),
            final(self).states@ == aged_states(old(self).states@),
    {
        let mut next: HashMap<usize, TwinkleState> = HashMap::new();
        let mut k: usize = 0;
        while k < self.anchors.len()
            invariant
                self.wf(),
                k <= self.anchors@.len(),
                forall|anchor: usize| #[trigger]
                    next@.contains_key(anchor) <==> aged_states(self.states@).contains_key(anchor) && (k
                        == self.anchors@.len() || anchor < self.anchors@[k as int]),
                forall|anchor: usize| #[trigger]
                    next@.contains_key(anchor) ==> next@[anchor] == aged(self.states@[anchor]),
            decreases self.anchors@.len() - k,
        {
            let anchor = self.anchors[k];
            match self.states.get(&anchor) {
                Some(state) => {
                    assert(self.states@.contains_key(anchor) && self.states@[anchor] == *state);
                    let step: u64 = SCALE * SCALE / state.duration;
                    assert(step <= SCALE * SCALE) by (nonlinear_arith)
                        requires
                            step == SCALE * SCALE / (state.duration as int),
                            state.duration >= 1,
                    ;
                    let phase: u64 = state.phase + step;
                    if phase <= SCALE {
                        next.insert(
                            anchor,
                            TwinkleState {
                                phase,
                                duration: state.duration,
                                pause_duration: state.pause_duration,
                            },
                        );
                    }
                },
                None => {},
            }
            proof {
                let anchors = self.anchors@;
                let aged_all = aged_states(self.states@);
                assert forall|a: usize| #[trigger]
                    next@.contains_key(a) <==> aged_all.contains_key(a) && (k + 1 == anchors.len() || a
                        < anchors[k + 1]) by {
                    if aged_all.contains_key(a) {
                        assert(self.states@.contains_key(a));
                        assert(is_period(self.chars@, a as int));
                        let j = choose|j: int| 0 <= j < anchors.len() && anchors[j] == a;
                        if j < k {
                            assert(anchors[j] < anchors[k as int]);
                        } else if j > k {
                            assert(anchors[k as int] < anchors[j]);
                            if k + 1 < anchors.len() && j > k + 1 {
                                assert(anchors[k + 1] < anchors[j]);
                            }
                        }
                    }
                }
            }
            k += 1;
        }
        proof {
            assert(next@ =~= aged_states(self.states@));
        }
        self.states = next;
    }

    /// The anchors that no twinkle runs on, in text order.
    pub fn free_anchors(&self) -> (free: Vec<usize>)
        requires
            self.wf(),
        ensures
            free@ == unclaimed(self.anchors@, self.states@.dom()),
    {
        let ghost free_test = is_free(self.states@.dom());
        let mut free: Vec<usize> = Vec::new();
        let mut k: usize = 0;
        proof {
            reveal(Seq::filter);
            assert(self.anchors@.take(0) =~= Seq::<usize>::empty());
        }
        while k < self.anchors.len()
            invariant
                k <= self.anchors@.len(),
                free_test == is_free(self.states@.dom()),
                free@ == self.anchors@.take(k as int).filter(free_test),
            decreases self.anchors@.len() - k,
        {
            let anchor = self.anchors[k];
            proof {
                assert(self.anchors@.take(k + 1) =~= self.anchors@.take(k as int).push(anchor));
                self.anchors@.take(k as int).lemma_filter_push(anchor, free_test);
            }
            if !self.states.contains_key(&anchor) {
                free.push(anchor);
            }
            k += 1;
        }
        proof {
            assert(self.anchors@.take(k as int) =~= self.anchors@);
        }
        free
    }

    /// Starts a twinkle on `anchor`, to live `duration` millionths of a frame and to
    /// hold for `pause_duration` millionths of that. Nothing is started, and `false`
    /// is returned, where `anchor` is no period, a twinkle runs on it already, the
    /// life is empty or the hold is not shorter than the life.
    pub fn start_twinkle(&mut self, anchor: usize, duration: u64, pause_duration: u64) -> (started:
        bool)
        requires
            old(self).wf(),
        ensures
            final(self).wf(),
            final(self).same_setup(old(self)),
            started == (is_period(old(self).chars@, anchor as int) && !old(self).states@.contains_key(
                anchor,
            ) && duration >= 1 && pause_duration < SCALE),
            started ==> final(self).states@ == old(self).states@.insert(
                anchor,
                TwinkleState { phase: 0, duration, pause_duration },
            ),
            !started ==> final(self).states@ == old(self).states@,
    {
        if anchor >= self.chars.len() || self.chars[anchor] != '.' || duration < 1 || pause_duration
            >= SCALE {
            return false;
        }
        if self.states.contains_key(&anchor) {
            return false;
        }
        self.states.insert(anchor, TwinkleState { phase: 0, duration, pause_duration });
        true
    }

    /// Starts twinkles on free anchors, each picked by chance with a life and a
    /// hold drawn by chance, until `target` twinkles run or no anchor is free.
    pub fn top_up(&mut self, target: usize)
        requires
            old(self).wf(),
        ensures
            final(self).wf(),
            final(self).same_setup(old(self)),
            topped_up(
                old(self).states@,
                final(self).states@,
                target as int,
                old(self).anchors@.len() as int,
            ),
    {
        let ghost before = self.states@;
        proof {
            lemma_count_at_most_periods(self.states@, self.anchors@, self.chars@);
        }
        while self.states.len() < target
            invariant
                self.wf(),
                self.same_setup(old(self)),
                before.submap_of(self.states@),
                forall|anchor: usize|
                    self.states@.contains_key(anchor) && !before.contains_key(anchor) ==> is_fresh(
                        #[trigger] self.states@[anchor],
                    ),
                self.states@.len() <= self.anchors@.len(),
                before.len() < target ==> self.states@.len() <= target,
                before.len() >= target ==> self.states@ == before,
            ensures
                self.states@.len() >= target || self.states@.len() == self.anchors@.len(),
            decreases self.anchors@.len() - self.states@.len(),
        {
            let free = self.free_anchors();
            if free.len() == 0 {
                proof {
                    lemma_none_free(self.states@, self.anchors@, self.chars@);
                }
                break;
            }
            let pick = random_between(0, (free.len() - 1) as u64) as usize;
            let duration = random_between(MIN_LIFETIME, MAX_LIFETIME - 1);
            let pause_duration = random_between(MIN_PAUSE, MAX_PAUSE - 1);
            let anchor = free[pick];
            proof {
                let free_test = is_free(self.states@.dom());
                self.anchors@.lemma_filter_pred(free_test, pick as int);
                assert(free@.contains(anchor));
                self.anchors@.lemma_filter_contains_rev(free_test, anchor);
                let j = choose|j: int| 0 <= j < self.anchors@.len() && self.anchors@[j] == anchor;
                assert(is_period(self.chars@, self.anchors@[j] as int));
            }
            let ghost running = self.states@;
            let started = self.start_twinkle(anchor, duration, pause_duration);
            proof {
                assert(started);
                assert(self.states@.dom() =~= running.dom().insert(anchor));
                lemma_count_at_most_periods(self.states@, self.anchors@, self.chars@);
            }
        }
    }

    /// The number of twinkles that the next update aims at: drawn by chance from the
    /// range where the configuration sets one, else the fixed number.
    pub fn draw_target(&self) -> (target: usize)
        requires
            self.wf(),
            self.anchors@.len() > 0,
        ensures
            is_target(self.config, self.anchors@.len() as int, target as int),
    {
        if let (Some(low), Some(high)) = (self.config.min_twinkle_count, self.config.max_twinkle_count) {
            let bottom = if low <= self.anchors.len() {
                low
            } else {
                self.anchors.len()
            };
            let top = if high <= self.anchors.len() {
                high
            } else {
                self.anchors.len()
            };
            random_between(bottom as u64, top as u64) as usize
        } else {
            fixed_target_count(&self.config, self.anchors.len())
        }
    }

    /// One update towards `target` twinkles: the running ones age, those that are
    /// over are dropped, and new ones are started until the target is met.
    pub fn update(&mut self, target: usize)
        requires
            old(self).wf(),
        ensures
            final(self).wf(),
            final(self).same_setup(old(self)),
            topped_up(
                aged_states(old(self).states@),
                final(self).states@,
                target as int,
                old(self).anchors@.len() as int,
            ),
    {
        self.age();
        self.top_up(target);
    }

    /// The engine's part of one frame, for a roll of the dice from 0 up to, but
    /// not including, one whole. The twinkles are updated if and only if the text
    /// has periods and the roll is below the share of frames that the
    /// configuration asks for; if so, the target of the update is returned.
    pub fn step_on(&mut self, roll: u64) -> (updated: Option<usize>)
        requires
            old(self).wf(),
            roll < SCALE,
        ensures
            final(self).wf(),
            final(self).same_setup(old(self)),
            final(self).states@.len() <= old(self).anchors@.len(),
            updated is Some <==> old(self).anchors@.len() > 0 && roll < old(
                self,
            ).config.twinkling_percentage,
            match updated {
                Some(target) => is_target(
                    old(self).config,
                    old(self).anchors@.len() as int,
                    target as int,
                ) && topped_up(
                    aged_states(old(self).states@),
                    final(self).states@,
                    target as int,
                    old(self).anchors@.len() as int,
                ),
                None => final(self).states@ == old(self).states@,
            },
    {
        proof {
            lemma_count_at_most_periods(self.states@, self.anchors@, self.chars@);
        }
        if self.anchors.len() == 0 || roll >= self.config.twinkling_percentage {
            return None;
        }
        let target = self.draw_target();
        self.update(target);
        proof {
            lemma_count_at_most_periods(self.states@, self.anchors@, self.chars@);
        }
        Some(target)
    }

    /// The engine's part of one frame. Chance decides, by the share of frames that
    /// the configuration asks for, whether the twinkles are updated on this frame:
    /// the dice are rolled and `step_on` does the rest. A share of nothing never
    /// updates, a share of one whole or more always does, and a text without
    /// periods is never updated.
    pub fn step(&mut self) -> (updated: Option<usize>)
        requires
            old(self).wf(),
        ensures
            final(self).wf(),
            final(self).same_setup(old(self)),
            final(self).states@.len() <= old(self).anchors@.len(),
            old(self).anchors@.len() == 0 || old(self).config.twinkling_percentage == 0
                ==> updated is None,
            old(self).anchors@.len() > 0 && old(self).config.twinkling_percentage >= SCALE
                ==> updated is Some,
            match updated {
                Some(target) => is_target(
                    old(self).config,
                    old(self).anchors@.len() as int,
                    target as int,
                ) && topped_up(
                    aged_states(old(self).states@),
                    final(self).states@,
                    target as int,
                    old(self).anchors@.len() as int,
                ),
                None => final(self).states@ == old(self).states@,
            },
    {
        let roll = random_between(0, SCALE - 1);
        self.step_on(roll)
    }

    /// The line as it is drawn now.
    pub fn render(&self) -> (cells: Vec<Cell>)
        requires
            self.wf(),
        ensures
            cells@.len() == self.chars@.len(),
            forall|i: int| 0 <= i < cells@.len() ==> cells@[i] == self.cell_at(i),
    {
        let mut cells: Vec<Cell> = Vec::new();
        let mut i: usize = 0;
        while i < self.chars.len()
            invariant
                self.wf(),
                i <= self.chars@.len(),
                cells@.len() == i,
                forall|j: int| 0 <= j < i ==> cells@[j] == self.cell_at(j),
            decreases self.chars@.len() - i,
        {
            let cell = match self.states.get(&i) {
                Some(state) => {
                    assert(self.states@.contains_key(i) && self.states@[i] == *state);
                    let progress = calculate_three_phase_progress(
                        state.phase,
                        state.pause_duration,
                        &self.config.easing,
                    );
                    Cell {
                        glyph: get_twinkle_char(progress, self.config.star_mode),
                        color: blend_colors(
                            self.config.base_color,
                            self.config.twinkle_color,
                            progress as i64,
                        ),
                    }
                },
                None => Cell { glyph: self.chars[i], color: self.config.base_color },
            };
            let ghost drawn = cells@;
            assert(cell == self.cell_at(i as int));
            cells.push(cell);
            assert(cells@ == drawn.push(cell));
            i += 1;
        }
        cells
    }
}

/// Twinkles that all run on periods are no more than the periods.
pub proof fn lemma_count_at_most_periods(
    states: Map<usize, TwinkleState>,
    anchors: Seq<usize>,
    chars: Seq<char>,
)
    requires
        states.dom().finite(),
        lists_periods(anchors, chars),
        forall|anchor: usize| #[trigger] states.contains_key(anchor) ==> is_period(chars, anchor as int),
    ensures
        states.len() <= anchors.len(),
{
    assert(states.dom().subset_of(anchors.to_set())) by {
        assert forall|anchor: usize| states.dom().contains(anchor) implies anchors.to_set().contains(
            anchor,
        ) by {
            assert(states.contains_key(anchor));
            assert(is_period(chars, anchor as int));
            assert(anchors.contains(anchor));
        }
    }
    vstd::seq_lib::seq_to_set_is_finite(anchors);
    vstd::set_lib::lemma_len_subset(states.dom(), anchors.to_set());
    anchors.unique_seq_to_set();
}

/// Where no anchor is free, a twinkle runs on every period.
pub proof fn lemma_none_free(states: Map<usize, TwinkleState>, anchors: Seq<usize>, chars: Seq<char>)
    requires
        states.dom().finite(),
        lists_periods(anchors, chars),
        forall|anchor: usize| #[trigger] states.contains_key(anchor) ==> is_period(chars, anchor as int),
        unclaimed(anchors, states.dom()).len() == 0,
    ensures
        states.len() == anchors.len(),
{
    let free_test = is_free(states.dom());
    assert(states.dom() =~= anchors.to_set()) by {
        assert forall|anchor: usize| anchors.to_set().contains(anchor) implies states.dom().contains(
            anchor,
        ) by {
            let j = choose|j: int| 0 <= j < anchors.len() && anchors[j] == anchor;
            if free_test(anchors[j]) {
                anchors.lemma_filter_contains(free_test, j);
                assert(anchors.filter(free_test).len() > 0);
            }
        }
        assert forall|anchor: usize| states.dom().contains(anchor) implies anchors.to_set().contains(
            anchor,
        ) by {
            assert(states.contains_key(anchor));
            assert(is_period(chars, anchor as int));
            assert(anchors.contains(anchor));
        }
    }
    anchors.unique_seq_to_set();
}

/// On a text without periods no twinkle ever runs, and the line is drawn as it
/// stands, every character in the base colour.
pub proof fn lemma_plain_without_periods(engine: TwinkleEngine, i: int)
    requires
        engine.wf(),
        forall|p: int| !is_period(engine.chars@, p),
        0 <= i < engine.chars@.len(),
    ensures
        engine.states@.len() == 0,
        engine.cell_at(i) == (Cell { glyph: engine.chars@[i], color: engine.config.base_color }),
{
    assert(engine.states@.dom() =~= Set::<usize>::empty()) by {
        assert forall|anchor: usize| !engine.states@.dom().contains(anchor) by {
            if engine.states@.contains_key(anchor) {
                assert(is_period(engine.chars@, anchor as int));
            }
        }
    }
}

/// After an update under a range, the number of running twinkles is at least the
/// minimum, or the number of periods if that is less, and at most the number of
/// periods.
pub proof fn lemma_count_after_update(
    config: TwinkleConfig,
    periods: int,
    target: int,
    before: Map<usize, TwinkleState>,
    after: Map<usize, TwinkleState>,
)
    requires
        periods > 0,
        count_range(config, periods) is Some,
        !range_is_empty(config, periods),
        is_target(config, periods, target),
        before.len() <= periods,
        topped_up(before, after, target, periods),
    ensures
        after.len() <= periods,
        match config.min_twinkle_count {
            Some(low) => after.len() >= low || after.len() == periods,
            None => true,
        },
{
}

} // verus!
