//! The linear sweep: a highlight that travels along one line of text and back.

use vstd::prelude::*;
use crate::color::{blend_ratio, blended_ratio, lemma_blend_channel_between};
use crate::cycle::{
    frames_per_cycle, lemma_cycle_endpoints, lemma_sweep_in_unit, ConfigError, CycleClock,
};
use crate::fixed::{lemma_share_bounds, share, Fraction, SCALE};
use crate::frame::{chars_of, Cell, FrameTiming};

pub use crate::easing::{EasingFunction, MAX_STEPS};

verus! {

/// The end of the line from which the sweep sets out.
#[derive(Debug, Clone, Copy, PartialEq, Eq, Structural)]
pub enum ShineStart {
    Beginning,
    End,
}

/// What a linear sweep is made of. Times are in milliseconds, `pause_position` and
/// `opacity` in millionths.
#[derive(Debug, Clone, Copy)]
pub struct ShineConfig {
    pub base_color: (u8, u8, u8),
    pub speed: u64,
    pub easing: EasingFunction,
    pub duration: u64,
    pub cycles: u32,
    pub start: ShineStart,
    pub width: usize,
    pub blur: bool,
    pub padding: usize,
    pub shine_color: (u8, u8, u8),
    pub pause_length: Option<u64>,
    pub pause_position: u64,
    pub cycle_pre_delay: Option<u64>,
    pub cycle_post_delay: Option<u64>,
    pub cycle_switchback_delay: Option<u64>,
    pub opacity: u64,
}

/// The part of its way that a sweep has covered at ping-pong progress
/// `progress / whole`, as a numerator over `whole`: the progress itself from the
/// beginning, what is left of it from the end.
pub open spec fn along(progress: int, whole: int, start: ShineStart) -> int {
    match start {
        ShineStart::Beginning => progress,
        ShineStart::End => whole - progress,
    }
}

/// The place of the sweep over a text of `text_len` characters at ping-pong
/// progress `progress / whole`. The sweep travels over `text_len + 2 · padding`
/// places, from `padding` places before the text to `padding` places behind it:
/// `along · (range − 1) − padding`, rounded down.
pub open spec fn shine_position_of(
    progress: int,
    whole: int,
    text_len: int,
    padding: int,
    start: ShineStart,
) -> int {
    share(along(progress, whole, start), text_len + 2 * padding - 1, whole) - padding
}

/// The sweep never leaves its way. It starts at one end of it and, at full
/// progress, stands at the other.
pub proof fn lemma_position_span(
    progress: int,
    whole: int,
    text_len: int,
    padding: int,
    start: ShineStart,
)
    requires
        0 <= progress <= whole,
        0 < whole,
        text_len >= 1,
        padding >= 0,
    ensures
        -padding <= shine_position_of(progress, whole, text_len, padding, start) <= text_len
            + padding - 1,
        shine_position_of(0, whole, text_len, padding, ShineStart::Beginning) == -padding,
        shine_position_of(whole, whole, text_len, padding, ShineStart::Beginning) == text_len
            + padding - 1,
        shine_position_of(0, whole, text_len, padding, ShineStart::End) == text_len + padding - 1,
        shine_position_of(whole, whole, text_len, padding, ShineStart::End) == -padding,
{
    let travel = text_len + 2 * padding - 1;
    lemma_share_bounds(along(progress, whole, start), travel, whole);
    lemma_share_bounds(0, travel, whole);
}

/// The progress of a sweep along its way.
pub fn along_way(progress: Fraction, start: ShineStart) -> (covered: Fraction)
    requires
        progress.wf(),
    ensures
        covered.wf(),
        covered.den == progress.den,
        covered.num as int == along(progress.num as int, progress.den as int, start),
{
    match start {
        ShineStart::Beginning => progress,
        ShineStart::End => Fraction { num: progress.den - progress.num, den: progress.den },
    }
}

/// The place of the sweep at ping-pong progress `progress`.
pub fn shine_position(progress: Fraction, text_len: usize, padding: usize, start: ShineStart) -> (position:
    isize)
    requires
        progress.wf(),
        text_len >= 1,
        text_len + 2 * padding <= isize::MAX,
    ensures
        position as int == shine_position_of(
            progress.num as int,
            progress.den as int,
            text_len as int,
            padding as int,
            start,
        ),
        -padding <= position <= text_len + padding - 1,
{
    proof {
        lemma_position_span(
            progress.num as int,
            progress.den as int,
            text_len as int,
            padding as int,
            start,
        );
    }
    let travel: u64 = (text_len + 2 * padding - 1) as u64;
    let steps: u64 = along_way(progress, start).of(travel);
    steps as isize - padding as isize
}

/// An opacity limited to one whole.
pub open spec fn opacity_of(opacity: int) -> int {
    if opacity > SCALE {
        SCALE as int
    } else {
        opacity
    }
}

/// The colour of a character `distance` places from the sweep: the base colour
/// blended towards the shine colour by the sweep's light times the opacity.
///
/// Beyond the sweep's width there is no light. Within it, a blurred sweep gives
/// `1 − distance / width`, and an unblurred one lights the character under it in
/// full and no other. A blurred sweep of width 0 gives no light.
pub open spec fn shine_color_of(distance: int, config: ShineConfig) -> (u8, u8, u8) {
    let opacity = opacity_of(config.opacity as int);
    if distance > config.width {
        config.base_color
    } else if config.blur {
        if config.width == 0 {
            config.base_color
        } else {
            blended_ratio(
                config.base_color,
                config.shine_color,
                (config.width - distance) * opacity,
                config.width * SCALE,
            )
        }
    } else if distance == 0 {
        blended_ratio(config.base_color, config.shine_color, opacity, SCALE as int)
    } else {
        config.base_color
    }
}

/// Whatever the distance, the colour of a character is a blend of the base colour
/// and the shine colour: each channel lies between the two.
pub proof fn lemma_shine_color_is_a_blend(distance: int, config: ShineConfig)
    requires
        distance >= 0,
    ensures
        between(config.base_color.0, shine_color_of(distance, config).0, config.shine_color.0),
        between(config.base_color.1, shine_color_of(distance, config).1, config.shine_color.1),
        between(config.base_color.2, shine_color_of(distance, config).2, config.shine_color.2),
{
    let opacity = opacity_of(config.opacity as int);
    let base = config.base_color;
    let shine = config.shine_color;
    if distance <= config.width && config.blur && config.width > 0 {
        let num = (config.width - distance) * opacity;
        let den = config.width * SCALE;
        assert(0 <= num <= den && 0 < den) by (nonlinear_arith)
            requires
                0 <= config.width - distance <= config.width,
                0 < config.width,
                0 <= opacity <= SCALE,
                SCALE == 1_000_000,
                num == (config.width - distance) * opacity,
                den == config.width * SCALE,
        ;
        lemma_blend_channel_between(base.0 as int, shine.0 as int, num, den);
        lemma_blend_channel_between(base.1 as int, shine.1 as int, num, den);
        lemma_blend_channel_between(base.2 as int, shine.2 as int, num, den);
    } else if distance <= config.width && !config.blur && distance == 0 {
        lemma_blend_channel_between(base.0 as int, shine.0 as int, opacity, SCALE as int);
        lemma_blend_channel_between(base.1 as int, shine.1 as int, opacity, SCALE as int);
        lemma_blend_channel_between(base.2 as int, shine.2 as int, opacity, SCALE as int);
    }
}

/// `x` lies between `a` and `b`, whichever of the two is the larger.
pub open spec fn between(a: u8, x: u8, b: u8) -> bool {
    (a <= x <= b) || (b <= x <= a)
}

/// The colour of a character `distance` places from the sweep.
pub fn shine_color(distance: usize, config: &ShineConfig) -> (color: (u8, u8, u8))
    ensures
        color == shine_color_of(distance as int, *config),
{
    let opacity: u128 = if config.opacity > SCALE {
        SCALE as u128
    } else {
        config.opacity as u128
    };
    if distance > config.width {
        config.base_color
    } else if config.blur {
        if config.width == 0 {
            config.base_color
        } else {
            let light: u128 = (config.width - distance) as u128;
            let width: u128 = config.width as u128;
            assert(light * opacity <= width * SCALE && width * SCALE <= 0xFFFF_FFFF_FFFF_FFFF
                * 1_000_000) by (nonlinear_arith)
                requires
                    0 <= light <= width <= 0xFFFF_FFFF_FFFF_FFFF,
                    0 <= opacity <= SCALE,
                    SCALE == 1_000_000,
            ;
            blend_ratio(config.base_color, config.shine_color, light * opacity, width * SCALE as u128)
        }
    } else if distance == 0 {
        blend_ratio(config.base_color, config.shine_color, opacity, SCALE as u128)
    } else {
        config.base_color
    }
}

/// The sweep, `offset` places along a way of `range` places, is within a twentieth
/// of the way of the place `pause_position`, given in millionths of the way.
pub open spec fn in_pause_band(offset: int, range: int, pause_position: int) -> bool {
    let gap = offset * SCALE - pause_position * range;
    -(SCALE * range) < 20 * gap < SCALE * range
}

/// Whether the sweep is near enough to the place where it is to linger.
pub fn is_in_pause_band(offset: u64, range: u64, pause_position: u64) -> (r: bool)
    requires
        offset <= range <= i64::MAX,
    ensures
        r == in_pause_band(offset as int, range as int, pause_position as int),
{
    if pause_position > 2 * SCALE {
        assert(!in_pause_band(offset as int, range as int, pause_position as int)) by (nonlinear_arith)
            requires
                0 <= offset <= range,
                pause_position > 2 * SCALE,
                SCALE == 1_000_000,
        {
            assert(offset * SCALE <= range * SCALE);
            assert(pause_position * range >= (2 * SCALE + 1) * range);
        }
        return false;
    }
    assert(offset * SCALE <= 0x7FFF_FFFF_FFFF_FFFF * 1_000_000) by (nonlinear_arith)
        requires
            0 <= offset <= 0x7FFF_FFFF_FFFF_FFFF,
            SCALE == 1_000_000,
    ;
    assert(pause_position * range <= 2_000_000 * 0x7FFF_FFFF_FFFF_FFFF) by (nonlinear_arith)
        requires
            0 <= range <= 0x7FFF_FFFF_FFFF_FFFF,
            0 <= pause_position <= 2_000_000,
    ;
    assert(SCALE * range <= 1_000_000 * 0x7FFF_FFFF_FFFF_FFFF) by (nonlinear_arith)
        requires
            0 <= range <= 0x7FFF_FFFF_FFFF_FFFF,
            SCALE == 1_000_000,
    ;
    let reached: i128 = offset as i128 * SCALE as i128;
    let wanted: i128 = pause_position as i128 * range as i128;
    let gap: i128 = reached - wanted;
    let band: i128 = SCALE as i128 * range as i128;
    -band < 20 * gap && 20 * gap < band
}

/// One line of text and the sweep that runs over it.
pub struct ShineRenderer {
    pub chars: Vec<char>,
    pub config: ShineConfig,
    pub clock: CycleClock,
}

impl ShineRenderer {
    /// The renderer's invariant. Where there is a text to animate, the clock is that
    /// of the configuration, and the sweep's way is short enough for its places to
    /// be numbered.
    pub open spec fn wf(&self) -> bool {
        &&& self.clock.wf()
        &&& self.config.speed != 0
        &&& self.chars@.len() > 0 ==> {
            &&& self.clock.total_frames as int == frames_per_cycle(
                self.config.duration as int,
                self.config.speed as int,
            )
            &&& self.clock.cycles == self.config.cycles
            &&& self.clock.easing == self.config.easing
            &&& self.chars@.len() + 2 * self.config.padding <= isize::MAX
        }
    }

    /// The places that the sweep travels over.
    pub open spec fn range(&self) -> int {
        self.chars@.len() + 2 * self.config.padding
    }

    /// The place of the sweep on `frame`.
    pub open spec fn position_at(&self, frame: int) -> int {
        shine_position_of(
            self.clock.sweep_at(frame),
            self.clock.whole(),
            self.chars@.len() as int,
            self.config.padding as int,
            self.config.start,
        )
    }

    /// What is drawn at place `i` of the text on `frame`.
    pub open spec fn cell_at(&self, frame: int, i: int) -> Cell {
        let position = self.position_at(frame);
        let distance = if i >= position {
            i - position
        } else {
            position - i
        };
        Cell { glyph: self.chars@[i], color: shine_color_of(distance, self.config) }
    }

    /// The waits around `frame`: the cycle's first frame waits for
    /// `cycle_pre_delay`, the frame on which the sweep turns back for
    /// `cycle_switchback_delay`, every frame on which the sweep is near
    /// `pause_position` for `pause_length`, every frame for `speed` once it is
    /// drawn, and the cycle's last frame for `cycle_post_delay`.
    pub open spec fn timing_at(&self, frame: int) -> FrameTiming {
        FrameTiming {
            cycle_pre_delay: if frame == 0 {
                self.config.cycle_pre_delay
            } else {
                None
            },
            switchback_delay: if self.clock.turns_at(frame) {
                self.config.cycle_switchback_delay
            } else {
                None
            },
            pause: if in_pause_band(
                self.position_at(frame) + self.config.padding,
                self.range(),
                self.config.pause_position as int,
            ) {
                self.config.pause_length
            } else {
                None
            },
            frame_delay: self.config.speed,
            cycle_post_delay: if frame + 1 == self.clock.total_frames {
                self.config.cycle_post_delay
            } else {
                None
            },
        }
    }

    /// Sets up the sweep over one line of text.
    ///
    /// A zero `speed` is refused. An empty text is not animated, and nothing else of
    /// the configuration is held against it: its clock is that of a single still
    /// frame. Of any other text, a cycle of more than `MAX_STEPS` frames is
    /// refused, and so are a length and a padding that add up to more places than
    /// can be numbered.
    pub fn new(text: &str, config: ShineConfig) -> (r: Result<ShineRenderer, ConfigError>)
        ensures
            r is Err <==> config.speed == 0 || (text@.len() > 0 && (config.duration / config.speed
                > MAX_STEPS || text@.len() + 2 * config.padding > isize::MAX)),
            r matches Err(e) ==> e == if config.speed == 0 {
                ConfigError::ZeroSpeed
            } else {
                ConfigError::TooLarge
            },
            r matches Ok(renderer) ==> {
                &&& renderer.wf()
                &&& renderer.chars@ == text@
                &&& renderer.config == config
                &&& text@.len() == 0 ==> renderer.clock == CycleClock::still_clock(config.easing)
            },
    {
        if config.speed == 0 {
            return Err(ConfigError::ZeroSpeed);
        }
        let chars = chars_of(text);
        if chars.len() == 0 {
            let clock = CycleClock::still(config.easing);
            return Ok(ShineRenderer { chars, config, clock });
        }
        let clock = match CycleClock::new(config.speed, config.duration, config.cycles, config.easing) {
            Ok(clock) => clock,
            Err(e) => {
                return Err(e);
            },
        };
        let limit: usize = isize::MAX as usize;
        if config.padding > limit / 2 || chars.len() > limit - 2 * config.padding {
            return Err(ConfigError::TooLarge);
        }
        Ok(ShineRenderer { chars, config, clock })
    }

    /// Whether the text is empty. An empty text is not animated: a single blank
    /// line stands for it.
    pub fn is_blank(&self) -> (r: bool)
        ensures
            r == (self.chars@.len() == 0),
    {
        self.chars.len() == 0
    }

    /// The place of the sweep on `frame`.
    pub fn position(&self, frame: u64) -> (position: isize)
        requires
            self.wf(),
            self.chars@.len() > 0,
            frame < self.clock.total_frames,
        ensures
            position as int == self.position_at(frame as int),
            -self.config.padding <= position <= self.chars@.len() + self.config.padding - 1,
    {
        let progress = self.clock.sweep_progress(frame);
        shine_position(progress, self.chars.len(), self.config.padding, self.config.start)
    }

    /// The waits around `frame`.
    pub fn timing(&self, frame: u64) -> (timing: FrameTiming)
        requires
            self.wf(),
            self.chars@.len() > 0,
            frame < self.clock.total_frames,
        ensures
            timing == self.timing_at(frame as int),
    {
        let position = self.position(frame);
        let offset: u64 = (position + self.config.padding as isize) as u64;
        let range: u64 = (self.chars.len() + 2 * self.config.padding) as u64;
        let lingers = is_in_pause_band(offset, range, self.config.pause_position);
        FrameTiming {
            cycle_pre_delay: if frame == 0 {
                self.config.cycle_pre_delay
            } else {
                None
            },
            switchback_delay: if self.clock.crosses_midpoint(frame) {
                self.config.cycle_switchback_delay
            } else {
                None
            },
            pause: if lingers {
                self.config.pause_length
            } else {
                None
            },
            frame_delay: self.config.speed,
            cycle_post_delay: if self.clock.is_last_frame(frame) {
                self.config.cycle_post_delay
            } else {
                None
            },
        }
    }

    /// The line as it is drawn on `frame`.
    pub fn render(&self, frame: u64) -> (cells: Vec<Cell>)
        requires
            self.wf(),
            frame < self.clock.total_frames,
        ensures
            cells@.len() == self.chars@.len(),
            forall|i: int| 0 <= i < cells@.len() ==> cells@[i] == self.cell_at(frame as int, i),
    {
        let mut cells: Vec<Cell> = Vec::new();
        if self.chars.len() == 0 {
            return cells;
        }
        let position = self.position(frame);
        let mut i: usize = 0;
        while i < self.chars.len()
            invariant
                self.wf(),
                i <= self.chars@.len(),
                cells@.len() == i,
                position as int == self.position_at(frame as int),
                -self.config.padding <= position <= self.chars@.len() + self.config.padding - 1,
                forall|j: int| 0 <= j < i ==> cells@[j] == self.cell_at(frame as int, j),
            decreases self.chars@.len() - i,
        {
            let distance: usize = if i as isize >= position {
                (i as isize - position) as usize
            } else {
                (position - i as isize) as usize
            };
            let cell = Cell { glyph: self.chars[i], color: shine_color(distance, &self.config) };
            let ghost drawn = cells@;
            assert(cell == self.cell_at(frame as int, i as int));
            cells.push(cell);
            assert(cells@ == drawn.push(cell));
            i += 1;
        }
        cells
    }
}

/// While the sweep stands before the text, further from it than it is wide, the
/// whole line is drawn in the base colour. With a padding above the width, a sweep
/// from the beginning stands so on the first frame of every cycle.
pub proof fn lemma_first_frame_is_plain(renderer: ShineRenderer, i: int)
    requires
        renderer.wf(),
        renderer.config.start == ShineStart::Beginning,
        renderer.config.padding > renderer.config.width,
        0 <= i < renderer.chars@.len(),
    ensures
        renderer.position_at(0) == -renderer.config.padding,
        renderer.cell_at(0, i) == (Cell { glyph: renderer.chars@[i], color: renderer.config.base_color }),
{
    lemma_cycle_endpoints(renderer.clock);
    lemma_sweep_in_unit(renderer.clock, 0);
    lemma_position_span(
        0,
        renderer.clock.whole(),
        renderer.chars@.len() as int,
        renderer.config.padding as int,
        ShineStart::Beginning,
    );
}

} // verus!
