//! The frame clock: which frame of which cycle comes next, and how far the sweep
//! has travelled on it.

use vstd::prelude::*;
use crate::easing::{lemma_eased_num_bounds, lemma_eased_num_monotonic, EasingFunction, MAX_STEPS};
use crate::fixed::Fraction;

verus! {

/// Why a configuration cannot be animated.
#[derive(Debug, Clone, Copy, PartialEq, Eq, Structural)]
pub enum ConfigError {
    /// The frame interval is zero, so a cycle has no number of frames.
    ZeroSpeed,
    /// A number of frames, a length, a padding or a width is beyond what positions
    /// can be computed for.
    TooLarge,
    /// Both a minimum and a maximum count are set, and no count lies between them.
    EmptyCountRange,
}

/// A moment of an animation: the cycle, counted from 0, and the frame within it.
#[derive(Debug, Clone, Copy, PartialEq, Eq, Structural)]
pub struct Tick {
    pub cycle: u64,
    pub frame: u64,
}

/// Frames per cycle, the number of cycles (0 for no end) and the easing curve.
#[derive(Debug, Clone, Copy)]
pub struct CycleClock {
    pub total_frames: u64,
    pub cycles: u32,
    pub easing: EasingFunction,
}

/// The frames of one cycle: `duration / speed`, and at least one.
pub open spec fn frames_per_cycle(duration: int, speed: int) -> int {
    if duration / speed >= 1 {
        duration / speed
    } else {
        1
    }
}

/// Eased progress turned into a forward-then-back sweep, both as numerators over
/// `whole`: doubled below one half, mirrored from one half on.
pub open spec fn ping_pong_of(eased: int, whole: int) -> int {
    if 2 * eased < whole {
        2 * eased
    } else {
        2 * whole - 2 * eased
    }
}

/// Turns eased progress into ping-pong progress.
pub fn ping_pong(eased: Fraction) -> (r: Fraction)
    requires
        eased.wf(),
    ensures
        r.wf(),
        r.den == eased.den,
        r.num as int == ping_pong_of(eased.num as int, eased.den as int),
{
    if 2 * eased.num < eased.den {
        Fraction { num: 2 * eased.num, den: eased.den }
    } else {
        Fraction { num: 2 * eased.den - 2 * eased.num, den: eased.den }
    }
}

impl CycleClock {
    /// A clock has at least one frame per cycle, and no more than `MAX_STEPS`.
    pub open spec fn wf(&self) -> bool {
        1 <= self.total_frames <= MAX_STEPS
    }

    /// Builds the clock of an animation whose frames are `speed` apart and whose
    /// cycle lasts `duration`. A zero `speed` is refused, and so is a cycle of more
    /// than `MAX_STEPS` frames.
    pub fn new(speed: u64, duration: u64, cycles: u32, easing: EasingFunction) -> (r: Result<
        CycleClock,
        ConfigError,
    >)
        ensures
            r is Err <==> speed == 0 || duration / speed > MAX_STEPS,
            r matches Err(e) ==> e == if speed == 0 {
                ConfigError::ZeroSpeed
            } else {
                ConfigError::TooLarge
            },
            r matches Ok(clock) ==> clock.wf() && clock.total_frames as int == frames_per_cycle(
                duration as int,
                speed as int,
            ) && clock.cycles == cycles && clock.easing == easing,
    {
        if speed == 0 {
            return Err(ConfigError::ZeroSpeed);
        }
        let frames: u64 = duration / speed;
        if frames > MAX_STEPS {
            return Err(ConfigError::TooLarge);
        }
        Ok(CycleClock { total_frames: if frames >= 1 { frames } else { 1 }, cycles, easing })
    }

    /// The clock of what is drawn once and not animated: one cycle of one frame.
    pub open spec fn still_clock(easing: EasingFunction) -> CycleClock {
        CycleClock { total_frames: 1, cycles: 1, easing }
    }

    /// The clock of what is drawn once and not animated.
    pub fn still(easing: EasingFunction) -> (clock: CycleClock)
        ensures
            clock == Self::still_clock(easing),
            clock.wf(),
            clock.after(Tick { cycle: 0, frame: 0 }) is None,
    {
        CycleClock { total_frames: 1, cycles: 1, easing }
    }

    /// The steps from the first frame of a cycle to its last; 1 where the cycle
    /// has a single frame.
    pub open spec fn steps(&self) -> int {
        if self.total_frames > 1 {
            self.total_frames - 1
        } else {
            1
        }
    }

    /// The steps taken when `frame` is reached; none where the cycle has a single
    /// frame. Elapsed progress is `elapsed / steps`.
    pub open spec fn elapsed(&self, frame: int) -> int {
        if self.total_frames > 1 {
            frame
        } else {
            0
        }
    }

    /// The denominator of eased and ping-pong progress: `2 · steps²`.
    pub open spec fn whole(&self) -> int {
        2 * (self.steps() * self.steps())
    }

    /// Eased progress at `frame`, exactly, as a numerator over `whole`.
    pub open spec fn eased_at(&self, frame: int) -> int {
        self.easing.eased_num(self.elapsed(frame), self.steps())
    }

    /// Ping-pong progress at `frame`, exactly, as a numerator over `whole`.
    pub open spec fn sweep_at(&self, frame: int) -> int {
        ping_pong_of(self.eased_at(frame), self.whole())
    }

    /// The sweep turns back at `frame`: eased progress was below one half on the
    /// frame before and is not on this one.
    pub open spec fn turns_at(&self, frame: int) -> bool {
        frame > 0 && 2 * self.eased_at(frame - 1) < self.whole() && 2 * self.eased_at(frame)
            >= self.whole()
    }

    /// The moment after `tick`: the next frame of the cycle, else the first frame of
    /// the next cycle, else nothing once the last cycle is over. With no end set,
    /// the cycle counter stops counting at its largest value and the cycles go on.
    pub open spec fn after(&self, tick: Tick) -> Option<Tick> {
        if tick.frame + 1 < self.total_frames {
            Some(Tick { cycle: tick.cycle, frame: (tick.frame + 1) as u64 })
        } else if self.cycles == 0 {
            Some(
                Tick {
                    cycle: if tick.cycle < u64::MAX {
                        (tick.cycle + 1) as u64
                    } else {
                        tick.cycle
                    },
                    frame: 0,
                },
            )
        } else if tick.cycle + 1 < self.cycles {
            Some(Tick { cycle: (tick.cycle + 1) as u64, frame: 0 })
        } else {
            None
        }
    }

    /// Eased progress at `frame`.
    pub fn eased_progress(&self, frame: u64) -> (r: Fraction)
        requires
            self.wf(),
            frame < self.total_frames,
        ensures
            r.wf(),
            r.num as int == self.eased_at(frame as int),
            r.den as int == self.whole(),
    {
        let steps: u64 = if self.total_frames > 1 {
            self.total_frames - 1
        } else {
            1
        };
        let elapsed: u64 = if self.total_frames > 1 {
            frame
        } else {
            0
        };
        let num = self.easing.apply_exact(elapsed, steps);
        assert(steps * steps >= 1) by (nonlinear_arith)
            requires
                steps >= 1,
        ;
        Fraction { num, den: 2 * (steps as u128 * steps as u128) }
    }

    /// Ping-pong progress at `frame`.
    pub fn sweep_progress(&self, frame: u64) -> (r: Fraction)
        requires
            self.wf(),
            frame < self.total_frames,
        ensures
            r.wf(),
            r.num as int == self.sweep_at(frame as int),
            r.den as int == self.whole(),
    {
        ping_pong(self.eased_progress(frame))
    }

    /// Whether the sweep turns back at `frame`.
    pub fn crosses_midpoint(&self, frame: u64) -> (r: bool)
        requires
            self.wf(),
            frame < self.total_frames,
        ensures
            r == self.turns_at(frame as int),
    {
        if frame == 0 {
            return false;
        }
        let before = self.eased_progress(frame - 1);
        let now = self.eased_progress(frame);
        2 * before.num < before.den && 2 * now.num >= now.den
    }

    /// Whether `frame` is the last frame of its cycle.
    pub fn is_last_frame(&self, frame: u64) -> (r: bool)
        requires
            self.wf(),
        ensures
            r == (frame + 1 >= self.total_frames),
    {
        frame >= self.total_frames - 1
    }

    /// The first moment of every animation.
    pub fn first_tick(&self) -> (r: Tick)
        ensures
            r == (Tick { cycle: 0, frame: 0 }),
    {
        Tick { cycle: 0, frame: 0 }
    }

    /// The moment after `tick`, if the animation goes on.
    pub fn next_tick(&self, tick: Tick) -> (r: Option<Tick>)
        ensures
            r == self.after(tick),
    {
        if tick.frame < u64::MAX && tick.frame + 1 < self.total_frames {
            Some(Tick { cycle: tick.cycle, frame: tick.frame + 1 })
        } else if self.cycles == 0 {
            Some(
                Tick {
                    cycle: if tick.cycle < u64::MAX {
                        tick.cycle + 1
                    } else {
                        tick.cycle
                    },
                    frame: 0,
                },
            )
        } else if tick.cycle < u64::MAX && tick.cycle + 1 < self.cycles as u64 {
            Some(Tick { cycle: tick.cycle + 1, frame: 0 })
        } else {
            None
        }
    }
}

impl CycleClock {
    /// The moment that lies `k` frames into a run: the cycles are gone through one
    /// after the other, each from its first frame to its last.
    pub open spec fn tick_at(&self, k: int) -> Tick {
        Tick { cycle: (k / self.total_frames as int) as u64, frame: (k % self.total_frames as int) as u64 }
    }
}

/// A run of `cycles` cycles draws `cycles · total_frames` frames, no more and no
/// fewer: it starts with frame 0 of cycle 0, every frame but the last of the run
/// is followed by the next, and the last is followed by nothing.
pub proof fn lemma_run_length(clock: CycleClock, k: int)
    requires
        clock.wf(),
        clock.cycles > 0,
        0 <= k < clock.cycles * clock.total_frames,
    ensures
        clock.tick_at(0) == (Tick { cycle: 0, frame: 0 }),
        clock.tick_at(k).frame < clock.total_frames,
        clock.tick_at(k).cycle < clock.cycles,
        clock.after(clock.tick_at(k)) == if k + 1 < clock.cycles * clock.total_frames {
            Some(clock.tick_at(k + 1))
        } else {
            None
        },
{
    let frames = clock.total_frames as int;
    let cycles = clock.cycles as int;
    let q = k / frames;
    let r = k % frames;
    vstd::arithmetic::div_mod::lemma_fundamental_div_mod(k, frames);
    vstd::arithmetic::div_mod::lemma_mod_pos_bound(k, frames);
    vstd::arithmetic::div_mod::lemma_fundamental_div_mod_converse(0, frames, 0, 0);
    assert(frames * q == q * frames) by (nonlinear_arith);
    assert(0 <= q < cycles) by (nonlinear_arith)
        requires
            0 <= k < cycles * frames,
            k == q * frames + r,
            0 <= r < frames,
    ;
    if r + 1 < frames {
        vstd::arithmetic::div_mod::lemma_fundamental_div_mod_converse(k + 1, frames, q, r + 1);
        assert(k + 1 < cycles * frames) by (nonlinear_arith)
            requires
                k == q * frames + r,
                r + 1 < frames,
                q + 1 <= cycles,
                frames >= 1,
        {
            assert((q + 1) * frames <= cycles * frames);
            assert((q + 1) * frames == q * frames + frames);
        }
    } else {
        assert(k + 1 == (q + 1) * frames + 0) by (nonlinear_arith)
            requires
                k == q * frames + r,
                r + 1 == frames,
        ;
        vstd::arithmetic::div_mod::lemma_fundamental_div_mod_converse(k + 1, frames, q + 1, 0);
        assert(q + 1 < cycles <==> k + 1 < cycles * frames) by (nonlinear_arith)
            requires
                k + 1 == (q + 1) * frames,
                frames >= 1,
        ;
    }
}

/// Eased progress stays between nothing and the whole and never falls from one
/// frame to a later one.
pub proof fn lemma_eased_at_monotonic(clock: CycleClock, earlier: int, later: int)
    requires
        clock.wf(),
        0 <= earlier <= later < clock.total_frames,
    ensures
        0 <= clock.eased_at(earlier) <= clock.eased_at(later) <= clock.whole(),
{
    lemma_eased_num_bounds(clock.easing, clock.elapsed(earlier), clock.steps());
    lemma_eased_num_bounds(clock.easing, clock.elapsed(later), clock.steps());
    lemma_eased_num_monotonic(
        clock.easing,
        clock.elapsed(earlier),
        clock.elapsed(later),
        clock.steps(),
    );
}

/// Ping-pong progress stays between nothing and the whole.
pub proof fn lemma_sweep_in_unit(clock: CycleClock, frame: int)
    requires
        clock.wf(),
        0 <= frame < clock.total_frames,
    ensures
        0 <= clock.sweep_at(frame) <= clock.whole(),
        clock.whole() >= 2,
{
    lemma_eased_at_monotonic(clock, frame, frame);
    assert(clock.steps() * clock.steps() >= 1) by (nonlinear_arith)
        requires
            clock.steps() >= 1,
    ;
}

/// A cycle starts with the sweep at rest: progress 0 on its first frame. A cycle of
/// more than one frame ends with eased progress at the whole, the sweep back at 0.
pub proof fn lemma_cycle_endpoints(clock: CycleClock)
    requires
        clock.wf(),
    ensures
        clock.eased_at(0) == 0,
        clock.sweep_at(0) == 0,
        clock.total_frames > 1 ==> clock.eased_at(clock.total_frames - 1) == clock.whole()
            && clock.sweep_at(clock.total_frames - 1) == 0,
{
    lemma_eased_num_bounds(clock.easing, 0, clock.steps());
    lemma_sweep_in_unit(clock, 0);
}

/// The sweep turns back on at most one frame of a cycle.
pub proof fn lemma_turn_is_unique(clock: CycleClock, first: int, second: int)
    requires
        clock.wf(),
        0 <= first < second < clock.total_frames,
        clock.turns_at(first),
    ensures
        !clock.turns_at(second),
{
    lemma_eased_at_monotonic(clock, first, second - 1);
}

/// In a cycle of more than one frame the sweep turns back on some frame.
pub proof fn lemma_turn_exists(clock: CycleClock) -> (frame: int)
    requires
        clock.wf(),
        clock.total_frames > 1,
    ensures
        0 < frame < clock.total_frames,
        clock.turns_at(frame),
{
    lemma_cycle_endpoints(clock);
    lemma_sweep_in_unit(clock, 0);
    lemma_first_reach(clock, clock.total_frames - 1)
}

/// Below a frame on which eased progress has reached one half lies the frame on
/// which it first does.
proof fn lemma_first_reach(clock: CycleClock, reached: int) -> (frame: int)
    requires
        clock.wf(),
        0 < reached < clock.total_frames,
        2 * clock.eased_at(0) < clock.whole(),
        2 * clock.eased_at(reached) >= clock.whole(),
    ensures
        0 < frame <= reached,
        clock.turns_at(frame),
    decreases reached,
{
    if 2 * clock.eased_at(reached - 1) < clock.whole() {
        reached
    } else {
        lemma_first_reach(clock, reached - 1)
    }
}

} // verus!
