use clifx::cycle::{ping_pong, ConfigError, CycleClock, Tick};
use clifx::easing::{EasingFunction, MAX_STEPS};
use clifx::fixed::{clamp_to_unit, isqrt, share_of, Fraction};

fn clock(speed: u64, duration: u64, cycles: u32) -> CycleClock {
    CycleClock::new(speed, duration, cycles, EasingFunction::Linear).unwrap()
}

#[test]
fn a_zero_speed_is_refused() {
    assert_eq!(
        CycleClock::new(0, 1000, 1, EasingFunction::Linear).err(),
        Some(ConfigError::ZeroSpeed)
    );
    assert_eq!(
        CycleClock::new(0, 0, 0, EasingFunction::EaseIn).err(),
        Some(ConfigError::ZeroSpeed)
    );
}

#[test]
fn a_cycle_of_too_many_frames_is_refused() {
    assert_eq!(
        CycleClock::new(1, MAX_STEPS + 1, 1, EasingFunction::Linear).err(),
        Some(ConfigError::TooLarge)
    );
    assert_eq!(
        CycleClock::new(1, u64::MAX, 1, EasingFunction::Linear).err(),
        Some(ConfigError::TooLarge)
    );
    assert_eq!(clock(1, MAX_STEPS, 1).total_frames, MAX_STEPS);
    assert_eq!(clock(2, 2 * MAX_STEPS + 1, 1).total_frames, MAX_STEPS);
}

#[test]
fn a_cycle_has_duration_over_speed_frames_and_at_least_one() {
    assert_eq!(clock(100, 1000, 1).total_frames, 10);
    assert_eq!(clock(100, 1099, 1).total_frames, 10);
    assert_eq!(clock(50, 2000, 1).total_frames, 40);
    assert_eq!(clock(100, 100, 1).total_frames, 1);
    assert_eq!(clock(100, 99, 1).total_frames, 1);
    assert_eq!(clock(100, 0, 1).total_frames, 1);
    let c = CycleClock::new(7, 70, 3, EasingFunction::EaseOut).unwrap();
    assert_eq!(c.cycles, 3);
    assert_eq!(c.easing, EasingFunction::EaseOut);
}

#[test]
fn progress_is_exact_on_every_frame() {
    let c = clock(100, 1000, 1);
    let eased: Vec<u128> = (0..10).map(|f| c.eased_progress(f).num).collect();
    let sweep: Vec<u128> = (0..10).map(|f| c.sweep_progress(f).num).collect();
    assert_eq!(eased, vec![0, 18, 36, 54, 72, 90, 108, 126, 144, 162]);
    assert_eq!(sweep, vec![0, 36, 72, 108, 144, 144, 108, 72, 36, 0]);
    for f in 0..10 {
        assert_eq!(c.eased_progress(f).den, 162);
        assert_eq!(c.sweep_progress(f).den, 162);
    }
}

#[test]
fn a_single_frame_stands_at_progress_zero() {
    let c = clock(100, 50, 1);
    assert_eq!(c.eased_progress(0), Fraction { num: 0, den: 2 });
    assert_eq!(c.sweep_progress(0), Fraction { num: 0, den: 2 });
    assert!(!c.crosses_midpoint(0));
    assert!(c.is_last_frame(0));
}

#[test]
fn ping_pong_doubles_and_mirrors() {
    assert_eq!(ping_pong(Fraction { num: 0, den: 10 }), Fraction { num: 0, den: 10 });
    assert_eq!(ping_pong(Fraction { num: 2, den: 10 }), Fraction { num: 4, den: 10 });
    assert_eq!(ping_pong(Fraction { num: 4, den: 10 }), Fraction { num: 8, den: 10 });
    assert_eq!(ping_pong(Fraction { num: 5, den: 10 }), Fraction { num: 10, den: 10 });
    assert_eq!(ping_pong(Fraction { num: 6, den: 10 }), Fraction { num: 8, den: 10 });
    assert_eq!(ping_pong(Fraction { num: 10, den: 10 }), Fraction { num: 0, den: 10 });
    assert_eq!(ping_pong(Fraction { num: 1, den: 3 }), Fraction { num: 2, den: 3 });
    assert_eq!(ping_pong(Fraction { num: 2, den: 3 }), Fraction { num: 2, den: 3 });
}

#[test]
fn the_sweep_turns_back_on_exactly_one_frame() {
    let functions = [
        EasingFunction::Linear,
        EasingFunction::EaseIn,
        EasingFunction::EaseOut,
        EasingFunction::EaseInOut,
    ];
    for easing in functions {
        for frames in [2u64, 3, 10, 11, 40, 97] {
            let c = CycleClock::new(1, frames, 1, easing).unwrap();
            let turns: Vec<u64> = (0..frames).filter(|&f| c.crosses_midpoint(f)).collect();
            assert_eq!(turns.len(), 1, "{:?} over {} frames", easing, frames);
            assert!(turns[0] > 0);
        }
    }
    let c = clock(100, 1000, 1);
    let turns: Vec<u64> = (0..10).filter(|&f| c.crosses_midpoint(f)).collect();
    assert_eq!(turns, vec![5]);
    let c = CycleClock::new(100, 1000, 1, EasingFunction::EaseIn).unwrap();
    let turns: Vec<u64> = (0..10).filter(|&f| c.crosses_midpoint(f)).collect();
    // (f / 9)² reaches one half at f = 7.
    assert_eq!(turns, vec![7]);
}

#[test]
fn ticks_run_through_the_frames_of_every_cycle() {
    let c = clock(100, 300, 2);
    let mut seen = vec![c.first_tick()];
    while let Some(next) = c.next_tick(*seen.last().unwrap()) {
        seen.push(next);
    }
    assert_eq!(
        seen,
        vec![
            Tick { cycle: 0, frame: 0 },
            Tick { cycle: 0, frame: 1 },
            Tick { cycle: 0, frame: 2 },
            Tick { cycle: 1, frame: 0 },
            Tick { cycle: 1, frame: 1 },
            Tick { cycle: 1, frame: 2 },
        ]
    );
    assert!(c.is_last_frame(2));
    assert!(!c.is_last_frame(1));
}

#[test]
fn without_a_cycle_count_the_ticks_never_end() {
    let c = clock(100, 200, 0);
    let mut tick = c.first_tick();
    for _ in 0..1000 {
        tick = c.next_tick(tick).unwrap();
    }
    assert_eq!(tick, Tick { cycle: 500, frame: 0 });
    assert_eq!(
        c.next_tick(Tick { cycle: u64::MAX, frame: 1 }),
        Some(Tick { cycle: u64::MAX, frame: 0 })
    );
    assert_eq!(
        c.next_tick(Tick { cycle: u64::MAX - 1, frame: 1 }),
        Some(Tick { cycle: u64::MAX, frame: 0 })
    );
}

#[test]
fn a_single_cycle_of_a_single_frame_ends_at_once() {
    let c = clock(100, 100, 1);
    assert_eq!(c.next_tick(c.first_tick()), None);
}

#[test]
fn fixed_point_helpers_round_down() {
    assert_eq!(clamp_to_unit(-1), 0);
    assert_eq!(clamp_to_unit(i64::MIN), 0);
    assert_eq!(clamp_to_unit(0), 0);
    assert_eq!(clamp_to_unit(123_456), 123_456);
    assert_eq!(clamp_to_unit(1_000_000), 1_000_000);
    assert_eq!(clamp_to_unit(1_000_001), 1_000_000);
    assert_eq!(clamp_to_unit(i64::MAX), 1_000_000);
    assert_eq!(share_of(1, 1_000_000, 3), 333_333);
    assert_eq!(share_of(2, 1_000_000, 3), 666_666);
    assert_eq!(share_of(3, 7, 3), 7);
    assert_eq!(share_of(0, 7, 3), 0);
    assert_eq!(share_of(u64::MAX, u64::MAX, u64::MAX), u64::MAX);
    assert_eq!(Fraction { num: 2, den: 3 }.of(21), 14);
    assert_eq!(Fraction { num: 3, den: 3 }.of(21), 21);
}

#[test]
fn integer_square_roots_round_down() {
    assert_eq!(isqrt(0), 0);
    assert_eq!(isqrt(1), 1);
    assert_eq!(isqrt(2), 1);
    assert_eq!(isqrt(3), 1);
    assert_eq!(isqrt(4), 2);
    assert_eq!(isqrt(99), 9);
    assert_eq!(isqrt(100), 10);
    assert_eq!(isqrt(8_000_000_000_000), 2_828_427);
    assert_eq!(isqrt(u128::MAX), u64::MAX);
    assert_eq!(isqrt((u64::MAX as u128) * (u64::MAX as u128)), u64::MAX);
    assert_eq!(isqrt((u64::MAX as u128) * (u64::MAX as u128) - 1), u64::MAX - 1);
}

#[test]
fn a_still_clock_has_one_frame() {
    let c = CycleClock::still(EasingFunction::EaseOut);
    assert_eq!(c.total_frames, 1);
    assert_eq!(c.cycles, 1);
    assert_eq!(c.easing, EasingFunction::EaseOut);
    assert_eq!(c.next_tick(c.first_tick()), None);
}

#[test]
fn a_run_draws_cycles_times_frames_frames() {
    for (speed, duration, cycles) in [(100u64, 1000u64, 1u32), (100, 1000, 3), (50, 2000, 2), (100, 50, 5), (7, 7, 1)] {
        let c = clock(speed, duration, cycles);
        let frames = std::cmp::max(1, duration / speed);
        assert_eq!(c.total_frames, frames);
        let mut tick = c.first_tick();
        let mut drawn: u64 = 0;
        loop {
            assert_eq!(tick, Tick { cycle: drawn / frames, frame: drawn % frames });
            drawn += 1;
            match c.next_tick(tick) {
                Some(next) => tick = next,
                None => break,
            }
        }
        assert_eq!(drawn, u64::from(cycles) * frames);
    }
}
