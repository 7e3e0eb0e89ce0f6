use clifx::cycle::ConfigError;
use clifx::effects::twinkle::{
    calculate_three_phase_progress, fixed_target_count, get_twinkle_char, period_positions,
    EasingFunction, TwinkleConfig, TwinkleEngine, TwinkleState, MAX_LIFETIME, MAX_PAUSE,
    MIN_LIFETIME, MIN_PAUSE,
};
use clifx::frame::Cell;

fn ratio(t: f32) -> u64 {
    (t as f64 * 1_000_000.0).round() as u64
}

fn float_of(v: u64) -> f32 {
    (v as f64 / 1_000_000.0) as f32
}

fn always_updating(min: Option<usize>, max: Option<usize>) -> TwinkleConfig {
    TwinkleConfig {
        min_twinkle_count: min,
        max_twinkle_count: max,
        twinkling_percentage: 1_000_000,
        ..TwinkleConfig::default()
    }
}

#[test]
fn test_twinkle_config_default() {
    let config = TwinkleConfig::default();

    assert_eq!(config.base_color, (255, 255, 255));
    assert_eq!(config.twinkle_color, (255, 255, 0));
    assert_eq!(config.speed, 100);
    assert_eq!(config.duration, 3000);
    assert_eq!(config.cycles, 1);
    assert_eq!(config.twinkle_ratio.map(float_of), Some(0.3));
    assert_eq!(config.min_twinkle_count, None);
    assert_eq!(config.max_twinkle_count, None);
    assert_eq!(float_of(config.twinkling_percentage), 0.8);
    assert!(!config.star_mode);
}

#[test]
fn test_twinkle_config_creation() {
    let config = TwinkleConfig {
        base_color: (255, 0, 0),
        twinkle_color: (0, 255, 0),
        speed: 50,
        easing: EasingFunction::Linear,
        duration: 1000,
        cycles: 2,
        twinkle_ratio: Some(ratio(0.5)),
        min_twinkle_count: Some(1),
        max_twinkle_count: Some(5),
        twinkling_percentage: ratio(0.9),
        star_mode: true,
    };

    assert_eq!(config.base_color, (255, 0, 0));
    assert_eq!(config.twinkle_color, (0, 255, 0));
    assert_eq!(config.speed, 50);
    assert_eq!(config.duration, 1000);
    assert_eq!(config.cycles, 2);
    assert_eq!(config.twinkle_ratio.map(float_of), Some(0.5));
    assert_eq!(config.min_twinkle_count, Some(1));
    assert_eq!(config.max_twinkle_count, Some(5));
    assert_eq!(float_of(config.twinkling_percentage), 0.9);
    assert!(config.star_mode);
}

#[test]
fn test_twinkle_ratio_clamping() {
    // Test ratio values within valid range
    let valid_ratios = [0.0, 0.3, 0.5, 1.0];
    for &r in &valid_ratios {
        let config = TwinkleConfig {
            twinkle_ratio: Some(ratio(r)),
            ..TwinkleConfig::default()
        };
        assert_eq!(config.twinkle_ratio.map(float_of), Some(r));
    }
}

#[test]
fn test_twinkling_percentage_valid_range() {
    // Test percentage values within valid range
    let valid_percentages = [0.0, 0.5, 0.8, 1.0];
    for &percentage in &valid_percentages {
        let config = TwinkleConfig {
            twinkling_percentage: ratio(percentage),
            ..TwinkleConfig::default()
        };
        assert_eq!(float_of(config.twinkling_percentage), percentage);
    }
}

#[test]
fn test_min_max_twinkle_counts() {
    let config = TwinkleConfig {
        min_twinkle_count: Some(2),
        max_twinkle_count: Some(10),
        ..TwinkleConfig::default()
    };

    assert_eq!(config.min_twinkle_count, Some(2));
    assert_eq!(config.max_twinkle_count, Some(10));
}

#[test]
fn test_star_mode_toggle() {
    let config_no_star = TwinkleConfig {
        star_mode: false,
        ..TwinkleConfig::default()
    };
    assert!(!config_no_star.star_mode);

    let config_star = TwinkleConfig {
        star_mode: true,
        ..TwinkleConfig::default()
    };
    assert!(config_star.star_mode);
}

#[test]
fn a_twinkle_rises_holds_and_falls() {
    let linear = EasingFunction::Linear;
    let phases: [u64; 9] =
        [0, 50_000, 100_000, 450_000, 500_000, 550_000, 900_000, 950_000, 1_000_000];
    let got: Vec<u64> =
        phases.iter().map(|&p| calculate_three_phase_progress(p, 100_000, &linear)).collect();
    assert_eq!(
        got,
        vec![0, 111_111, 222_222, 1_000_000, 1_000_000, 1_000_000, 222_222, 111_111, 0]
    );
    let eased = EasingFunction::EaseInOut;
    let got: Vec<u64> =
        phases.iter().map(|&p| calculate_three_phase_progress(p, 100_000, &eased)).collect();
    assert_eq!(got, vec![0, 24_691, 98_765, 1_000_000, 1_000_000, 1_000_000, 98_765, 24_691, 0]);
    let ease_in = EasingFunction::EaseIn;
    assert_eq!(calculate_three_phase_progress(100_000, 200_000, &ease_in), 62_500);
    assert_eq!(calculate_three_phase_progress(400_000, 200_000, &ease_in), 1_000_000);
    assert_eq!(calculate_three_phase_progress(800_000, 200_000, &ease_in), 250_000);
}

#[test]
fn a_phase_beyond_one_whole_counts_as_one_whole() {
    let linear = EasingFunction::Linear;
    assert_eq!(calculate_three_phase_progress(1_500_000, 100_000, &linear), 0);
    assert_eq!(calculate_three_phase_progress(u64::MAX, 100_000, &linear), 0);
    // Without a hold the twinkle turns at one half; with a hold of nearly all, it is lit throughout.
    assert_eq!(calculate_three_phase_progress(500_000, 0, &linear), 1_000_000);
    assert_eq!(calculate_three_phase_progress(250_000, 0, &linear), 500_000);
    assert_eq!(calculate_three_phase_progress(1, 999_999, &linear), 1_000_000);
    assert_eq!(calculate_three_phase_progress(0, 999_999, &linear), 0);
}

#[test]
fn the_glyph_grows_with_the_brightness() {
    let round = ['.', '\u{00B7}', '\u{2022}', '\u{22C5}', '\u{2218}', '\u{25CB}', '\u{25CF}'];
    let stars =
        ['.', '\u{2726}', '\u{2727}', '\u{22C6}', '\u{2729}', '\u{272A}', '\u{272B}', '\u{2B50}', '*'];
    for (i, &glyph) in round.iter().enumerate() {
        let progress = (i as u64) * 1_000_000 / 6;
        assert_eq!(get_twinkle_char(progress, false), glyph);
    }
    for (i, &glyph) in stars.iter().enumerate() {
        let progress = (i as u64) * 1_000_000 / 8;
        assert_eq!(get_twinkle_char(progress, true), glyph);
    }
    // The place in the row is rounded to the nearest, halves up.
    assert_eq!(get_twinkle_char(83_333, false), '.');
    assert_eq!(get_twinkle_char(83_334, false), '\u{00B7}');
    assert_eq!(get_twinkle_char(916_666, false), '\u{25CB}');
    assert_eq!(get_twinkle_char(916_667, false), '\u{25CF}');
    assert_eq!(get_twinkle_char(62_499, true), '.');
    assert_eq!(get_twinkle_char(62_500, true), '\u{2726}');
    assert_eq!(get_twinkle_char(1_000_000, true), '*');
    assert_eq!(get_twinkle_char(u64::MAX, true), '*');
    assert_eq!(get_twinkle_char(u64::MAX, false), '\u{25CF}');
}

#[test]
fn only_periods_are_anchors() {
    let chars: Vec<char> = "a.b..c.".chars().collect();
    assert_eq!(period_positions(&chars), vec![1, 3, 4, 6]);
    let chars: Vec<char> = "no periods here, only commas\u{3002}".chars().collect();
    assert_eq!(period_positions(&chars), Vec::<usize>::new());
    assert_eq!(period_positions(&vec![]), Vec::<usize>::new());
    assert_eq!(period_positions(&vec!['.', '.', '.']), vec![0, 1, 2]);
}

#[test]
fn the_target_follows_the_ratio_first() {
    let config = TwinkleConfig::default();
    assert_eq!(fixed_target_count(&config, 3), 1);
    assert_eq!(fixed_target_count(&config, 5), 2);
    assert_eq!(fixed_target_count(&config, 10), 3);
    // A ratio that rounds to nothing still asks for one twinkle.
    assert_eq!(fixed_target_count(&config, 1), 1);
    assert_eq!(fixed_target_count(&config, 0), 1);
    let half = TwinkleConfig { twinkle_ratio: Some(500_000), ..config };
    assert_eq!(fixed_target_count(&half, 5), 3);
    assert_eq!(fixed_target_count(&half, 4), 2);
    let quarter = TwinkleConfig { twinkle_ratio: Some(250_000), ..config };
    assert_eq!(fixed_target_count(&quarter, 2), 1);
    // The ratio goes before a minimum or a maximum that stands alone.
    let both = TwinkleConfig { min_twinkle_count: Some(7), ..config };
    assert_eq!(fixed_target_count(&both, 10), 3);
    let huge = TwinkleConfig { twinkle_ratio: Some(u64::MAX), ..config };
    assert_eq!(fixed_target_count(&huge, usize::MAX), usize::MAX);
    let double = TwinkleConfig { twinkle_ratio: Some(2_000_000), ..config };
    assert_eq!(fixed_target_count(&double, 10), 20);
}

#[test]
fn without_a_ratio_the_target_is_the_minimum_the_maximum_or_three_tenths() {
    let bare = TwinkleConfig { twinkle_ratio: None, ..TwinkleConfig::default() };
    assert_eq!(fixed_target_count(&bare, 10), 3);
    assert_eq!(fixed_target_count(&bare, 5), 2);
    assert_eq!(fixed_target_count(&bare, 1), 0);
    assert_eq!(fixed_target_count(&bare, 0), 0);
    let min = TwinkleConfig { min_twinkle_count: Some(4), ..bare };
    assert_eq!(fixed_target_count(&min, 10), 4);
    assert_eq!(fixed_target_count(&min, 3), 3);
    let max = TwinkleConfig { max_twinkle_count: Some(6), ..bare };
    assert_eq!(fixed_target_count(&max, 10), 6);
    assert_eq!(fixed_target_count(&max, 2), 2);
}

#[test]
fn a_new_engine_runs_no_twinkle() {
    let engine = TwinkleEngine::new("a.b.c.", TwinkleConfig::default()).unwrap();
    assert_eq!(engine.chars, vec!['a', '.', 'b', '.', 'c', '.']);
    assert_eq!(engine.anchors, vec![1, 3, 5]);
    assert_eq!(engine.clock.total_frames, 30);
    assert_eq!(engine.active_count(), 0);
    assert!(engine.is_animated());
    assert_eq!(engine.free_anchors(), vec![1, 3, 5]);
}

#[test]
fn twinkles_start_on_free_periods_only() {
    let mut engine = TwinkleEngine::new("a.b.c.", TwinkleConfig::default()).unwrap();
    assert!(engine.start_twinkle(3, 20_000_000, 100_000));
    assert_eq!(
        engine.states.get(&3),
        Some(&TwinkleState { phase: 0, duration: 20_000_000, pause_duration: 100_000 })
    );
    assert_eq!(engine.active_count(), 1);
    assert_eq!(engine.free_anchors(), vec![1, 5]);
    // Not on a period that is taken, nor off a period, nor with an empty life or an endless hold.
    assert!(!engine.start_twinkle(3, 30_000_000, 150_000));
    assert!(!engine.start_twinkle(0, 20_000_000, 100_000));
    assert!(!engine.start_twinkle(6, 20_000_000, 100_000));
    assert!(!engine.start_twinkle(usize::MAX, 20_000_000, 100_000));
    assert!(!engine.start_twinkle(1, 0, 100_000));
    assert!(!engine.start_twinkle(1, 20_000_000, 1_000_000));
    assert_eq!(engine.active_count(), 1);
    assert_eq!(
        engine.states.get(&3),
        Some(&TwinkleState { phase: 0, duration: 20_000_000, pause_duration: 100_000 })
    );
    assert!(engine.start_twinkle(1, 1, 999_999));
    assert!(engine.start_twinkle(5, u64::MAX, 0));
    assert_eq!(engine.active_count(), 3);
    assert_eq!(engine.free_anchors(), Vec::<usize>::new());
}

#[test]
fn a_twinkle_ages_by_one_frame_of_its_life_and_is_dropped_when_over() {
    let mut engine = TwinkleEngine::new("a.b.c.", TwinkleConfig::default()).unwrap();
    assert!(engine.start_twinkle(1, 20_000_000, 100_000));
    assert!(engine.start_twinkle(3, 59_999_999, 100_000));
    assert!(engine.start_twinkle(5, 33_333_333, 150_000));
    engine.age();
    assert_eq!(engine.states.get(&1).unwrap().phase, 50_000);
    assert_eq!(engine.states.get(&3).unwrap().phase, 16_666);
    assert_eq!(engine.states.get(&5).unwrap().phase, 30_000);
    assert_eq!(engine.states.get(&5).unwrap().duration, 33_333_333);
    assert_eq!(engine.states.get(&5).unwrap().pause_duration, 150_000);
    for _ in 1..20 {
        engine.age();
    }
    // Twenty frames bring a life of twenty frames to one whole, which is still kept.
    assert_eq!(engine.states.get(&1).unwrap().phase, 1_000_000);
    assert_eq!(engine.active_count(), 3);
    engine.age();
    assert_eq!(engine.states.get(&1), None);
    assert_eq!(engine.active_count(), 2);
    assert_eq!(engine.free_anchors(), vec![1]);
    for _ in 21..33 {
        engine.age();
    }
    assert_eq!(engine.states.get(&5).unwrap().phase, 990_000);
    engine.age();
    assert_eq!(engine.states.get(&5), None);
    for _ in 34..60 {
        engine.age();
    }
    assert_eq!(engine.states.get(&3).unwrap().phase, 999_960);
    engine.age();
    assert_eq!(engine.active_count(), 0);
}

#[test]
fn a_life_shorter_than_a_frame_is_over_at_once() {
    let mut engine = TwinkleEngine::new(".", TwinkleConfig::default()).unwrap();
    assert!(engine.start_twinkle(0, 999_999, 0));
    engine.age();
    assert_eq!(engine.active_count(), 0);
    assert!(engine.start_twinkle(0, 1_000_000, 0));
    engine.age();
    assert_eq!(engine.states.get(&0).unwrap().phase, 1_000_000);
}

#[test]
fn twinkles_are_drawn_with_their_glyph_and_blend() {
    let mut engine = TwinkleEngine::new("a.b.c.", TwinkleConfig::default()).unwrap();
    let white = (255, 255, 255);
    let plain: Vec<Cell> =
        "a.b.c.".chars().map(|glyph| Cell { glyph, color: white }).collect();
    assert_eq!(engine.render(), plain);

    assert!(engine.start_twinkle(3, 20_000_000, 100_000));
    // A twinkle that has just started is a period in the base colour.
    assert_eq!(engine.render(), plain);
    engine.age();
    let mut expected = plain.clone();
    expected[3] = Cell { glyph: '\u{00B7}', color: (255, 255, 226) };
    assert_eq!(engine.render(), expected);
    engine.age();
    expected[3] = Cell { glyph: '\u{00B7}', color: (255, 255, 198) };
    assert_eq!(engine.render(), expected);
    for _ in 2..9 {
        engine.age();
    }
    expected[3] = Cell { glyph: '\u{25CF}', color: (255, 255, 0) };
    assert_eq!(engine.render(), expected);
    for _ in 9..18 {
        engine.age();
    }
    expected[3] = Cell { glyph: '\u{00B7}', color: (255, 255, 198) };
    assert_eq!(engine.render(), expected);
    for _ in 18..20 {
        engine.age();
    }
    assert_eq!(engine.render(), plain);
}

#[test]
fn stars_are_drawn_in_star_mode() {
    let config = TwinkleConfig {
        base_color: (0, 0, 0),
        twinkle_color: (200, 100, 50),
        easing: EasingFunction::EaseInOut,
        star_mode: true,
        ..TwinkleConfig::default()
    };
    let mut engine = TwinkleEngine::new(".", config).unwrap();
    assert!(engine.start_twinkle(0, 20_000_000, 100_000));
    engine.age();
    assert_eq!(engine.render(), vec![Cell { glyph: '.', color: (4, 2, 1) }]);
    engine.age();
    assert_eq!(engine.render(), vec![Cell { glyph: '\u{2726}', color: (19, 9, 4) }]);
    for _ in 2..10 {
        engine.age();
    }
    assert_eq!(engine.render(), vec![Cell { glyph: '*', color: (200, 100, 50) }]);
}

#[test]
fn a_text_without_periods_is_drawn_once_as_it_stands() {
    let mut config = TwinkleConfig::default();
    config.base_color = (1, 2, 3);
    // A range that no text could meet is of no account where nothing twinkles.
    config.min_twinkle_count = Some(5);
    config.max_twinkle_count = Some(2);
    let engine = TwinkleEngine::new("Hello World!", config).unwrap();
    assert!(!engine.is_animated());
    assert_eq!(engine.active_count(), 0);
    assert_eq!(engine.free_anchors(), Vec::<usize>::new());
    let expected: Vec<Cell> =
        "Hello World!".chars().map(|glyph| Cell { glyph, color: (1, 2, 3) }).collect();
    assert_eq!(engine.render(), expected);

    let engine = TwinkleEngine::new("", config).unwrap();
    assert!(!engine.is_animated());
    assert_eq!(engine.render(), vec![]);
}

#[test]
fn with_one_to_three_twinkles_on_three_periods_the_count_stays_in_range() {
    let mut engine = TwinkleEngine::new("a.b.c.", always_updating(Some(1), Some(3))).unwrap();
    for _ in 0..2000 {
        let target = engine.step().unwrap();
        assert!((1..=3).contains(&target));
        let count = engine.active_count();
        assert!((1..=3).contains(&count), "{} twinkles", count);
        assert!(count >= target);
        for (anchor, state) in engine.states.iter() {
            assert!([1usize, 3, 5].contains(anchor));
            assert!(state.phase <= 1_000_000);
            assert!((MIN_LIFETIME..MAX_LIFETIME).contains(&state.duration));
            assert!((MIN_PAUSE..MAX_PAUSE).contains(&state.pause_duration));
        }
        let cells = engine.render();
        assert_eq!(cells.len(), 6);
        assert_eq!(cells[0], Cell { glyph: 'a', color: (255, 255, 255) });
        assert_eq!(cells[2], Cell { glyph: 'b', color: (255, 255, 255) });
        assert_eq!(cells[4], Cell { glyph: 'c', color: (255, 255, 255) });
    }
}

#[test]
fn the_count_never_passes_the_number_of_periods() {
    let config = TwinkleConfig {
        twinkle_ratio: Some(5_000_000),
        twinkling_percentage: 1_000_000,
        ..TwinkleConfig::default()
    };
    let mut engine = TwinkleEngine::new("..x..", config).unwrap();
    for _ in 0..500 {
        assert_eq!(engine.step(), Some(20));
        assert_eq!(engine.active_count(), 4);
        assert_eq!(engine.free_anchors(), Vec::<usize>::new());
    }
}

#[test]
fn an_update_tops_up_to_its_target() {
    let mut engine = TwinkleEngine::new("..........", always_updating(None, None)).unwrap();
    engine.top_up(4);
    assert_eq!(engine.active_count(), 4);
    assert_eq!(engine.free_anchors().len(), 6);
    for state in engine.states.values() {
        assert_eq!(state.phase, 0);
    }
    // A count at or above the target is left alone.
    let before = engine.states.clone();
    engine.top_up(4);
    assert_eq!(engine.states, before);
    engine.top_up(2);
    assert_eq!(engine.states, before);
    engine.top_up(0);
    assert_eq!(engine.states, before);
    engine.update(4);
    assert_eq!(engine.active_count(), 4);
    for (anchor, state) in engine.states.iter() {
        assert_eq!(state.duration, before[anchor].duration);
        assert_eq!(state.pause_duration, before[anchor].pause_duration);
        assert_eq!(state.phase, 1_000_000_000_000 / state.duration);
    }
    engine.top_up(100);
    assert_eq!(engine.active_count(), 10);
}

#[test]
fn chance_picks_among_the_free_periods() {
    let mut picked = std::collections::HashSet::new();
    for _ in 0..200 {
        let mut engine = TwinkleEngine::new("..........", always_updating(None, None)).unwrap();
        engine.top_up(1);
        assert_eq!(engine.active_count(), 1);
        picked.extend(engine.states.keys().copied());
    }
    assert!(picked.len() > 1);
    assert!(picked.iter().all(|&anchor| anchor < 10));
}

#[test]
fn a_frame_without_an_update_leaves_the_twinkles_alone() {
    let config = TwinkleConfig { twinkling_percentage: 0, ..TwinkleConfig::default() };
    let mut engine = TwinkleEngine::new("a.b.c.", config).unwrap();
    assert!(engine.start_twinkle(1, 20_000_000, 100_000));
    let before = engine.states.clone();
    for _ in 0..100 {
        assert_eq!(engine.step(), None);
        assert_eq!(engine.states, before);
    }
}

#[test]
fn the_default_engine_updates_on_most_frames() {
    let mut engine = TwinkleEngine::new("a.b.c.", TwinkleConfig::default()).unwrap();
    let mut updates = 0;
    for _ in 0..1000 {
        if let Some(target) = engine.step() {
            assert_eq!(target, 1);
            updates += 1;
            assert!(engine.active_count() >= 1);
        }
        assert!(engine.active_count() <= 3);
    }
    assert!(updates > 600 && updates < 950, "{} updates", updates);
}

#[test]
fn the_engine_refuses_what_it_cannot_animate() {
    let mut config = TwinkleConfig::default();
    config.speed = 0;
    assert_eq!(TwinkleEngine::new("a.b", config).err(), Some(ConfigError::ZeroSpeed));
    assert_eq!(TwinkleEngine::new("ab", config).err(), Some(ConfigError::ZeroSpeed));
    let mut config = TwinkleConfig::default();
    config.speed = 1;
    config.duration = u64::MAX;
    assert_eq!(TwinkleEngine::new("a.b", config).err(), Some(ConfigError::TooLarge));

    let empty = always_updating(Some(3), Some(2));
    assert_eq!(TwinkleEngine::new("a.b.c.", empty).err(), Some(ConfigError::EmptyCountRange));
    assert_eq!(TwinkleEngine::new(".", empty).err(), Some(ConfigError::EmptyCountRange));
    assert!(TwinkleEngine::new("a.b.c.", always_updating(Some(3), Some(3))).is_ok());
    assert!(TwinkleEngine::new("a.b.c.", always_updating(Some(0), Some(0))).is_ok());

    // A zero speed is named before anything else.
    let mut config = always_updating(Some(3), Some(2));
    config.speed = 0;
    assert_eq!(TwinkleEngine::new("a.b", config).err(), Some(ConfigError::ZeroSpeed));
}

#[test]
fn a_minimum_above_the_number_of_periods_counts_as_that_number() {
    let config = TwinkleConfig {
        speed: 100,
        duration: 300,
        cycles: 1,
        ..always_updating(Some(2), Some(3))
    };
    let mut engine = TwinkleEngine::new("a.b", config).unwrap();
    assert_eq!(engine.anchors, vec![1]);
    assert_eq!(engine.clock.total_frames, 3);
    let mut tick = engine.clock.first_tick();
    let mut frames = 0;
    loop {
        assert_eq!(engine.step(), Some(1));
        assert_eq!(engine.active_count(), 1);
        assert!(engine.states.contains_key(&1));
        assert_eq!(engine.render().len(), 3);
        frames += 1;
        match engine.clock.next_tick(tick) {
            Some(next) => tick = next,
            None => break,
        }
    }
    assert_eq!(frames, 3);

    let too_many = always_updating(Some(4), Some(9));
    let mut engine = TwinkleEngine::new("a.b.c.", too_many).unwrap();
    for _ in 0..200 {
        assert_eq!(engine.step(), Some(3));
        assert_eq!(engine.active_count(), 3);
    }
    let mut engine = TwinkleEngine::new("a.b.c.", always_updating(Some(2), Some(9))).unwrap();
    for _ in 0..200 {
        let target = engine.step().unwrap();
        assert!((2..=3).contains(&target));
        assert!((2..=3).contains(&engine.active_count()));
    }
}

#[test]
fn a_text_without_periods_is_accepted_whatever_the_duration_and_the_counts() {
    let config = TwinkleConfig {
        base_color: (9, 8, 7),
        speed: 1,
        duration: 1 << 48,
        cycles: 0,
        min_twinkle_count: Some(7),
        max_twinkle_count: Some(2),
        ..TwinkleConfig::default()
    };
    for text in ["Hello World!", "", "x"] {
        let mut engine = TwinkleEngine::new(text, config).unwrap();
        assert!(!engine.is_animated());
        // The clock is that of a single still frame: the text is drawn once.
        assert_eq!(engine.clock.total_frames, 1);
        assert_eq!(engine.clock.cycles, 1);
        assert_eq!(engine.clock.next_tick(engine.clock.first_tick()), None);
        assert_eq!(engine.step(), None);
        assert_eq!(engine.step_on(0), None);
        let expected: Vec<Cell> =
            text.chars().map(|glyph| Cell { glyph, color: (9, 8, 7) }).collect();
        assert_eq!(engine.render(), expected);
    }
    // With a period the same duration is too long to be counted in frames.
    assert_eq!(TwinkleEngine::new("Hello World.", config).err(), Some(ConfigError::TooLarge));
}

#[test]
fn the_roll_decides_whether_a_frame_updates() {
    let mut engine = TwinkleEngine::new("a.b.c.", TwinkleConfig::default()).unwrap();
    // The default share is eight tenths of the frames.
    assert_eq!(engine.step_on(800_000), None);
    assert_eq!(engine.step_on(999_999), None);
    assert_eq!(engine.active_count(), 0);
    assert_eq!(engine.step_on(799_999), Some(1));
    assert_eq!(engine.active_count(), 1);
    let before = engine.states.clone();
    assert_eq!(engine.step_on(800_000), None);
    assert_eq!(engine.states, before);
    assert_eq!(engine.step_on(0), Some(1));
    assert_eq!(engine.active_count(), 1);
    for (anchor, state) in engine.states.iter() {
        assert_eq!(state.phase, 1_000_000_000_000 / before[anchor].duration);
    }

    let never = TwinkleConfig { twinkling_percentage: 0, ..TwinkleConfig::default() };
    let mut engine = TwinkleEngine::new("a.b.c.", never).unwrap();
    assert_eq!(engine.step_on(0), None);
    let always = TwinkleConfig { twinkling_percentage: 1_000_000, ..TwinkleConfig::default() };
    let mut engine = TwinkleEngine::new("a.b.c.", always).unwrap();
    assert_eq!(engine.step_on(999_999), Some(1));
    let over = TwinkleConfig { twinkling_percentage: u64::MAX, ..TwinkleConfig::default() };
    let mut engine = TwinkleEngine::new("a.b.c.", over).unwrap();
    assert_eq!(engine.step_on(999_999), Some(1));
}

#[test]
fn a_range_from_nothing_to_nothing_starts_nothing() {
    let mut engine = TwinkleEngine::new("a.b.c.", always_updating(Some(0), Some(0))).unwrap();
    for _ in 0..50 {
        assert_eq!(engine.step(), Some(0));
        assert_eq!(engine.active_count(), 0);
    }
}
