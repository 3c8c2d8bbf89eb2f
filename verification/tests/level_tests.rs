use canicasbrawl::level_generation::{
    body_key, finish_target_micros, leader_is_near_the_horizon, pick_module_from_rolls,
    race_time_is_up,
    decide_level_action, effect_variant, module_acts_as_gate, module_pool, pick_module,
    record_finish, record_module, resolve_slot_variant, should_skip_effect, slot_candidates,
    weighted_modules, EffectVariant, LevelGen, LevelGenerationAction,
};
use rand::rngs::SmallRng;
use rand::{Rng, SeedableRng};

#[test]
fn weighted_draw_repeats_each_module_by_weight() {
    let draw = weighted_modules();
    assert_eq!(draw.len(), 35);
    for (name, weight) in module_pool() {
        assert_eq!(draw.iter().filter(|d| **d == name).count(), weight);
    }
    assert_eq!(&draw[0..5], &["crosses"; 5]);
    assert_eq!(draw[34], "bouncy_walls");
}

#[test]
fn first_module_is_never_spheres() {
    let draw = weighted_modules();
    let g = LevelGen::new();
    let spheres = draw.iter().position(|d| *d == "spheres").unwrap();
    assert_eq!(pick_module(&g, &draw, spheres), None);
    assert_eq!(pick_module(&g, &draw, 0), Some("crosses"));
}

#[test]
fn no_module_twice_in_a_row() {
    let draw = weighted_modules();
    let mut g = LevelGen::new();
    record_module(&mut g, "crosses");
    assert_eq!(pick_module(&g, &draw, 0), None);
    let spheres = draw.iter().position(|d| *d == "spheres").unwrap();
    assert_eq!(pick_module(&g, &draw, spheres), Some("spheres"));
    assert_eq!(g.modules_spawned, 1);
}

#[test]
fn level_actions() {
    let mut g = LevelGen::new();
    assert_eq!(decide_level_action(&g, false, true), LevelGenerationAction::GenerateModule);
    assert_eq!(decide_level_action(&g, false, false), LevelGenerationAction::DoNothing);
    assert_eq!(decide_level_action(&g, true, true), LevelGenerationAction::SpawnFinishLine);
    record_finish(&mut g);
    assert_eq!(decide_level_action(&g, true, true), LevelGenerationAction::DoNothing);
    assert_eq!(decide_level_action(&g, false, true), LevelGenerationAction::DoNothing);
}

#[test]
fn gates() {
    assert!(module_acts_as_gate("toruses"));
    assert!(module_acts_as_gate("bouncy_walls"));
    assert!(module_acts_as_gate("bars"));
    assert!(!module_acts_as_gate("crosses"));
}

#[test]
fn effect_variants() {
    assert_eq!(effect_variant("freeze"), Some(EffectVariant::Freeze));
    assert_eq!(effect_variant("shrink"), Some(EffectVariant::Shrink));
    assert_eq!(effect_variant("swap"), Some(EffectVariant::Swap));
    assert_eq!(effect_variant("boom"), None);
    assert!(should_skip_effect("swap", true));
    assert!(!should_skip_effect("swap", false));
    assert!(!should_skip_effect("freeze", true));
}

#[test]
fn slot_candidates_default_and_listed() {
    let defaults = slot_candidates(&vec![], false);
    assert_eq!(defaults, vec!["freeze", "freeze", "freeze", "freeze", "swap", "swap", "swap", "shrink"]);
    let high = slot_candidates(&vec![], true);
    assert_eq!(high, vec!["freeze", "freeze", "freeze", "freeze", "shrink"]);
    let listed = vec!["swap".to_string(), "shrink".to_string()];
    assert_eq!(slot_candidates(&listed, true), vec!["shrink"]);
    assert!(slot_candidates(&vec!["swap".to_string()], true).is_empty());
}

#[test]
fn slot_variant_is_drawn_from_the_candidates() {
    let mut rng = SmallRng::seed_from_u64(7);
    let listed = vec!["swap".to_string(), "shrink".to_string()];
    for _ in 0..20 {
        let v = resolve_slot_variant(&listed, false, false, &mut rng).unwrap();
        assert!(v == "swap" || v == "shrink");
        assert_eq!(resolve_slot_variant(&listed, true, false, &mut rng).as_deref(), Some("shrink"));
    }
    assert_eq!(resolve_slot_variant(&vec!["swap".to_string()], true, false, &mut rng), None);
}

#[test]
fn skipped_slot_stays_empty_and_leaves_the_generator() {
    let listed = vec!["freeze".to_string()];
    let mut rng = SmallRng::seed_from_u64(11);
    let untouched = rng.clone();
    assert_eq!(resolve_slot_variant(&listed, false, true, &mut rng), None);
    let mut a = rng;
    let mut b = untouched;
    assert_eq!(a.gen::<u64>(), b.gen::<u64>());
}

#[test]
fn slot_draw_skips_about_two_fifths_of_the_slots() {
    // the caller's first draw, as the game makes it, then the library's
    let mut rng = SmallRng::seed_from_u64(3);
    let listed = vec!["freeze".to_string()];
    let mut empty = 0;
    for _ in 0..10_000 {
        let skipped = rng.gen_range(0.0_f32..1.0) < 0.40;
        match resolve_slot_variant(&listed, false, skipped, &mut rng) {
            None => {
                assert!(skipped);
                empty += 1;
            }
            Some(v) => {
                assert!(!skipped);
                assert_eq!(v, "freeze");
            }
        }
    }
    assert!((3_700..4_300).contains(&empty), "{}", empty);
}

#[test]
fn body_keys_mix_the_object_into_the_upper_bits() {
    assert_eq!(body_key(0, 0), 1u64 << 32);
    assert_eq!(body_key(0xdead_beef, 2), 0xdead_beef ^ (3u64 << 32));
    assert_eq!(body_key(u64::MAX, 0), u64::MAX ^ (1u64 << 32));
    let keys: Vec<u64> = (0..100).map(|i| body_key(12345, i)).collect();
    for i in 0..keys.len() {
        for j in 0..i {
            assert_ne!(keys[i], keys[j]);
        }
    }
}

#[test]
fn some_roll_is_always_accepted() {
    let draw = weighted_modules();
    for last in [None, Some("crosses"), Some("zigzag"), Some("spheres"), Some("toruses")] {
        for spawned in [0u32, 1, 7] {
            let g = LevelGen { last_module: last, modules_spawned: spawned, finish_spawned: false };
            assert!((0..draw.len()).any(|roll| pick_module(&g, &draw, roll).is_some()));
        }
    }
}

#[test]
fn rolling_again_until_a_module_is_accepted() {
    let draw = weighted_modules();
    let first = LevelGen::new();
    // spheres (rolls 10..15) cannot open the level; crosses can
    assert_eq!(pick_module_from_rolls(&first, &draw, &vec![10, 12, 0]), Some((2, "crosses")));
    assert_eq!(pick_module_from_rolls(&first, &draw, &vec![10, 14]), None);
    assert_eq!(pick_module_from_rolls(&first, &draw, &vec![]), None);
    let after_zigzag = LevelGen { last_module: Some("zigzag"), modules_spawned: 3, finish_spawned: false };
    assert_eq!(pick_module_from_rolls(&after_zigzag, &draw, &vec![5, 9, 10]), Some((2, "spheres")));
}

#[test]
fn level_timing_and_distance_rules() {
    assert!(leader_is_near_the_horizon(-10_000, -12_999));
    assert!(!leader_is_near_the_horizon(-10_000, -13_000));
    assert!(leader_is_near_the_horizon(i64::MIN, i64::MAX));
    assert!(!leader_is_near_the_horizon(i64::MAX, i64::MIN));
    assert_eq!(finish_target_micros(60_000_000), 48_000_000);
    assert_eq!(finish_target_micros(5_000_000), -7_000_000);
    assert!(race_time_is_up(48_000_000, 48_000_000));
    assert!(!race_time_is_up(47_999_999, 48_000_000));
    assert!(race_time_is_up(0, -7_000_000));
}
