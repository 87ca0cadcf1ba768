use lightcycle::canvas::Rgba;
use lightcycle::effects::{ItemEffectGlobal, ItemEffectIndividual, EFFECT_DURATION_MICROS};
use lightcycle::heading::Heading;
use lightcycle::input::Action;
use lightcycle::kinetic::{PLAYER_BASE_RADIUS, PLAYER_BASE_SPEED, SPEED_LIMIT};
use lightcycle::mapper::WorldPoint;
use lightcycle::player::{Player, PlayerGapState, GAP_MICROS};
use lightcycle::raster::RADIUS_LIMIT;
use lightcycle::timer::Timer;

fn player() -> Player {
    Player::new(
        "PURPLE".to_string(),
        Rgba { r: 127, g: 0, b: 127, a: 255 },
        WorldPoint::new(0, 0),
        Heading::east(),
        (Action::TurnLeft(0), Action::TurnRight(0)),
    )
}

#[test]
fn timer_counts_up_to_its_duration() {
    let mut t = Timer::new(1000);
    assert_eq!((t.elapsed(), t.duration(), t.finished()), (0, 1000, false));
    t.tick(400);
    assert_eq!((t.elapsed(), t.finished()), (400, false));
    t.tick(599);
    assert_eq!((t.elapsed(), t.finished()), (999, false));
    t.tick(1);
    assert_eq!((t.elapsed(), t.finished()), (1000, true));
    t.tick(500);
    assert_eq!((t.elapsed(), t.finished()), (1000, true));
}

#[test]
fn timer_stops_at_its_duration_on_a_long_tick() {
    let mut t = Timer::new(1000);
    t.tick(u64::MAX);
    assert_eq!((t.elapsed(), t.finished()), (1000, true));
    let mut u = Timer::new(u64::MAX);
    u.tick(u64::MAX - 1);
    assert!(!u.finished());
    u.tick(u64::MAX);
    assert!(u.finished());
}

#[test]
fn timer_of_no_duration_finishes_on_its_first_tick() {
    let mut t = Timer::new(0);
    assert!(!t.finished());
    t.tick(0);
    assert!(t.finished());
}

#[test]
fn timer_from_millis() {
    let t = Timer::from_millis(300);
    assert_eq!(t.duration(), 300_000);
    let long = Timer::from_millis(u64::MAX);
    assert_eq!(long.duration(), u64::MAX);
}

#[test]
fn new_player_has_base_speed_and_radius() {
    let p = player();
    assert!(p.alive);
    assert!(p.item_effects.is_empty());
    assert_eq!(p.speed_mod(), 0);
    assert_eq!(p.thickness_mod(), 0);
    assert_eq!(p.speed(), PLAYER_BASE_SPEED);
    assert_eq!(p.radius(), PLAYER_BASE_RADIUS);
    assert!(!p.is_free_flying());
    assert!(!p.is_steering_inverse());
    assert!(!p.gap_state.gapping);
}

#[test]
fn speed_stacks_as_a_power_of_two() {
    for n in 0..5u32 {
        for m in 0..5u32 {
            let mut p = player();
            for _ in 0..n {
                p.add_effect(ItemEffectIndividual::Speed);
            }
            for _ in 0..m {
                p.add_effect(ItemEffectIndividual::Slowness);
            }
            assert_eq!(p.speed_mod(), n as i128 - m as i128);
            let expected = if n >= m {
                PLAYER_BASE_SPEED << (n - m)
            } else {
                PLAYER_BASE_SPEED >> (m - n)
            };
            assert_eq!(p.speed(), expected);
            assert_eq!(p.thickness_mod(), 0);
            assert_eq!(p.radius(), PLAYER_BASE_RADIUS);
        }
    }
}

#[test]
fn thickness_stacks_as_a_power_of_two() {
    let mut p = player();
    p.add_effect(ItemEffectIndividual::Thick);
    p.add_effect(ItemEffectIndividual::Thick);
    p.add_effect(ItemEffectIndividual::Thick);
    p.add_effect(ItemEffectIndividual::Thin);
    assert_eq!(p.thickness_mod(), 2);
    assert_eq!(p.radius(), 4 * PLAYER_BASE_RADIUS);
    assert_eq!(p.speed(), PLAYER_BASE_SPEED);
    let mut q = player();
    q.add_effect(ItemEffectIndividual::Thin);
    q.add_effect(ItemEffectIndividual::Thin);
    assert_eq!(q.thickness_mod(), -2);
    assert_eq!(q.radius(), PLAYER_BASE_RADIUS / 4);
}

#[test]
fn stacking_has_no_cap_but_the_limits_of_the_numbers() {
    let mut p = player();
    for _ in 0..100 {
        p.add_effect(ItemEffectIndividual::Speed);
        p.add_effect(ItemEffectIndividual::Thick);
    }
    assert_eq!(p.speed_mod(), 100);
    assert_eq!(p.thickness_mod(), 100);
    assert_eq!(p.speed(), SPEED_LIMIT);
    assert_eq!(p.radius(), RADIUS_LIMIT);
    let mut q = player();
    for _ in 0..100 {
        q.add_effect(ItemEffectIndividual::Slowness);
        q.add_effect(ItemEffectIndividual::Thin);
    }
    assert_eq!(q.speed_mod(), -100);
    assert_eq!(q.speed(), 0);
    assert_eq!(q.radius(), 0);
}

#[test]
fn effects_elapse_after_five_seconds() {
    let mut p = player();
    p.add_effect(ItemEffectIndividual::Speed);
    p.add_effect(ItemEffectIndividual::Speed);
    p.add_effect(ItemEffectIndividual::Slowness);
    assert_eq!(p.speed(), 2 * PLAYER_BASE_SPEED);
    p.update_item_effects(EFFECT_DURATION_MICROS - 1);
    assert_eq!(p.item_effects.len(), 3);
    assert_eq!(p.speed(), 2 * PLAYER_BASE_SPEED);
    p.update_item_effects(1);
    assert!(p.item_effects.is_empty());
    assert_eq!(p.speed_mod(), 0);
    assert_eq!(p.speed(), PLAYER_BASE_SPEED);
}

#[test]
fn effects_elapse_one_by_one_and_keep_their_order() {
    let mut p = player();
    p.add_effect(ItemEffectIndividual::Speed);
    p.update_item_effects(1_000_000);
    p.add_effect(ItemEffectIndividual::Thick);
    p.update_item_effects(1_000_000);
    p.add_effect(ItemEffectIndividual::FreeFlying);
    p.update_item_effects(1_000_000);
    p.add_effect(ItemEffectIndividual::Slowness);
    let kinds: Vec<ItemEffectIndividual> = p.item_effects.iter().map(|e| e.0).collect();
    assert_eq!(
        kinds,
        vec![
            ItemEffectIndividual::Speed,
            ItemEffectIndividual::Thick,
            ItemEffectIndividual::FreeFlying,
            ItemEffectIndividual::Slowness
        ]
    );
    let elapsed: Vec<u64> = p.item_effects.iter().map(|e| e.1.elapsed()).collect();
    assert_eq!(elapsed, vec![3_000_000, 2_000_000, 1_000_000, 0]);
    // Two more seconds end the first effect only.
    p.update_item_effects(2_000_000);
    let kinds: Vec<ItemEffectIndividual> = p.item_effects.iter().map(|e| e.0).collect();
    assert_eq!(
        kinds,
        vec![
            ItemEffectIndividual::Thick,
            ItemEffectIndividual::FreeFlying,
            ItemEffectIndividual::Slowness
        ]
    );
    assert_eq!(p.speed_mod(), -1);
    assert!(p.is_free_flying());
    // Two more end the next two.
    p.update_item_effects(2_000_000);
    let kinds: Vec<ItemEffectIndividual> = p.item_effects.iter().map(|e| e.0).collect();
    assert_eq!(kinds, vec![ItemEffectIndividual::Slowness]);
    assert!(!p.is_free_flying());
    assert_eq!(p.thickness_mod(), 0);
}

#[test]
fn a_tick_of_no_length_ends_no_effect() {
    let mut p = player();
    p.add_effect(ItemEffectIndividual::Speed);
    p.update_item_effects(0);
    assert_eq!(p.item_effects.len(), 1);
    assert_eq!(p.item_effects[0].1.elapsed(), 0);
}

#[test]
fn boolean_effects_go_by_presence() {
    let mut p = player();
    p.add_effect(ItemEffectIndividual::FreeFlying);
    p.add_effect(ItemEffectIndividual::FreeFlying);
    assert!(p.is_free_flying());
    assert!(!p.is_steering_inverse());
    p.add_effect(ItemEffectIndividual::InverseSteer);
    assert!(p.is_steering_inverse());
    assert_eq!(p.speed_mod(), 0);
    assert_eq!(p.thickness_mod(), 0);
}

#[test]
fn inverted_steering_swaps_the_keys_while_it_lasts() {
    let mut p = player();
    assert_eq!(p.get_current_steer_keys(), (Action::TurnLeft(0), Action::TurnRight(0)));
    p.add_effect(ItemEffectIndividual::InverseSteer);
    assert_eq!(p.get_current_steer_keys(), (Action::TurnRight(0), Action::TurnLeft(0)));
    // A second one does not swap them back.
    p.add_effect(ItemEffectIndividual::InverseSteer);
    assert_eq!(p.get_current_steer_keys(), (Action::TurnRight(0), Action::TurnLeft(0)));
    p.update_item_effects(EFFECT_DURATION_MICROS);
    assert_eq!(p.get_current_steer_keys(), (Action::TurnLeft(0), Action::TurnRight(0)));
}

#[test]
fn effect_labels() {
    assert_eq!(ItemEffectIndividual::Speed.get_text(), "fast");
    assert_eq!(ItemEffectIndividual::Slowness.get_text(), "slow");
    assert_eq!(ItemEffectIndividual::Thin.get_text(), "thin");
    assert_eq!(ItemEffectIndividual::Thick.get_text(), "thick");
    assert_eq!(ItemEffectIndividual::FreeFlying.get_text(), "free");
    assert_eq!(ItemEffectIndividual::InverseSteer.get_text(), "<-->");
    assert_eq!(ItemEffectGlobal::Clear.get_text(), "clear");
    assert_eq!(ItemEffectGlobal::MoreItems.get_text(), "more");
}

#[test]
fn effects_from_draws() {
    let selfs: Vec<ItemEffectIndividual> = (0..5).map(ItemEffectIndividual::selfeffect_from).collect();
    assert_eq!(
        selfs,
        vec![
            ItemEffectIndividual::Speed,
            ItemEffectIndividual::Slowness,
            ItemEffectIndividual::Thin,
            ItemEffectIndividual::Thick,
            ItemEffectIndividual::FreeFlying
        ]
    );
    let others: Vec<ItemEffectIndividual> = (0..5).map(ItemEffectIndividual::otherseffect_from).collect();
    assert_eq!(
        others,
        vec![
            ItemEffectIndividual::Speed,
            ItemEffectIndividual::Slowness,
            ItemEffectIndividual::Thin,
            ItemEffectIndividual::Thick,
            ItemEffectIndividual::InverseSteer
        ]
    );
    assert_eq!(ItemEffectGlobal::from_draw(0), ItemEffectGlobal::Clear);
    assert_eq!(ItemEffectGlobal::from_draw(1), ItemEffectGlobal::MoreItems);
}

#[test]
fn random_effects_stay_in_their_sets() {
    let mut seen_self = std::collections::HashSet::new();
    let mut seen_others = std::collections::HashSet::new();
    let mut seen_global = std::collections::HashSet::new();
    for _ in 0..2000 {
        let s = ItemEffectIndividual::get_random_selfeffect();
        assert_ne!(s, ItemEffectIndividual::InverseSteer);
        seen_self.insert(s.get_text());
        let o = ItemEffectIndividual::get_random_otherseffect();
        assert_ne!(o, ItemEffectIndividual::FreeFlying);
        seen_others.insert(o.get_text());
        seen_global.insert(ItemEffectGlobal::get_random().get_text());
    }
    assert_eq!(seen_self.len(), 5);
    assert_eq!(seen_others.len(), 5);
    assert_eq!(seen_global.len(), 2);
}

#[test]
fn gap_state_alternates_between_painting_and_gapping() {
    let mut g = PlayerGapState::painting_for(Timer::from_millis(2000));
    assert!(!g.gapping);
    g.update_with(1_999_999, Timer::from_millis(1234));
    assert!(!g.gapping);
    assert_eq!(g.timer.elapsed(), 1_999_999);
    g.update_with(1, Timer::from_millis(1234));
    assert!(g.gapping);
    assert_eq!((g.timer.elapsed(), g.timer.duration()), (0, GAP_MICROS));
    g.update_with(GAP_MICROS - 1, Timer::from_millis(1234));
    assert!(g.gapping);
    g.update_with(1, Timer::from_millis(1234));
    assert!(!g.gapping);
    assert_eq!((g.timer.elapsed(), g.timer.duration()), (0, 1_234_000));
}

#[test]
fn gap_state_flips_once_on_a_long_tick() {
    let mut g = PlayerGapState::painting_for(Timer::from_millis(1000));
    g.update_with(60_000_000, Timer::from_millis(1500));
    assert!(g.gapping);
    assert_eq!(g.timer.elapsed(), 0);
}

#[test]
fn random_painting_stretches_last_one_to_five_seconds() {
    let mut shortest = u64::MAX;
    let mut longest = 0;
    for _ in 0..5000 {
        let t = PlayerGapState::random_timer();
        assert!(!t.finished());
        assert_eq!(t.elapsed(), 0);
        assert!(t.duration() >= 1_000_000 && t.duration() < 5_000_000);
        assert_eq!(t.duration() % 1000, 0);
        shortest = shortest.min(t.duration());
        longest = longest.max(t.duration());
    }
    // The draws are spread over the range, not stuck at one of its ends.
    assert!(shortest < 1_500_000);
    assert!(longest > 4_500_000);
    let g = PlayerGapState::new();
    assert!(!g.gapping);
    assert!(g.timer.duration() >= 1_000_000 && g.timer.duration() < 5_000_000);
}

#[test]
fn random_gap_update_rolls_a_new_painting_stretch() {
    let mut g = PlayerGapState::painting_for(Timer::new(10));
    g.update(10);
    assert!(g.gapping);
    assert_eq!(g.timer.duration(), GAP_MICROS);
    g.update(GAP_MICROS);
    assert!(!g.gapping);
    assert!(g.timer.duration() >= 1_000_000 && g.timer.duration() < 5_000_000);
    assert_eq!(g.timer.elapsed(), 0);
}
