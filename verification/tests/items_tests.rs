use lightcycle::effects::{ItemEffectGlobal, ItemEffectIndividual};
use lightcycle::items::{
    is_within_reach, spawn_item, Item, ItemSpawnState, PICKUP_RADIUS, PICKUP_RADIUS_SQUARED,
    SPAWN_REACH,
};
use lightcycle::mapper::{WorldPoint, WORLD_ONE};
use lightcycle::timer::Timer;

#[test]
fn pickup_radius_is_a_fraction_of_the_arena() {
    assert_eq!(PICKUP_RADIUS * 512, 45 * WORLD_ONE);
    assert_eq!(PICKUP_RADIUS_SQUARED, (PICKUP_RADIUS as i128) * (PICKUP_RADIUS as i128));
    assert!(SPAWN_REACH * 10 <= 8 * WORLD_ONE);
    assert!((SPAWN_REACH + 1) * 10 > 8 * WORLD_ONE);
}

#[test]
fn items_from_draws() {
    assert_eq!(Item::from_draws(0, 0), Item::SelfEffect(ItemEffectIndividual::Speed));
    assert_eq!(Item::from_draws(0, 4), Item::SelfEffect(ItemEffectIndividual::FreeFlying));
    assert_eq!(Item::from_draws(1, 1), Item::OthersEffect(ItemEffectIndividual::Slowness));
    assert_eq!(Item::from_draws(1, 4), Item::OthersEffect(ItemEffectIndividual::InverseSteer));
    assert_eq!(Item::from_draws(2, 0), Item::GlobalEffect(ItemEffectGlobal::Clear));
    assert_eq!(Item::from_draws(2, 1), Item::GlobalEffect(ItemEffectGlobal::MoreItems));
}

#[test]
fn item_labels() {
    assert_eq!(Item::SelfEffect(ItemEffectIndividual::Thick).get_text(), "thick");
    assert_eq!(Item::OthersEffect(ItemEffectIndividual::InverseSteer).get_text(), "<-->");
    assert_eq!(Item::GlobalEffect(ItemEffectGlobal::Clear).get_text(), "clear");
    assert_eq!(Item::GlobalEffect(ItemEffectGlobal::MoreItems).get_text(), "more");
}

#[test]
fn random_items_never_grant_what_is_excluded() {
    let mut scopes = [0usize; 3];
    for _ in 0..3000 {
        match Item::get_random() {
            Item::SelfEffect(e) => {
                scopes[0] += 1;
                assert_ne!(e, ItemEffectIndividual::InverseSteer);
            }
            Item::OthersEffect(e) => {
                scopes[1] += 1;
                assert_ne!(e, ItemEffectIndividual::FreeFlying);
            }
            Item::GlobalEffect(_) => scopes[2] += 1,
        }
    }
    assert!(scopes.iter().all(|n| *n > 500), "scopes: {:?}", scopes);
}

#[test]
fn reach_is_a_closed_disc() {
    let p = WorldPoint::new(1000, -1000);
    assert!(is_within_reach(p, p));
    assert!(is_within_reach(p, WorldPoint::new(1000 + PICKUP_RADIUS, -1000)));
    assert!(!is_within_reach(p, WorldPoint::new(1000 + PICKUP_RADIUS + 1, -1000)));
    assert!(is_within_reach(p, WorldPoint::new(1000, -1000 - PICKUP_RADIUS)));
    assert!(!is_within_reach(p, WorldPoint::new(1000, -1000 - PICKUP_RADIUS - 1)));
    // 55296 : 73728 : 92160 is 3 : 4 : 5.
    assert!(is_within_reach(p, WorldPoint::new(1000 + 55296, -1000 + 73728)));
    assert!(!is_within_reach(p, WorldPoint::new(1000 + 55297, -1000 + 73728)));
    // Inside the square around the disc but outside the disc.
    assert!(!is_within_reach(p, WorldPoint::new(1000 + 80000, -1000 + 80000)));
}

#[test]
fn reach_between_the_farthest_points() {
    let a = WorldPoint::new(i64::MIN, i64::MIN);
    let b = WorldPoint::new(i64::MAX, i64::MAX);
    assert!(!is_within_reach(a, b));
    assert!(is_within_reach(b, b));
}

#[test]
fn spawner_counts_down_and_rerolls() {
    let mut s = ItemSpawnState { time_to_next_spawn: Timer::from_millis(3000) };
    assert!(!s.update_with(2_999_999, Timer::from_millis(4000)));
    assert_eq!(s.time_to_next_spawn.elapsed(), 2_999_999);
    assert_eq!(s.time_to_next_spawn.duration(), 3_000_000);
    assert!(s.update_with(1, Timer::from_millis(4000)));
    assert_eq!(s.time_to_next_spawn.elapsed(), 0);
    assert_eq!(s.time_to_next_spawn.duration(), 4_000_000);
    assert!(!s.update_with(0, Timer::from_millis(5000)));
    assert_eq!(s.time_to_next_spawn.duration(), 4_000_000);
}

#[test]
fn random_waits_last_three_to_six_seconds() {
    let mut shortest = u64::MAX;
    let mut longest = 0;
    for _ in 0..5000 {
        let t = ItemSpawnState::random_timer();
        assert!(t.duration() >= 3_000_000 && t.duration() < 6_000_000);
        assert_eq!(t.duration() % 1000, 0);
        assert_eq!(t.elapsed(), 0);
        shortest = shortest.min(t.duration());
        longest = longest.max(t.duration());
    }
    assert!(shortest < 3_300_000);
    assert!(longest > 5_700_000);
    let mut s = ItemSpawnState::new();
    assert!(!s.update(2_999_999));
    assert!(s.update(3_000_001));
    assert!(s.time_to_next_spawn.duration() >= 3_000_000);
    assert_eq!(s.time_to_next_spawn.elapsed(), 0);
}

#[test]
fn random_positions_lie_in_the_spawn_area() {
    let (mut lo_x, mut hi_x, mut lo_y, mut hi_y) = (i64::MAX, i64::MIN, i64::MAX, i64::MIN);
    for _ in 0..5000 {
        let p = ItemSpawnState::random_position();
        assert!(p.x().abs() <= SPAWN_REACH && p.y().abs() <= SPAWN_REACH);
        lo_x = lo_x.min(p.x());
        hi_x = hi_x.max(p.x());
        lo_y = lo_y.min(p.y());
        hi_y = hi_y.max(p.y());
    }
    assert!(lo_x < -SPAWN_REACH / 2 && hi_x > SPAWN_REACH / 2);
    assert!(lo_y < -SPAWN_REACH / 2 && hi_y > SPAWN_REACH / 2);
    let pickup = spawn_item();
    assert!(pickup.position.x().abs() <= SPAWN_REACH);
    assert!(pickup.position.y().abs() <= SPAWN_REACH);
}
