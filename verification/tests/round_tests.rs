use lightcycle::canvas::{Canvas, Rgba};
use lightcycle::effects::ItemEffectIndividual;
use lightcycle::heading::{Heading, HEADING_ONE};
use lightcycle::input::{Action, Input};
use lightcycle::items::{Item, ItemSpawnState, Pickup, SPAWN_REACH};
use lightcycle::kinetic::PLAYER_BASE_RADIUS;
use lightcycle::logic::{game_logic, game_logic_with, update_player_item_effects};
use lightcycle::mapper::{game_to_texture_coord, WorldPoint, WORLD_ONE};
use lightcycle::player::{Player, PlayerGapState, GAP_MICROS};
use lightcycle::round::{
    check_round_over, heading_from_draws, move_players_a_bit, random_position_and_direction,
    setup_in_game, setup_round_over, spawn_player, Round, TEXTURE_SIZE,
};
use lightcycle::settings::GameSettings;
use lightcycle::timer::Timer;

const PURPLE: Rgba = Rgba { r: 127, g: 0, b: 127, a: 255 };
const ORANGE: Rgba = Rgba { r: 181, g: 127, b: 0, a: 255 };

fn player(name: &str, color: Rgba, seat: u8, x: i64, y: i64, dir: Heading) -> Player {
    let mut p = Player::new(
        name.to_string(),
        color,
        WorldPoint::new(x, y),
        dir,
        (Action::TurnLeft(seat), Action::TurnRight(seat)),
    );
    p.gap_state = PlayerGapState::painting_for(Timer::from_millis(60_000));
    p
}

fn west() -> Heading {
    Heading::from_vector(-1, 0).unwrap()
}

fn held(actions: &[Action], elapsed: u64) -> Input {
    Input { elapsed, held: actions.to_vec(), just_pressed: Vec::new() }
}

fn opaque_pixels(canvas: &Canvas) -> Vec<(usize, usize)> {
    let n = canvas.size();
    let mut out = Vec::new();
    for y in 0..n {
        for x in 0..n {
            if canvas.sample(x, y) == Some(true) {
                out.push((x, y));
            }
        }
    }
    out
}

fn round_of(players: Vec<Player>) -> Round {
    Round {
        players,
        texture: Canvas::new(TEXTURE_SIZE).unwrap(),
        items: Vec::new(),
        spawn_state: ItemSpawnState { time_to_next_spawn: Timer::from_millis(3000) },
    }
}

#[test]
fn one_tick_with_left_held() {
    // Canvas 500 x 500, player at the centre heading east, base radius, one
    // tick of 16 ms with the left key held.
    let mut canvas = Canvas::new(500).unwrap();
    let mut p = player("PURPLE", PURPLE, 0, 0, 0, Heading::east());
    let input = held(&[Action::TurnLeft(0)], 16_000);
    p.step_with(&mut canvas, &input, Timer::from_millis(2000));

    // The heading has turned left by pi / 60.
    let angle = (p.dir.y() as f64).atan2(p.dir.x() as f64);
    assert!((angle - std::f64::consts::PI / 60.0).abs() < 1e-7);
    assert_eq!((p.dir.x(), p.dir.y()), (1072270298, 56195302));
    // The position has advanced along the heading after the turn:
    // 0.016 s * 60/256 = 3932.16 world units times (cos, sin).
    assert_eq!((p.position.x(), p.position.y()), (3926, 205));
    assert!(p.alive);
    assert!(!p.gap_state.gapping);
    assert_eq!(p.gap_state.timer.elapsed(), 16_000);
    assert_eq!(p.radius(), PLAYER_BASE_RADIUS);

    // The painted segment lies around the centre, well inside the canvas.
    let painted = opaque_pixels(&canvas);
    assert!(!painted.is_empty());
    for (x, y) in &painted {
        assert!((250..=251).contains(x), "column {}", x);
        assert!((247..=252).contains(y), "row {}", y);
        assert_eq!(canvas.get(*x, *y), Some(PURPLE));
    }
    for y in 248..=252 {
        assert!(painted.contains(&(250, y)), "pixel (250, {}) is missing", y);
    }
}

#[test]
fn a_tick_of_no_length_changes_nothing() {
    let mut canvas = Canvas::new(500).unwrap();
    let mut p = player("PURPLE", PURPLE, 0, 1234, -5678, Heading::from_vector(3, 4).unwrap());
    p.add_effect(ItemEffectIndividual::Speed);
    let input = held(&[Action::TurnLeft(0), Action::TurnRight(0)], 0);
    p.step_with(&mut canvas, &input, Timer::from_millis(2000));
    assert_eq!((p.position.x(), p.position.y()), (1234, -5678));
    assert_eq!((p.dir.x(), p.dir.y()), (644245094, 858993459));
    assert!(p.alive);
    assert_eq!(p.gap_state.timer.elapsed(), 0);
    assert!(opaque_pixels(&canvas).is_empty());
}

#[test]
fn a_long_tick_moves_no_farther_than_the_longest_step() {
    let mut a = player("A", PURPLE, 0, 0, 0, Heading::east());
    let mut b = player("B", PURPLE, 0, 0, 0, Heading::east());
    let mut canvas_a = Canvas::new(500).unwrap();
    let mut canvas_b = Canvas::new(500).unwrap();
    a.step_with(&mut canvas_a, &held(&[], 32_000), Timer::from_millis(2000));
    b.step_with(&mut canvas_b, &held(&[], 2_000_000), Timer::from_millis(2000));
    assert_eq!(a.position.x(), 7864);
    assert_eq!((a.position.x(), a.position.y()), (b.position.x(), b.position.y()));
    assert_eq!(canvas_a.as_bytes(), canvas_b.as_bytes());
    // The gap timer runs on real time.
    assert_eq!(a.gap_state.timer.elapsed(), 32_000);
    assert_eq!(b.gap_state.timer.elapsed(), 2_000_000);
}

#[test]
fn inverted_steering_turns_the_other_way() {
    let mut canvas = Canvas::new(500).unwrap();
    let mut p = player("PURPLE", PURPLE, 0, 0, 0, Heading::east());
    p.add_effect(ItemEffectIndividual::InverseSteer);
    p.step_with(&mut canvas, &held(&[Action::TurnLeft(0)], 16_000), Timer::from_millis(2000));
    assert_eq!((p.dir.x(), p.dir.y()), (1072270298, -56195302));
    assert_eq!((p.position.x(), p.position.y()), (3926, -205));
}

#[test]
fn keys_of_other_players_do_not_steer() {
    let mut canvas = Canvas::new(500).unwrap();
    let mut p = player("PURPLE", PURPLE, 0, 0, 0, Heading::east());
    let input = held(&[Action::TurnLeft(1), Action::TurnRight(2), Action::Confirm], 16_000);
    p.step_with(&mut canvas, &input, Timer::from_millis(2000));
    assert_eq!((p.dir.x(), p.dir.y()), (HEADING_ONE, 0));
    assert_eq!((p.position.x(), p.position.y()), (3932, 0));
}

#[test]
fn speed_and_thickness_act_on_the_tick() {
    let mut canvas = Canvas::new(500).unwrap();
    let mut p = player("PURPLE", PURPLE, 0, 0, 0, Heading::east());
    p.add_effect(ItemEffectIndividual::Speed);
    p.add_effect(ItemEffectIndividual::Thick);
    p.add_effect(ItemEffectIndividual::Thick);
    p.step_with(&mut canvas, &held(&[], 16_000), Timer::from_millis(2000));
    // Twice 3932.16.
    assert_eq!(p.position.x(), 7864);
    // Radius 4 * 2.44 pixels: rows 240.23 to 259.77 in the columns 250 and
    // 251. Row 240 is within the rim that the tolerance takes in.
    let painted = opaque_pixels(&canvas);
    let rows: Vec<usize> = painted.iter().filter(|p| p.0 == 250).map(|p| p.1).collect();
    assert_eq!(rows, (240..=259).collect::<Vec<usize>>());
    assert!(painted.iter().all(|p| p.0 == 250 || p.0 == 251));
}

#[test]
fn a_dead_player_does_not_move_turn_or_paint() {
    let mut canvas = Canvas::new(500).unwrap();
    let mut p = player("PURPLE", PURPLE, 0, 100, 200, Heading::east());
    p.alive = false;
    p.step_with(&mut canvas, &held(&[Action::TurnLeft(0)], 16_000), Timer::from_millis(2000));
    assert!(!p.alive);
    assert_eq!((p.position.x(), p.position.y()), (100, 200));
    assert_eq!((p.dir.x(), p.dir.y()), (HEADING_ONE, 0));
    assert_eq!(p.gap_state.timer.elapsed(), 0);
    assert!(opaque_pixels(&canvas).is_empty());
}

#[test]
fn leaving_the_arena_kills_for_good() {
    let mut canvas = Canvas::new(500).unwrap();
    let mut p = player("PURPLE", PURPLE, 0, WORLD_ONE - 12_000, 0, Heading::east());
    let input = held(&[], 16_000);
    p.step_with(&mut canvas, &input, Timer::from_millis(2000));
    // After the move the front probe is past the right edge.
    assert!(!p.alive);
    let at = (p.position.x(), p.position.y());
    let turn_back = held(&[Action::TurnLeft(0)], 16_000);
    for _ in 0..100 {
        p.step_with(&mut canvas, &turn_back, Timer::from_millis(2000));
        assert!(!p.alive);
        assert_eq!((p.position.x(), p.position.y()), at);
    }
}

#[test]
fn the_probes_decide_and_not_the_position() {
    // Placed just outside the left edge and heading in: all three probes are
    // on the canvas after the move, so the player lives.
    let mut canvas = Canvas::new(500).unwrap();
    let mut p = player("PURPLE", PURPLE, 0, -WORLD_ONE - 3_000, 0, Heading::east());
    assert!(game_to_texture_coord(p.position, 500).is_none());
    p.step_with(&mut canvas, &held(&[], 16_000), Timer::from_millis(2000));
    assert!(p.alive);
    // Inside and heading out: the front probe leaves first.
    let mut q = player("ORANGE", ORANGE, 1, -WORLD_ONE + 12_000, 0, west());
    q.step_with(&mut canvas, &held(&[], 16_000), Timer::from_millis(2000));
    assert!(game_to_texture_coord(q.position, 500).is_some());
    assert!(!q.alive);
}

#[test]
fn free_flight_passes_trails_but_not_the_edge() {
    let mut canvas = Canvas::new(500).unwrap();
    for y in 0..500 {
        canvas.paint(260, y, ORANGE);
    }
    let mut walker = player("A", PURPLE, 0, 0, 0, Heading::east());
    let mut flyer = player("B", PURPLE, 0, 0, 0, Heading::east());
    flyer.add_effect(ItemEffectIndividual::FreeFlying);
    let input = held(&[], 16_000);
    let before = canvas.as_bytes().clone();
    for _ in 0..30 {
        let mut scratch = Canvas::new(500).unwrap();
        for y in 0..500 {
            scratch.paint(260, y, ORANGE);
        }
        walker.step_with(&mut scratch, &input, Timer::from_millis(2000));
        flyer.step_with(&mut canvas, &input, Timer::from_millis(2000));
    }
    assert!(!walker.alive);
    assert!(flyer.alive);
    // The flyer has crossed the wall and has painted nothing.
    assert!(game_to_texture_coord(flyer.position, 500).unwrap().0 > 260);
    assert_eq!(canvas.as_bytes(), &before);
    // At the edge it dies all the same.
    let mut edge = player("C", PURPLE, 0, WORLD_ONE - 12_000, 0, Heading::east());
    edge.add_effect(ItemEffectIndividual::FreeFlying);
    edge.step_with(&mut canvas, &input, Timer::from_millis(2000));
    assert!(!edge.alive);
}

#[test]
fn a_gapping_player_paints_nothing_but_still_collides() {
    let mut canvas = Canvas::new(500).unwrap();
    for y in 0..500 {
        canvas.paint(253, y, ORANGE);
    }
    let before = canvas.as_bytes().clone();
    let mut p = player("PURPLE", PURPLE, 0, 0, 0, Heading::east());
    p.gap_state = PlayerGapState { gapping: true, timer: Timer::new(GAP_MICROS) };
    p.step_with(&mut canvas, &held(&[], 16_000), Timer::from_millis(2000));
    assert!(p.gap_state.gapping);
    assert_eq!(canvas.as_bytes(), &before);
    // The front probe is at pixel 253.
    assert!(!p.alive);
}

#[test]
fn the_gap_ends_and_painting_resumes() {
    let mut canvas = Canvas::new(500).unwrap();
    let mut p = player("PURPLE", PURPLE, 0, 0, 0, Heading::east());
    p.gap_state = PlayerGapState { gapping: true, timer: Timer::new(GAP_MICROS) };
    let input = held(&[], 30_000);
    for _ in 0..9 {
        p.step_with(&mut canvas, &input, Timer::from_millis(2000));
        assert!(p.gap_state.gapping);
    }
    assert!(opaque_pixels(&canvas).is_empty());
    p.step_with(&mut canvas, &input, Timer::from_millis(2000));
    assert!(!p.gap_state.gapping);
    assert_eq!(p.gap_state.timer.duration(), 2_000_000);
    assert!(!opaque_pixels(&canvas).is_empty());
}

#[test]
fn players_move_in_order_and_see_the_paint_of_those_before_them() {
    // The first player paints across the path of the second one, which is
    // tested after the first has painted.
    let north = Heading::east().quarter_turn_left();
    let mut first = player("A", PURPLE, 0, 0, -8_000, north);
    first.add_effect(ItemEffectIndividual::Thick);
    first.add_effect(ItemEffectIndividual::Thick);
    let second = player("B", ORANGE, 1, -35_143, -5_000, Heading::east());
    let mut players = vec![first, second];
    let mut canvas = Canvas::new(500).unwrap();
    let input = held(&[], 16_000);
    game_logic_with(&mut players, &mut canvas, &input, Timer::from_millis(2000));
    assert!(players[0].alive);
    assert!(!players[1].alive);
    // In the other order the second player is tested before the paint is there.
    let mut first = player("A", PURPLE, 0, 0, -8_000, north);
    first.add_effect(ItemEffectIndividual::Thick);
    first.add_effect(ItemEffectIndividual::Thick);
    let second = player("B", ORANGE, 1, -35_143, -5_000, Heading::east());
    let mut players = vec![second, first];
    let mut canvas = Canvas::new(500).unwrap();
    game_logic_with(&mut players, &mut canvas, &input, Timer::from_millis(2000));
    assert!(players[0].alive);
    assert!(players[1].alive);
}

#[test]
fn random_game_logic_moves_every_living_player() {
    let mut dead = player("C", PURPLE, 2, 5, 5, Heading::east());
    dead.alive = false;
    let mut players =
        vec![player("A", PURPLE, 0, 0, 0, Heading::east()), player("B", ORANGE, 1, 0, 300_000, west()), dead];
    let mut canvas = Canvas::new(500).unwrap();
    game_logic(&mut players, &mut canvas, &held(&[Action::TurnRight(1)], 16_000));
    assert_eq!((players[0].position.x(), players[0].position.y()), (3932, 0));
    assert!(players[1].position.x() < 0 && players[1].position.y() > 300_000);
    assert_eq!((players[2].position.x(), players[2].position.y()), (5, 5));
    assert!(players[0].alive && players[1].alive && !players[2].alive);
}

#[test]
fn effects_age_for_dead_players_too() {
    let mut a = player("A", PURPLE, 0, 0, 0, Heading::east());
    let mut b = player("B", ORANGE, 1, 0, 0, Heading::east());
    a.add_effect(ItemEffectIndividual::Speed);
    b.add_effect(ItemEffectIndividual::Slowness);
    b.alive = false;
    let mut players = vec![a, b];
    update_player_item_effects(&mut players, 4_000_000);
    assert_eq!(players[0].item_effects[0].1.elapsed(), 4_000_000);
    assert_eq!(players[1].item_effects[0].1.elapsed(), 4_000_000);
    update_player_item_effects(&mut players, 1_000_000);
    assert!(players[0].item_effects.is_empty());
    assert!(players[1].item_effects.is_empty());
    assert!(players[0].alive && !players[1].alive);
}

#[test]
fn round_is_over_when_at_most_one_of_several_is_alive() {
    let mut players =
        vec![player("A", PURPLE, 0, 0, 0, Heading::east()), player("B", ORANGE, 1, 0, 0, Heading::east())];
    assert!(!check_round_over(&players));
    players[0].alive = false;
    assert!(check_round_over(&players));
    players[1].alive = false;
    assert!(check_round_over(&players));
    players.push(player("C", ORANGE, 2, 0, 0, Heading::east()));
    assert!(check_round_over(&players));
    players[0].alive = true;
    assert!(!check_round_over(&players));
}

#[test]
fn a_round_of_one_player_never_ends_by_itself() {
    let mut players = vec![player("A", PURPLE, 0, 0, 0, Heading::east())];
    assert!(!check_round_over(&players));
    players[0].alive = false;
    assert!(!check_round_over(&players));
    let nobody: Vec<Player> = Vec::new();
    assert!(!check_round_over(&nobody));
}

#[test]
fn the_winner_is_the_only_player_alive() {
    let mut players = vec![
        player("PURPLE", PURPLE, 0, 0, 0, Heading::east()),
        player("ORANGE", ORANGE, 1, 0, 0, Heading::east()),
        player("GREEN", ORANGE, 2, 0, 0, Heading::east()),
    ];
    assert_eq!(setup_round_over(&players), None);
    players[0].alive = false;
    assert_eq!(setup_round_over(&players), None);
    players[2].alive = false;
    assert_eq!(setup_round_over(&players), Some("ORANGE".to_string()));
    players[1].alive = false;
    assert_eq!(setup_round_over(&players), None);
    let nobody: Vec<Player> = Vec::new();
    assert_eq!(setup_round_over(&nobody), None);
}

#[test]
fn round_ends_in_the_tick_in_which_the_last_rival_dies() {
    let a = player("PURPLE", PURPLE, 0, 0, 0, Heading::east());
    let b = player("ORANGE", ORANGE, 1, WORLD_ONE - 12_000, 300_000, Heading::east());
    let mut round = round_of(vec![a, b]);
    assert!(!check_round_over(&round.players));
    let over = round.tick(&held(&[], 16_000));
    assert!(over);
    assert!(round.players[0].alive);
    assert!(!round.players[1].alive);
    assert_eq!(setup_round_over(&round.players), Some("PURPLE".to_string()));
}

#[test]
fn nobody_wins_when_both_die_in_the_same_tick() {
    let a = player("PURPLE", PURPLE, 0, -WORLD_ONE + 12_000, 0, west());
    let b = player("ORANGE", ORANGE, 1, WORLD_ONE - 12_000, 300_000, Heading::east());
    let mut round = round_of(vec![a, b]);
    let over = round.tick(&held(&[], 16_000));
    assert!(over);
    assert!(!round.players[0].alive && !round.players[1].alive);
    assert_eq!(setup_round_over(&round.players), None);
}

#[test]
fn round_goes_on_while_two_are_alive() {
    let a = player("PURPLE", PURPLE, 0, 0, 0, Heading::east());
    let b = player("ORANGE", ORANGE, 1, 0, 300_000, west());
    let mut round = round_of(vec![a, b]);
    for _ in 0..50 {
        assert!(!round.tick(&held(&[], 16_000)));
    }
    assert!(round.players[0].alive && round.players[1].alive);
    assert_eq!(round.players[0].position.x(), 50 * 3932);
    assert_eq!(round.players[1].position.x(), -50 * 3932);
    assert!(round.items.is_empty());
    assert_eq!(round.spawn_state.time_to_next_spawn.elapsed(), 800_000);
}

#[test]
fn round_tick_ages_effects_before_the_players_move() {
    // The speed-up has one microsecond left: it is gone before the move.
    let mut a = player("PURPLE", PURPLE, 0, 0, 0, Heading::east());
    a.add_effect(ItemEffectIndividual::Speed);
    a.update_item_effects(4_999_999);
    let mut round = round_of(vec![a]);
    round.tick(&held(&[], 16_000));
    assert!(round.players[0].item_effects.is_empty());
    assert_eq!(round.players[0].position.x(), 3932);
}

#[test]
fn round_tick_collects_pickups_after_the_move() {
    let a = player("PURPLE", PURPLE, 0, 0, 0, Heading::east());
    let b = player("ORANGE", ORANGE, 1, 0, 300_000, west());
    let mut round = round_of(vec![a, b]);
    // Out of reach before the move of the first player, in reach after it.
    round.items.push(Pickup {
        item: Item::OthersEffect(ItemEffectIndividual::Slowness),
        position: WorldPoint::new(92_160 + 3_000, 0),
    });
    round.tick(&held(&[], 16_000));
    assert!(round.items.is_empty());
    assert!(round.players[0].item_effects.is_empty());
    assert_eq!(round.players[1].item_effects.len(), 1);
    assert_eq!(round.players[1].item_effects[0].0, ItemEffectIndividual::Slowness);
    assert_eq!(round.players[1].speed_mod(), -1);
}

#[test]
fn spawner_puts_pickups_on_the_field_in_time() {
    let mut dead = player("PURPLE", PURPLE, 0, 0, 0, Heading::east());
    dead.alive = false;
    let mut round = round_of(vec![dead]);
    round.tick(&held(&[], 2_999_999));
    assert!(round.items.is_empty());
    round.tick(&held(&[], 1));
    assert_eq!(round.items.len(), 1);
    let wait = round.spawn_state.time_to_next_spawn.duration();
    assert!(wait >= 3_000_000 && wait < 6_000_000);
    assert!(round.items[0].position.x().abs() <= SPAWN_REACH);
    round.tick(&held(&[], 6_000_000));
    assert_eq!(round.items.len(), 2);
}

#[test]
fn directions_from_draws() {
    let e = heading_from_draws(0, 0);
    assert_eq!((e.x(), e.y()), (HEADING_ONE, 0));
    let h = heading_from_draws(3, 4);
    assert_eq!((h.x(), h.y()), (644245094, 858993459));
}

#[test]
fn random_spawns_lie_in_the_spawn_area_with_unit_heading() {
    for _ in 0..2000 {
        let (p, h) = random_position_and_direction();
        assert!(p.x().abs() <= SPAWN_REACH && p.y().abs() <= SPAWN_REACH);
        let n = (h.x() as i128).pow(2) + (h.y() as i128).pow(2);
        assert!((n - (1i128 << 60)).abs() < (1i128 << 33));
    }
    let p = spawn_player(1);
    assert_eq!(p.name, "ORANGE");
    assert_eq!(p.color, ORANGE);
    assert_eq!(p.steer_keys, (Action::TurnLeft(1), Action::TurnRight(1)));
    assert!(p.alive && p.item_effects.is_empty() && !p.gap_state.gapping);
}

#[test]
fn setup_spawns_the_configured_players_on_a_blank_canvas() {
    let names = ["PURPLE", "ORANGE", "GREEN", "AQUA", "RED", "WHITE"];
    for n in 1..=6u8 {
        let settings = GameSettings::new(n).unwrap();
        let round = setup_in_game(&settings);
        assert_eq!(round.players.len(), n as usize);
        for (i, p) in round.players.iter().enumerate() {
            assert_eq!(p.name, names[i]);
            assert_eq!(p.steer_keys, (Action::TurnLeft(i as u8), Action::TurnRight(i as u8)));
            assert!(p.alive);
            assert_eq!(p.color.a, 255);
            assert!(p.position.x().abs() <= SPAWN_REACH && p.position.y().abs() <= SPAWN_REACH);
        }
        assert_eq!(round.texture.size(), 500);
        assert!(round.texture.as_bytes().iter().all(|b| *b == 0));
        assert!(round.items.is_empty());
        let wait = round.spawn_state.time_to_next_spawn.duration();
        assert!(wait >= 3_000_000 && wait < 6_000_000);
    }
}

#[test]
fn every_player_starts_with_a_stub_of_trail_behind_it() {
    let players = vec![
        player("PURPLE", PURPLE, 0, 0, 0, Heading::east()),
        player("ORANGE", ORANGE, 1, 0, 400_000, west()),
    ];
    let mut canvas = Canvas::new(500).unwrap();
    move_players_a_bit(&players, &mut canvas);
    // From 10/256 behind the player up to the player: columns 240.23 to 250,
    // rows 247.56 to 252.44. Column 240 is within the rim that the tolerance
    // takes in.
    let purple: Vec<(usize, usize)> =
        opaque_pixels(&canvas).into_iter().filter(|p| canvas.get(p.0, p.1) == Some(PURPLE)).collect();
    let mut expected = Vec::new();
    for y in 248..=252 {
        for x in 240..=250 {
            expected.push((x, y));
        }
    }
    assert_eq!(purple, expected);
    // The other player heads west: its stub lies to its right.
    let (ox, oy) = game_to_texture_coord(players[1].position, 500).unwrap();
    assert_eq!(canvas.get(ox + 3, oy), Some(ORANGE));
    assert_eq!(canvas.sample(ox - 3, oy), Some(false));
    // The stub does not kill its owner on the first tick.
    let mut players = players;
    game_logic_with(&mut players, &mut canvas, &held(&[], 16_000), Timer::from_millis(2000));
    assert!(players[0].alive && players[1].alive);
}

#[test]
fn a_played_round_follows_its_rules_for_many_ticks() {
    let settings = GameSettings::new(4).unwrap();
    let mut round = setup_in_game(&settings);
    move_players_a_bit(&round.players, &mut round.texture);
    let mut dead_at: Vec<Option<(i64, i64)>> = vec![None; 4];
    let mut over = false;
    for t in 0..4000 {
        let keys: Vec<Action> = if t % 40 < 20 {
            vec![Action::TurnLeft(0), Action::TurnRight(1), Action::TurnLeft(2)]
        } else {
            vec![Action::TurnRight(0), Action::TurnLeft(3)]
        };
        over = round.tick(&held(&keys, 16_667));
        for (i, p) in round.players.iter().enumerate() {
            let n = (p.dir.x() as i128).pow(2) + (p.dir.y() as i128).pow(2);
            assert!((n - (1i128 << 60)).abs() < (1i128 << 33));
            match dead_at[i] {
                Some(at) => {
                    assert!(!p.alive, "player {} came back", i);
                    assert_eq!((p.position.x(), p.position.y()), at);
                }
                None => {
                    if !p.alive {
                        dead_at[i] = Some((p.position.x(), p.position.y()));
                    } else {
                        // No living player is outside the arena.
                        assert!(game_to_texture_coord(p.position, 500).is_some());
                    }
                }
            }
        }
        let alive = round.players.iter().filter(|p| p.alive).count();
        assert_eq!(over, alive <= 1);
        assert_eq!(over, check_round_over(&round.players));
        if over {
            break;
        }
    }
    // Whatever chance has decided: a winner is named exactly when one player
    // is left, and then the round is over.
    let alive: Vec<&Player> = round.players.iter().filter(|p| p.alive).collect();
    match setup_round_over(&round.players) {
        Some(name) => {
            assert!(over);
            assert_eq!(alive.len(), 1);
            assert_eq!(alive[0].name, name);
        }
        None => assert_ne!(alive.len(), 1),
    }
    assert_eq!(over, alive.len() <= 1);
}
