//! One round: the players, the canvas they paint on and the pickups on the
//! field; how it is set up, what a tick does to it, and how it ends.

use crate::canvas::{Canvas, CanvasModel, Rgba};
use crate::collection::{
    all_spawnable, canvas_after_collection, item_collection, items_after_spawn,
    more_items_collected, players_after_collection, remaining_items, spawn_items,
    spawn_more_items, MORE_ITEMS_COUNT,
};
use crate::effects::EffectModel;
use crate::fixed::{div_round_zero, div_toward_zero};
use crate::heading::{normalized, Heading, HEADING_ONE};
use crate::input::{Action, Input};
use crate::items::{
    in_spawn_area, is_spawn_timer, item_allowed, pickup_models, spawn_timer_updated,
    ItemSpawnState, Pickup, PickupModel,
};
use crate::kinetic::PLAYER_BASE_RADIUS;
use crate::logic::{
    canvas_after, game_logic, living_in_arena, players_after, players_with_effects_after,
    update_player_item_effects,
};
use crate::mapper::{world_point, Point, WorldPoint};
use crate::player::{is_painting_timer, player_models, Player, PlayerModel};
use crate::random::random_in_range;
use crate::raster::{draw_trail, with_trail};
use crate::settings::GameSettings;
use crate::timer::TimerModel;
use vstd::prelude::*;

verus! {

/// The number of players that are alive.
pub open spec fn alive_count(players: Seq<PlayerModel>) -> nat
    decreases players.len(),
{
    if players.len() == 0 {
        0
    } else {
        alive_count(players.drop_last()) + if players.last().alive {
            1nat
        } else {
            0nat
        }
    }
}

/// A round of two or more players is over once at most one of them is
/// alive. A round of a single player never ends by itself.
pub open spec fn round_over(players: Seq<PlayerModel>) -> bool {
    players.len() >= 2 && alive_count(players) <= 1
}

/// Player `i` is the only one alive.
pub open spec fn sole_survivor(players: Seq<PlayerModel>, i: int) -> bool {
    &&& 0 <= i < players.len()
    &&& players[i].alive
    &&& forall|j: int| 0 <= j < players.len() && j != i ==> !(#[trigger] players[j]).alive
}

/// The name of the winner: of the one player that is alive, if there is
/// exactly one.
pub open spec fn winner_of(players: Seq<PlayerModel>) -> Option<Seq<char>> {
    if exists|i: int| sole_survivor(players, i) {
        Some(players[choose|i: int| sole_survivor(players, i)].name)
    } else {
        None
    }
}

/// Exactly one player is alive when, and only when, one is the sole
/// survivor; and no two players are.
pub proof fn lemma_sole_survivor_counts(players: Seq<PlayerModel>)
    ensures
        alive_count(players) == 1 <==> exists|i: int| sole_survivor(players, i),
        alive_count(players) == 0 <==> forall|j: int|
            0 <= j < players.len() ==> !(#[trigger] players[j]).alive,
        forall|i: int, j: int| sole_survivor(players, i) && sole_survivor(players, j) ==> i == j,
    decreases players.len(),
{
    if players.len() > 0 {
        let front = players.drop_last();
        let last = players.len() - 1;
        lemma_sole_survivor_counts(front);
        assert forall|j: int| 0 <= j < front.len() implies front[j] == players[j] by {}
        if alive_count(players) == 1 {
            if players.last().alive {
                assert(alive_count(front) == 0);
                assert forall|j: int| 0 <= j < players.len() && j != last implies !(
                #[trigger] players[j]).alive by {
                    assert(front[j] == players[j]);
                }
                assert(sole_survivor(players, last));
            } else {
                let i = choose|i: int| sole_survivor(front, i);
                assert forall|j: int| 0 <= j < players.len() && j != i implies !(
                #[trigger] players[j]).alive by {
                    if j < last {
                        assert(front[j] == players[j]);
                    }
                }
                assert(players[i] == front[i]);
                assert(sole_survivor(players, i));
            }
        }
        if exists|i: int| sole_survivor(players, i) {
            let i = choose|i: int| sole_survivor(players, i);
            if i == last {
                assert forall|j: int| 0 <= j < front.len() implies !(#[trigger] front[j]).alive by {
                    assert(front[j] == players[j]);
                }
            } else {
                assert(!players[last].alive);
                assert forall|j: int| 0 <= j < front.len() && j != i implies !(
                #[trigger] front[j]).alive by {
                    assert(front[j] == players[j]);
                }
                assert(front[i] == players[i]);
                assert(sole_survivor(front, i));
            }
        }
        if alive_count(players) == 0 {
            assert forall|j: int| 0 <= j < players.len() implies !(#[trigger] players[j]).alive by {
                if j < last {
                    assert(front[j] == players[j]);
                }
            }
        }
        if forall|j: int| 0 <= j < players.len() ==> !(#[trigger] players[j]).alive {
            assert forall|j: int| 0 <= j < front.len() implies !(#[trigger] front[j]).alive by {
                assert(front[j] == players[j]);
            }
            assert(!players[last].alive);
        }
    }
}

fn count_alive(players: &Vec<Player>) -> (n: usize)
    ensures
        n == alive_count(player_models(players@)),
        n <= players@.len(),
{
    let mut n: usize = 0;
    let mut i: usize = 0;
    while i < players.len()
        invariant
            i <= players@.len(),
            n <= i,
            n == alive_count(player_models(players@.take(i as int))),
        decreases players@.len() - i,
    {
        proof {
            assert(player_models(players@.take(i + 1)).drop_last() =~= player_models(
                players@.take(i as int),
            ));
        }
        if players[i].alive {
            n += 1;
        }
        i += 1;
    }
    proof {
        assert(players@.take(i as int) =~= players@);
    }
    n
}

/// Whether the round is over: there are two or more players and at most one
/// of them is alive.
pub fn check_round_over(players: &Vec<Player>) -> (over: bool)
    ensures
        over == round_over(player_models(players@)),
{
    if players.len() < 2 {
        return false;
    }
    count_alive(players) <= 1
}

/// The winner's name when the round ends: the name of the one player that is
/// alive. Nobody wins when none is alive, or more than one.
pub fn setup_round_over(players: &Vec<Player>) -> (winner_name: Option<String>)
    ensures
        match winner_name {
            Some(name) => Some(name@) == winner_of(player_models(players@)),
            None => winner_of(player_models(players@)).is_none(),
        },
        winner_name.is_some() <==> alive_count(player_models(players@)) == 1,
{
    let ghost models = player_models(players@);
    proof {
        lemma_sole_survivor_counts(models);
    }
    if count_alive(players) != 1 {
        return None;
    }
    let mut i: usize = 0;
    while i < players.len()
        invariant
            i <= players@.len(),
            models == player_models(players@),
            alive_count(models) == 1,
            exists|s: int| sole_survivor(models, s),
            forall|k: int| 0 <= k < i ==> !(#[trigger] models[k]).alive,
        decreases players@.len() - i,
    {
        if players[i].alive {
            proof {
                let s = choose|s: int| sole_survivor(models, s);
                assert(models[i as int].alive);
                assert(s == i);
            }
            return Some(players[i].name.clone());
        }
        i += 1;
    }
    proof {
        let s = choose|s: int| sole_survivor(models, s);
        assert(models[s].alive);
        assert(false);
    }
    None
}

/// If exactly one of two or more players is alive, the round is over and that
/// player has won. If none is alive, the round is over and nobody has won.
pub proof fn lemma_round_ends_with_winner(players: Seq<PlayerModel>)
    requires
        players.len() >= 2,
    ensures
        forall|i: int|
            sole_survivor(players, i) ==> round_over(players) && winner_of(players) == Some(
                players[i].name,
            ),
        alive_count(players) == 0 ==> round_over(players) && winner_of(players).is_none(),
        alive_count(players) >= 2 ==> !round_over(players) && winner_of(players).is_none(),
{
    lemma_sole_survivor_counts(players);
}

/// The side of the canvas of every round, in pixels.
pub const TEXTURE_SIZE: usize = 500;

/// The length of the trail that every player starts with, in world units:
/// 10/256 of the arena's half width.
pub const PRE_STEP: i64 = 40960;

/// Directions are drawn from the whole numbers of this reach: from its
/// negative up to, not including, itself.
pub const DIRECTION_DRAW_REACH: i64 = 1000000;

/// The name of the player in seat `seat`.
pub open spec fn seat_name(seat: int) -> Seq<char> {
    if seat == 0 {
        "PURPLE"@
    } else if seat == 1 {
        "ORANGE"@
    } else if seat == 2 {
        "GREEN"@
    } else if seat == 3 {
        "AQUA"@
    } else if seat == 4 {
        "RED"@
    } else {
        "WHITE"@
    }
}

/// The trail colour of the player in seat `seat`.
pub open spec fn seat_color(seat: int) -> Rgba {
    if seat == 0 {
        Rgba { r: 127, g: 0, b: 127, a: 255 }
    } else if seat == 1 {
        Rgba { r: 181, g: 127, b: 0, a: 255 }
    } else if seat == 2 {
        Rgba { r: 0, g: 127, b: 0, a: 255 }
    } else if seat == 3 {
        Rgba { r: 0, g: 255, b: 255, a: 255 }
    } else if seat == 4 {
        Rgba { r: 255, g: 0, b: 0, a: 255 }
    } else {
        Rgba { r: 255, g: 255, b: 255, a: 255 }
    }
}

/// The steering actions of the player in seat `seat`.
pub open spec fn seat_keys(seat: int) -> (Action, Action) {
    (Action::TurnLeft(seat as u8), Action::TurnRight(seat as u8))
}

/// The heading for a drawn vector: its direction, or east for the zero
/// vector.
pub open spec fn heading_for(x: int, y: int) -> Point {
    if x == 0 && y == 0 {
        Point { x: HEADING_ONE as int, y: 0 }
    } else {
        normalized(Point { x: x * 0x8000_0000, y: y * 0x8000_0000 })
    }
}

/// A player as it enters a round in seat `seat`: alive, without effects,
/// painting, somewhere in the spawn area, heading anywhere.
pub open spec fn fresh_player(p: PlayerModel, seat: int) -> bool {
    &&& p.name == seat_name(seat)
    &&& p.color == seat_color(seat)
    &&& p.steer_keys == seat_keys(seat)
    &&& p.alive
    &&& p.item_effects == Seq::<EffectModel>::empty()
    &&& !p.gap_state.gapping
    &&& is_painting_timer(p.gap_state.timer)
    &&& in_spawn_area(p.position)
    &&& exists|x: int, y: int|
        -DIRECTION_DRAW_REACH <= x < DIRECTION_DRAW_REACH && -DIRECTION_DRAW_REACH <= y
            < DIRECTION_DRAW_REACH && p.dir == #[trigger] heading_for(x, y)
}

/// Where the first trail segment of a player begins: [`PRE_STEP`] behind it.
pub open spec fn stub_start(p: PlayerModel) -> Point {
    world_point(
        p.position.x - div_toward_zero(PRE_STEP * p.dir.x, HEADING_ONE as int),
        p.position.y - div_toward_zero(PRE_STEP * p.dir.y, HEADING_ONE as int),
    )
}

/// The canvas after the first `n` players have painted the segment they
/// start with, so that a trail exists before the first move.
pub open spec fn canvas_with_stubs(players: Seq<PlayerModel>, canvas: CanvasModel, n: nat) -> CanvasModel
    decreases n,
{
    if n == 0 {
        canvas
    } else {
        with_trail(
            canvas_with_stubs(players, canvas, (n - 1) as nat),
            stub_start(players[n - 1]),
            players[n - 1].dir,
            players[n - 1].position,
            players[n - 1].dir,
            PLAYER_BASE_RADIUS as int,
            players[n - 1].color,
        )
    }
}

/// The heading for a drawn vector.
pub fn heading_from_draws(x: i32, y: i32) -> (dir: Heading)
    ensures
        dir@ == heading_for(x as int, y as int),
{
    match Heading::from_vector(x, y) {
        Some(h) => h,
        None => Heading::east(),
    }
}

/// A random place in the spawn area and a random direction.
pub fn random_position_and_direction() -> (out: (WorldPoint, Heading))
    ensures
        in_spawn_area(out.0@),
        exists|x: int, y: int|
            -DIRECTION_DRAW_REACH <= x < DIRECTION_DRAW_REACH && -DIRECTION_DRAW_REACH <= y
                < DIRECTION_DRAW_REACH && out.1@ == #[trigger] heading_for(x, y),
{
    let position = ItemSpawnState::random_position();
    let x = random_in_range(-DIRECTION_DRAW_REACH, DIRECTION_DRAW_REACH);
    let y = random_in_range(-DIRECTION_DRAW_REACH, DIRECTION_DRAW_REACH);
    let direction = heading_from_draws(x as i32, y as i32);
    assert(direction@ == heading_for(x as int, y as int));
    (position, direction)
}

fn seat_name_of(seat: u8) -> (name: String)
    ensures
        name@ == seat_name(seat as int),
{
    match seat {
        0 => "PURPLE".to_owned(),
        1 => "ORANGE".to_owned(),
        2 => "GREEN".to_owned(),
        3 => "AQUA".to_owned(),
        4 => "RED".to_owned(),
        _ => "WHITE".to_owned(),
    }
}

fn seat_color_of(seat: u8) -> (color: Rgba)
    ensures
        color == seat_color(seat as int),
{
    match seat {
        0 => Rgba { r: 127, g: 0, b: 127, a: 255 },
        1 => Rgba { r: 181, g: 127, b: 0, a: 255 },
        2 => Rgba { r: 0, g: 127, b: 0, a: 255 },
        3 => Rgba { r: 0, g: 255, b: 255, a: 255 },
        4 => Rgba { r: 255, g: 0, b: 0, a: 255 },
        _ => Rgba { r: 255, g: 255, b: 255, a: 255 },
    }
}

/// The player for seat `seat`, at a random place and with a random heading.
pub fn spawn_player(seat: u8) -> (player: Player)
    ensures
        fresh_player(player@, seat as int),
{
    let (position, direction) = random_position_and_direction();
    Player::new(
        seat_name_of(seat),
        seat_color_of(seat),
        position,
        direction,
        (Action::TurnLeft(seat), Action::TurnRight(seat)),
    )
}

/// One round of the game.
pub struct Round {
    /// The players, in the order of their seats.
    pub players: Vec<Player>,
    /// The canvas that holds the trails.
    pub texture: Canvas,
    /// The pickups on the field.
    pub items: Vec<Pickup>,
    /// The countdown to the next pickup.
    pub spawn_state: ItemSpawnState,
}

/// The model of a [`Round`].
pub struct RoundModel {
    pub players: Seq<PlayerModel>,
    pub canvas: CanvasModel,
    pub items: Seq<PickupModel>,
    pub spawn_timer: TimerModel,
}

impl View for Round {
    type V = RoundModel;

    open spec fn view(&self) -> RoundModel {
        RoundModel {
            players: player_models(self.players@),
            canvas: self.texture@,
            items: pickup_models(self.items@),
            spawn_timer: self.spawn_state@,
        }
    }
}

/// What chance decides in one tick of a round.
pub struct TickDraws {
    /// For each player, the stretch of painting that follows if its gap ends.
    pub painting: Seq<TimerModel>,
    /// The wait that follows if a pickup appears.
    pub next_spawn: TimerModel,
    /// The pickup that appears if one is due.
    pub spawned: PickupModel,
    /// The pickups that appear because collected pickups asked for more.
    pub extra: Seq<PickupModel>,
}

impl RoundModel {
    /// A round as it is set up for `n` players, before the first trail
    /// segments are painted.
    pub open spec fn is_set_up(self, n: int) -> bool {
        &&& self.players.len() == n
        &&& forall|i: int| 0 <= i < n ==> fresh_player(#[trigger] self.players[i], i)
        &&& self.canvas == CanvasModel::blank(TEXTURE_SIZE as int)
        &&& self.items == Seq::<PickupModel>::empty()
        &&& is_spawn_timer(self.spawn_timer)
    }

    /// The round with the first trail segment of every player painted.
    pub open spec fn with_stubs(self) -> RoundModel {
        RoundModel {
            canvas: canvas_with_stubs(self.players, self.canvas, self.players.len()),
            ..self
        }
    }

    /// The players after their effects have aged and they have moved.
    pub open spec fn moved_players(
        self,
        held: Seq<Action>,
        elapsed: nat,
        draws: TickDraws,
    ) -> Seq<PlayerModel> {
        players_after(
            players_with_effects_after(self.players, elapsed),
            self.canvas,
            held,
            elapsed,
            draws.painting,
        )
    }

    /// The canvas after the players have moved and painted.
    pub open spec fn painted_canvas(
        self,
        held: Seq<Action>,
        elapsed: nat,
        draws: TickDraws,
    ) -> CanvasModel {
        canvas_after(
            players_with_effects_after(self.players, elapsed),
            self.canvas,
            held,
            elapsed,
            draws.painting,
            self.players.len(),
        )
    }

    /// The pickups on the field after the spawner's tick.
    pub open spec fn field(self, elapsed: nat, draws: TickDraws) -> Seq<PickupModel> {
        items_after_spawn(self.items, self.spawn_timer, elapsed, draws.spawned)
    }

    /// The draws are such as a tick of this round can make.
    pub open spec fn draws_fit(self, held: Seq<Action>, elapsed: nat, draws: TickDraws) -> bool {
        &&& draws.painting.len() == self.players.len()
        &&& forall|k: int|
            0 <= k < draws.painting.len() ==> is_painting_timer(#[trigger] draws.painting[k])
        &&& is_spawn_timer(draws.next_spawn)
        &&& item_allowed(draws.spawned.item)
        &&& in_spawn_area(draws.spawned.position)
        &&& all_spawnable(draws.extra)
        &&& draws.extra.len() == MORE_ITEMS_COUNT * more_items_collected(
            self.moved_players(held, elapsed, draws),
            self.field(elapsed, draws),
        )
    }

    /// The round after one tick. In this order: the effects of every player
    /// age; every player moves; the spawner may put a pickup on the field;
    /// the pickups within reach are collected; the pickups that those asked
    /// for appear.
    pub open spec fn ticked(self, held: Seq<Action>, elapsed: nat, draws: TickDraws) -> RoundModel {
        let moved = self.moved_players(held, elapsed, draws);
        let field = self.field(elapsed, draws);
        RoundModel {
            players: players_after_collection(moved, field),
            canvas: canvas_after_collection(
                moved,
                field,
                self.painted_canvas(held, elapsed, draws),
            ),
            items: remaining_items(moved, field) + draws.extra,
            spawn_timer: spawn_timer_updated(self.spawn_timer, elapsed, draws.next_spawn),
        }
    }
}

/// Sets up a round for the configured number of players: a blank canvas, the
/// players at random places, no pickups yet.
pub fn setup_in_game(settings: &GameSettings) -> (round: Round)
    ensures
        round@.is_set_up(settings@),
{
    let texture = match Canvas::new(TEXTURE_SIZE) {
        Some(c) => c,
        None => vstd::pervasive::unreached(),
    };
    let n = settings.number_of_players();
    let mut players: Vec<Player> = Vec::new();
    let mut seat: u8 = 0;
    while seat < n
        invariant
            seat <= n,
            players@.len() == seat,
            forall|i: int| 0 <= i < seat ==> fresh_player((#[trigger] players@[i])@, i),
        decreases n - seat,
    {
        players.push(spawn_player(seat));
        seat += 1;
    }
    let round = Round { players, texture, items: Vec::new(), spawn_state: ItemSpawnState::new() };
    proof {
        assert(round@.items =~= Seq::<PickupModel>::empty());
    }
    round
}

/// Paints the first trail segment of every player: from [`PRE_STEP`] behind
/// it up to where it stands.
pub fn move_players_a_bit(players: &Vec<Player>, texture: &mut Canvas)
    ensures
        final(texture)@ == canvas_with_stubs(
            player_models(players@),
            old(texture)@,
            players@.len(),
        ),
{
    let ghost models = player_models(players@);
    let ghost canvas = texture@;
    let mut i: usize = 0;
    while i < players.len()
        invariant
            i <= players@.len(),
            models == player_models(players@),
            texture@ == canvas_with_stubs(models, canvas, i as nat),
        decreases players@.len() - i,
    {
        let player = &players[i];
        let hx = player.dir.x() as i128;
        let hy = player.dir.y() as i128;
        let dx = div_round_zero((PRE_STEP as i128) * hx, HEADING_ONE as i128);
        let dy = div_round_zero((PRE_STEP as i128) * hy, HEADING_ONE as i128);
        let pos_before = player.position.moved_by((-dx) as i64, (-dy) as i64);
        assert(pos_before@ == stub_start(models[i as int]));
        draw_trail(
            pos_before,
            player.dir,
            player.position,
            player.dir,
            PLAYER_BASE_RADIUS,
            texture,
            player.color,
        );
        i += 1;
    }
}

impl Round {
    /// One tick of the round. Returns whether the round is over.
    pub fn tick(&mut self, input: &Input) -> (over: bool)
        ensures
            exists|draws: TickDraws|
                old(self)@.draws_fit(input.held@, input.elapsed as nat, draws) && final(self)@
                    == #[trigger] old(self)@.ticked(input.held@, input.elapsed as nat, draws),
            over == round_over(final(self)@.players),
    {
        let ghost before = self@;
        let ghost held = input.held@;
        let ghost elapsed = input.elapsed as nat;
        update_player_item_effects(&mut self.players, input.elapsed);
        let ghost aged = player_models(self.players@);
        game_logic(&mut self.players, &mut self.texture, input);
        let ghost painting = choose|timers: Seq<TimerModel>|
            {
                &&& timers.len() == aged.len()
                &&& forall|k: int| 0 <= k < timers.len() ==> is_painting_timer(#[trigger] timers[k])
                &&& player_models(self.players@) == #[trigger] players_after(
                    aged,
                    before.canvas,
                    held,
                    elapsed,
                    timers,
                )
                &&& self.texture@ == canvas_after(
                    aged,
                    before.canvas,
                    held,
                    elapsed,
                    timers,
                    aged.len(),
                )
            };
        let ghost moved = player_models(self.players@);
        let ghost painted = self.texture@;
        spawn_items(&mut self.items, &mut self.spawn_state, input.elapsed);
        let ghost (next_spawn, spawned) = choose|next: TimerModel, spawned: PickupModel|
            {
                &&& is_spawn_timer(next)
                &&& item_allowed(spawned.item)
                &&& in_spawn_area(spawned.position)
                &&& pickup_models(self.items@) == #[trigger] items_after_spawn(
                    before.items,
                    before.spawn_timer,
                    elapsed,
                    spawned,
                )
                &&& self.spawn_state@ == #[trigger] spawn_timer_updated(
                    before.spawn_timer,
                    elapsed,
                    next,
                )
            };
        let ghost field = pickup_models(self.items@);
        let more = item_collection(&mut self.players, &mut self.items, &mut self.texture);
        let ghost left = pickup_models(self.items@);
        spawn_more_items(&mut self.items, more);
        let ghost extra = choose|extra: Seq<PickupModel>|
            {
                &&& extra.len() == MORE_ITEMS_COUNT * more
                &&& all_spawnable(extra)
                &&& pickup_models(self.items@) == left + extra
            };
        proof {
            let draws = TickDraws { painting, next_spawn, spawned, extra };
            assert(before.moved_players(held, elapsed, draws) == moved);
            assert(before.field(elapsed, draws) == field);
            assert(before.draws_fit(held, elapsed, draws));
            assert(self@ == before.ticked(held, elapsed, draws));
        }
        check_round_over(&self.players)
    }
}

/// Every player of a round that has just been set up is in the arena.
pub proof fn lemma_players_start_in_arena(round: RoundModel, n: int)
    requires
        round.is_set_up(n),
    ensures
        living_in_arena(round.players),
        living_in_arena(round.with_stubs().players),
        round.canvas.side > 0,
        round.with_stubs().canvas.side > 0,
{
    assert forall|i: int| 0 <= i < round.players.len() implies crate::mapper::in_arena(
        (#[trigger] round.players[i]).position,
    ) by {
        assert(fresh_player(round.players[i], i));
    }
    lemma_stubs_keep_side(round.players, round.canvas, round.players.len());
}

/// Painting the first trail segments keeps the side of the canvas.
pub proof fn lemma_stubs_keep_side(players: Seq<PlayerModel>, canvas: CanvasModel, n: nat)
    ensures
        canvas_with_stubs(players, canvas, n).side == canvas.side,
    decreases n,
{
    if n > 0 {
        lemma_stubs_keep_side(players, canvas, (n - 1) as nat);
    }
}

/// No living player is ever outside the arena: a tick of a round in which
/// every living player is in the arena leaves every living player in the
/// arena, and keeps the side of the canvas.
pub proof fn lemma_tick_keeps_living_in_arena(
    round: RoundModel,
    held: Seq<Action>,
    elapsed: nat,
    draws: TickDraws,
)
    requires
        round.canvas.side > 0,
        living_in_arena(round.players),
    ensures
        living_in_arena(round.ticked(held, elapsed, draws).players),
        round.ticked(held, elapsed, draws).canvas.side == round.canvas.side,
{
    let aged = players_with_effects_after(round.players, elapsed);
    assert(living_in_arena(aged)) by {
        assert forall|i: int| 0 <= i < aged.len() && (#[trigger] aged[i]).alive implies crate::mapper::in_arena(
            aged[i].position,
        ) by {
            assert(round.players[i].alive);
        }
    }
    crate::logic::lemma_living_stay_in_arena(aged, round.canvas, held, elapsed, draws.painting);
    crate::logic::lemma_canvas_after_keeps_side(
        aged,
        round.canvas,
        held,
        elapsed,
        draws.painting,
        round.players.len(),
    );
    let moved = round.moved_players(held, elapsed, draws);
    let after = round.ticked(held, elapsed, draws).players;
    assert forall|i: int| 0 <= i < after.len() && (#[trigger] after[i]).alive implies crate::mapper::in_arena(
        after[i].position,
    ) by {
        assert(moved[i].alive);
    }
}

/// No tick of a round brings a dead player back.
pub proof fn lemma_tick_never_revives(
    round: RoundModel,
    held: Seq<Action>,
    elapsed: nat,
    draws: TickDraws,
    i: int,
)
    requires
        0 <= i < round.players.len(),
        !round.players[i].alive,
    ensures
        round.ticked(held, elapsed, draws).players.len() == round.players.len(),
        !round.ticked(held, elapsed, draws).players[i].alive,
{
}

/// A living player one of whose probes lies off the canvas after its move is
/// dead after the tick of the round, whatever effects it holds.
pub proof fn lemma_tick_kills_out_of_bounds(
    round: RoundModel,
    held: Seq<Action>,
    elapsed: nat,
    draws: TickDraws,
    i: int,
)
    requires
        0 <= i < round.players.len(),
        round.players[i].alive,
        crate::collision::leaves_arena(
            canvas_after(
                players_with_effects_after(round.players, elapsed),
                round.canvas,
                held,
                elapsed,
                draws.painting,
                i as nat,
            ),
            round.players[i].with_effects_after(elapsed).position_after(held, elapsed),
            round.players[i].with_effects_after(elapsed).dir_after(held, elapsed),
            round.players[i].with_effects_after(elapsed).radius() as int,
        ),
    ensures
        !round.ticked(held, elapsed, draws).players[i].alive,
{
    crate::logic::lemma_out_of_bounds_kills(
        players_with_effects_after(round.players, elapsed),
        round.canvas,
        held,
        elapsed,
        draws.painting,
        i,
    );
}

} // verus!
