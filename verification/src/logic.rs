//! The tick of the players: every living player turns, moves, is tested for
//! collision and paints, one player after the other.
//!
//! The order is that of the seats. A player is tested against the canvas as
//! the players before it have left it in this tick, and before its own new
//! segment is painted, so that no player is killed by the segment it is
//! about to paint.

use crate::canvas::{Canvas, CanvasModel};
use crate::input::{Action, Input};
use crate::player::{is_painting_timer, player_models, Player, PlayerGapState, PlayerModel};
use crate::timer::{Timer, TimerModel};
use vstd::prelude::*;

verus! {


/// The canvas after the first `n` players have taken their tick, one after
/// the other. Each player is tested against the canvas as the players before
/// it left it, and paints after its own test.
pub open spec fn canvas_after(
    players: Seq<PlayerModel>,
    canvas: CanvasModel,
    held: Seq<Action>,
    elapsed: nat,
    timers: Seq<TimerModel>,
    n: nat,
) -> CanvasModel
    decreases n,
{
    if n == 0 {
        canvas
    } else {
        players[n - 1].canvas_stepped(
            canvas_after(players, canvas, held, elapsed, timers, (n - 1) as nat),
            held,
            elapsed,
            timers[n - 1],
        )
    }
}

/// The players after all of them have taken their tick; `timers[i]` is the
/// painting timer that player `i` gets if its gap ends.
pub open spec fn players_after(
    players: Seq<PlayerModel>,
    canvas: CanvasModel,
    held: Seq<Action>,
    elapsed: nat,
    timers: Seq<TimerModel>,
) -> Seq<PlayerModel> {
    Seq::new(
        players.len(),
        |i: int|
            players[i].stepped(
                canvas_after(players, canvas, held, elapsed, timers, i as nat),
                held,
                elapsed,
                timers[i],
            ),
    )
}

/// The canvas after `n` players depends on the timers of those players only.
pub proof fn lemma_canvas_after_prefix(
    players: Seq<PlayerModel>,
    canvas: CanvasModel,
    held: Seq<Action>,
    elapsed: nat,
    a: Seq<TimerModel>,
    b: Seq<TimerModel>,
    n: nat,
)
    requires
        forall|k: int| 0 <= k < n ==> a[k] == b[k],
    ensures
        canvas_after(players, canvas, held, elapsed, a, n) == canvas_after(
            players,
            canvas,
            held,
            elapsed,
            b,
            n,
        ),
    decreases n,
{
    if n > 0 {
        lemma_canvas_after_prefix(players, canvas, held, elapsed, a, b, (n - 1) as nat);
    }
}

/// A tick never brings a dead player back, and never changes one.
pub proof fn lemma_dead_stay_dead(
    players: Seq<PlayerModel>,
    canvas: CanvasModel,
    held: Seq<Action>,
    elapsed: nat,
    timers: Seq<TimerModel>,
    i: int,
)
    requires
        0 <= i < players.len(),
        !players[i].alive,
    ensures
        players_after(players, canvas, held, elapsed, timers)[i] == players[i],
        !players_after(players, canvas, held, elapsed, timers)[i].alive,
{
}

/// A living player one of whose probes lies off the canvas after its move is
/// dead after the tick.
pub proof fn lemma_out_of_bounds_kills(
    players: Seq<PlayerModel>,
    canvas: CanvasModel,
    held: Seq<Action>,
    elapsed: nat,
    timers: Seq<TimerModel>,
    i: int,
)
    requires
        0 <= i < players.len(),
        players[i].alive,
        crate::collision::leaves_arena(
            canvas_after(players, canvas, held, elapsed, timers, i as nat),
            players[i].position_after(held, elapsed),
            players[i].dir_after(held, elapsed),
            players[i].radius() as int,
        ),
    ensures
        !players_after(players, canvas, held, elapsed, timers)[i].alive,
{
    crate::collision::lemma_leaving_arena_kills(
        canvas_after(players, canvas, held, elapsed, timers, i as nat),
        players[i].position_after(held, elapsed),
        players[i].dir_after(held, elapsed),
        players[i].radius() as int,
        players[i].is_free_flying(),
    );
}

/// Every living player is in the arena.
pub open spec fn living_in_arena(players: Seq<PlayerModel>) -> bool {
    forall|i: int|
        0 <= i < players.len() && (#[trigger] players[i]).alive ==> crate::mapper::in_arena(
            players[i].position,
        )
}

/// Painting keeps the side of the canvas.
pub proof fn lemma_canvas_after_keeps_side(
    players: Seq<PlayerModel>,
    canvas: CanvasModel,
    held: Seq<Action>,
    elapsed: nat,
    timers: Seq<TimerModel>,
    n: nat,
)
    ensures
        canvas_after(players, canvas, held, elapsed, timers, n).side == canvas.side,
    decreases n,
{
    if n > 0 {
        lemma_canvas_after_keeps_side(players, canvas, held, elapsed, timers, (n - 1) as nat);
    }
}

/// No living player is outside the arena: if every living player is in the
/// arena before the tick, every player that is alive after it is in the
/// arena, because a player that moves out of it dies.
pub proof fn lemma_living_stay_in_arena(
    players: Seq<PlayerModel>,
    canvas: CanvasModel,
    held: Seq<Action>,
    elapsed: nat,
    timers: Seq<TimerModel>,
)
    requires
        canvas.side > 0,
        living_in_arena(players),
    ensures
        living_in_arena(players_after(players, canvas, held, elapsed, timers)),
{
    let after = players_after(players, canvas, held, elapsed, timers);
    assert forall|i: int| 0 <= i < after.len() && (#[trigger] after[i]).alive implies crate::mapper::in_arena(
        after[i].position,
    ) by {
        let before = canvas_after(players, canvas, held, elapsed, timers, i as nat);
        lemma_canvas_after_keeps_side(players, canvas, held, elapsed, timers, i as nat);
        assert(players[i].alive ==> crate::mapper::in_arena(players[i].position));
        crate::player::lemma_living_player_stays_in_arena(
            players[i],
            before,
            held,
            elapsed,
            timers[i],
        );
    }
}

/// Runs the tick of every player in order. With a timer given, every gap
/// that ends is followed by that stretch of painting; without one, by a
/// random stretch.
fn run_logic(
    players: &mut Vec<Player>,
    texture: &mut Canvas,
    input: &Input,
    next_painting: Option<Timer>,
) -> (timers: Ghost<Seq<TimerModel>>)
    ensures
        timers@.len() == old(players)@.len(),
        forall|k: int|
            0 <= k < timers@.len() ==> match next_painting {
                Some(t) => #[trigger] timers@[k] == t@,
                None => is_painting_timer(#[trigger] timers@[k]),
            },
        player_models(final(players)@) == players_after(
            player_models(old(players)@),
            old(texture)@,
            input.held@,
            input.elapsed as nat,
            timers@,
        ),
        final(texture)@ == canvas_after(
            player_models(old(players)@),
            old(texture)@,
            input.held@,
            input.elapsed as nat,
            timers@,
            old(players)@.len(),
        ),
{
    let ghost before = player_models(players@);
    let ghost canvas = texture@;
    let ghost held = input.held@;
    let ghost elapsed = input.elapsed as nat;
    let ghost mut timers: Seq<TimerModel> = Seq::empty();
    let n = players.len();
    let mut i: usize = 0;
    while i < n
        invariant
            i <= n,
            n == players@.len(),
            n == before.len(),
            held == input.held@,
            elapsed == input.elapsed as nat,
            timers.len() == i,
            forall|k: int|
                0 <= k < i ==> match next_painting {
                    Some(t) => #[trigger] timers[k] == t@,
                    None => is_painting_timer(#[trigger] timers[k]),
                },
            forall|k: int| i <= k < n ==> (#[trigger] players@[k])@ == before[k],
            forall|k: int|
                0 <= k < i ==> (#[trigger] players@[k])@ == before[k].stepped(
                    canvas_after(before, canvas, held, elapsed, timers, k as nat),
                    held,
                    elapsed,
                    timers[k],
                ),
            texture@ == canvas_after(before, canvas, held, elapsed, timers, i as nat),
        decreases n - i,
    {
        let timer = match next_painting {
            Some(t) => t,
            None => PlayerGapState::random_timer(),
        };
        let ghost earlier = timers;
        let ghost seen = players@;
        proof {
            timers = timers.push(timer@);
            lemma_canvas_after_prefix(before, canvas, held, elapsed, earlier, timers, i as nat);
            assert forall|k: int| 0 <= k < i implies (#[trigger] seen[k])@ == before[k].stepped(
                canvas_after(before, canvas, held, elapsed, timers, k as nat),
                held,
                elapsed,
                timers[k],
            ) by {
                lemma_canvas_after_prefix(before, canvas, held, elapsed, earlier, timers, k as nat);
            }
        }
        players[i].step_with(texture, input, timer);
        i += 1;
    }
    proof {
        assert(player_models(players@) =~= players_after(before, canvas, held, elapsed, timers));
    }
    Ghost(timers)
}

/// The tick of every player, in order: each living player turns, moves, is
/// tested for collision, and paints its new segment. A gap that ends is
/// followed by a stretch of painting of random length.
pub fn game_logic(players: &mut Vec<Player>, texture: &mut Canvas, input: &Input)
    ensures
        exists|timers: Seq<TimerModel>|
            {
                &&& timers.len() == old(players)@.len()
                &&& forall|k: int| 0 <= k < timers.len() ==> is_painting_timer(#[trigger] timers[k])
                &&& player_models(final(players)@) == #[trigger] players_after(
                    player_models(old(players)@),
                    old(texture)@,
                    input.held@,
                    input.elapsed as nat,
                    timers,
                )
                &&& final(texture)@ == canvas_after(
                    player_models(old(players)@),
                    old(texture)@,
                    input.held@,
                    input.elapsed as nat,
                    timers,
                    old(players)@.len(),
                )
            },
{
    let timers = run_logic(players, texture, input, None);
    proof {
        let t = timers@;
        assert(player_models(players@) == players_after(
            player_models(old(players)@),
            old(texture)@,
            input.held@,
            input.elapsed as nat,
            t,
        ));
    }
}

/// The tick of every player, in order, where every gap that ends is followed
/// by the stretch of painting `next_painting`.
pub fn game_logic_with(
    players: &mut Vec<Player>,
    texture: &mut Canvas,
    input: &Input,
    next_painting: Timer,
)
    ensures
        player_models(final(players)@) == players_after(
            player_models(old(players)@),
            old(texture)@,
            input.held@,
            input.elapsed as nat,
            Seq::new(old(players)@.len(), |k: int| next_painting@),
        ),
        final(texture)@ == canvas_after(
            player_models(old(players)@),
            old(texture)@,
            input.held@,
            input.elapsed as nat,
            Seq::new(old(players)@.len(), |k: int| next_painting@),
            old(players)@.len(),
        ),
{
    let timers = run_logic(players, texture, input, Some(next_painting));
    proof {
        assert(timers@ =~= Seq::new(old(players)@.len(), |k: int| next_painting@));
    }
}

/// The players after the effects of each have aged by `delta` microseconds.
pub open spec fn players_with_effects_after(players: Seq<PlayerModel>, delta: nat) -> Seq<
    PlayerModel,
> {
    Seq::new(players.len(), |i: int| players[i].with_effects_after(delta))
}

/// Ages the effects of every player, dead or alive, by `delta` microseconds.
pub fn update_player_item_effects(players: &mut Vec<Player>, delta: u64)
    ensures
        player_models(final(players)@) == players_with_effects_after(
            player_models(old(players)@),
            delta as nat,
        ),
{
    let ghost before = player_models(players@);
    let n = players.len();
    let mut i: usize = 0;
    while i < n
        invariant
            i <= n,
            n == players@.len(),
            n == before.len(),
            forall|k: int| i <= k < n ==> (#[trigger] players@[k])@ == before[k],
            forall|k: int|
                0 <= k < i ==> (#[trigger] players@[k])@ == before[k].with_effects_after(
                    delta as nat,
                ),
        decreases n - i,
    {
        players[i].update_item_effects(delta);
        i += 1;
    }
    proof {
        assert(player_models(players@) =~= players_with_effects_after(before, delta as nat));
    }
}

} // verus!
