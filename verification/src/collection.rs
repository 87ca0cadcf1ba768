//! Pickups on the field: how they appear and how the players collect them.

use crate::canvas::{Canvas, CanvasModel};
use crate::effects::{fresh_effect, EffectModel, ItemEffectGlobal, ItemEffectIndividual};
use crate::items::{
    in_spawn_area, is_spawn_timer, is_within_reach, item_allowed, pickup_models, spawn_due,
    spawn_item, spawn_timer_updated, within_reach, Item, ItemSpawnState, Pickup, PickupModel,
};
use crate::mapper::{Point, WorldPoint};
use crate::player::{player_models, Player, PlayerModel};
use crate::timer::{Timer, TimerModel};
use vstd::prelude::*;

verus! {

/// Player `i` is alive and within reach of the point `at`.
pub open spec fn reaches(players: Seq<PlayerModel>, i: int, at: Point) -> bool {
    0 <= i < players.len() && players[i].alive && within_reach(players[i].position, at)
}

/// Some living player is within reach of the point `at`.
pub open spec fn collected(players: Seq<PlayerModel>, at: Point) -> bool {
    exists|i: int| reaches(players, i, at)
}

/// Player `i` collects what lies at `at`: it is within reach, and no player
/// before it is.
pub open spec fn collects(players: Seq<PlayerModel>, i: int, at: Point) -> bool {
    reaches(players, i, at) && forall|j: int| 0 <= j < i ==> !reaches(players, j, at)
}

/// The pickups that no living player is within reach of, in their order.
pub open spec fn remaining_items(players: Seq<PlayerModel>, items: Seq<PickupModel>) -> Seq<
    PickupModel,
>
    decreases items.len(),
{
    if items.len() == 0 {
        Seq::empty()
    } else {
        let rest = remaining_items(players, items.drop_last());
        if collected(players, items.last().position) {
            rest
        } else {
            rest.push(items.last())
        }
    }
}

/// The effects that player `i` gains from the pickups it collects itself, in
/// the pickups' order.
pub open spec fn self_gains(players: Seq<PlayerModel>, items: Seq<PickupModel>, i: int) -> Seq<
    EffectModel,
>
    decreases items.len(),
{
    if items.len() == 0 {
        Seq::empty()
    } else {
        let rest = self_gains(players, items.drop_last(), i);
        match items.last().item {
            Item::SelfEffect(e) => if collects(players, i, items.last().position) {
                rest.push(fresh_effect(e))
            } else {
                rest
            },
            _ => rest,
        }
    }
}

/// The effects that a living player `i` gains from the pickups that other
/// players collect, in the pickups' order.
pub open spec fn others_gains(players: Seq<PlayerModel>, items: Seq<PickupModel>, i: int) -> Seq<
    EffectModel,
>
    decreases items.len(),
{
    if items.len() == 0 {
        Seq::empty()
    } else {
        let rest = others_gains(players, items.drop_last(), i);
        match items.last().item {
            Item::OthersEffect(e) => if players[i].alive && collected(
                players,
                items.last().position,
            ) && !collects(players, i, items.last().position) {
                rest.push(fresh_effect(e))
            } else {
                rest
            },
            _ => rest,
        }
    }
}

/// Whether a pickup that clears the canvas is collected.
pub open spec fn clear_collected(players: Seq<PlayerModel>, items: Seq<PickupModel>) -> bool
    decreases items.len(),
{
    if items.len() == 0 {
        false
    } else {
        clear_collected(players, items.drop_last()) || (items.last().item == Item::GlobalEffect(
            ItemEffectGlobal::Clear,
        ) && collected(players, items.last().position))
    }
}

/// The number of collected pickups that ask for more pickups.
pub open spec fn more_items_collected(players: Seq<PlayerModel>, items: Seq<PickupModel>) -> nat
    decreases items.len(),
{
    if items.len() == 0 {
        0
    } else {
        more_items_collected(players, items.drop_last()) + if items.last().item
            == Item::GlobalEffect(ItemEffectGlobal::MoreItems) && collected(
            players,
            items.last().position,
        ) {
            1nat
        } else {
            0nat
        }
    }
}

/// Player `i` after the pickups have been collected: its effects, then what
/// it gained from its own pickups, then what it gained from those of others.
/// The effects of others are granted only after every pickup has found its
/// collector.
pub open spec fn player_after_collection(
    players: Seq<PlayerModel>,
    items: Seq<PickupModel>,
    i: int,
) -> PlayerModel {
    PlayerModel {
        item_effects: players[i].item_effects + self_gains(players, items, i) + others_gains(
            players,
            items,
            i,
        ),
        ..players[i]
    }
}

/// The players after the pickups have been collected.
pub open spec fn players_after_collection(
    players: Seq<PlayerModel>,
    items: Seq<PickupModel>,
) -> Seq<PlayerModel> {
    Seq::new(players.len(), |i: int| player_after_collection(players, items, i))
}

/// The canvas after the pickups have been collected.
pub open spec fn canvas_after_collection(
    players: Seq<PlayerModel>,
    items: Seq<PickupModel>,
    canvas: CanvasModel,
) -> CanvasModel {
    if clear_collected(players, items) {
        CanvasModel::blank(canvas.side)
    } else {
        canvas
    }
}

/// No pickup is collected by two players.
pub proof fn lemma_one_collector(players: Seq<PlayerModel>, at: Point, i: int, j: int)
    requires
        collects(players, i, at),
        collects(players, j, at),
    ensures
        i == j,
{
}

/// A pickup that exactly one living player is within reach of is collected
/// by that player.
pub proof fn lemma_only_reacher_collects(players: Seq<PlayerModel>, at: Point, i: int)
    requires
        reaches(players, i, at),
        forall|j: int| reaches(players, j, at) ==> j == i,
    ensures
        collects(players, i, at),
        collected(players, at),
{
}

/// After the collection no pickup within reach of a living player is left,
/// every pickup that is left was there before, and every pickup out of reach
/// is still there.
pub proof fn lemma_collected_items_are_removed(players: Seq<PlayerModel>, items: Seq<PickupModel>)
    ensures
        forall|k: int|
            0 <= k < remaining_items(players, items).len() ==> !collected(
                players,
                (#[trigger] remaining_items(players, items)[k]).position,
            ) && items.contains(remaining_items(players, items)[k]),
        forall|k: int|
            0 <= k < items.len() && !collected(players, (#[trigger] items[k]).position)
                ==> remaining_items(players, items).contains(items[k]),
        remaining_items(players, items).len() <= items.len(),
    decreases items.len(),
{
    if items.len() > 0 {
        let front = items.drop_last();
        let rest = remaining_items(players, front);
        let all = remaining_items(players, items);
        lemma_collected_items_are_removed(players, front);
        assert forall|k: int| 0 <= k < all.len() implies !collected(
            players,
            (#[trigger] all[k]).position,
        ) && items.contains(all[k]) by {
            if k < rest.len() {
                assert(all[k] == rest[k]);
                assert(front.contains(rest[k]));
                let w = choose|w: int| 0 <= w < front.len() && front[w] == rest[k];
                assert(items[w] == all[k]);
            } else {
                assert(all[k] == items.last());
                assert(items[items.len() - 1] == all[k]);
            }
        }
        assert forall|k: int|
            0 <= k < items.len() && !collected(players, (#[trigger] items[k]).position) implies all.contains(
            items[k],
        ) by {
            if k < front.len() {
                assert(front[k] == items[k]);
                assert(rest.contains(front[k]));
                let w = choose|w: int| 0 <= w < rest.len() && rest[w] == front[k];
                assert(all[w] == items[k]);
            } else {
                assert(all[all.len() - 1] == items[k]);
            }
        }
    }
}

/// Collecting twice is collecting once: with the players where they are, a
/// second pass finds every pickup that is left out of reach, takes none and
/// grants nothing.
pub proof fn lemma_collection_is_idempotent(
    players: Seq<PlayerModel>,
    items: Seq<PickupModel>,
    i: int,
)
    ensures
        remaining_items(players, remaining_items(players, items)) == remaining_items(
            players,
            items,
        ),
        self_gains(players, remaining_items(players, items), i) == Seq::<EffectModel>::empty(),
        others_gains(players, remaining_items(players, items), i) == Seq::<EffectModel>::empty(),
        !clear_collected(players, remaining_items(players, items)),
        more_items_collected(players, remaining_items(players, items)) == 0,
    decreases items.len(),
{
    if items.len() > 0 {
        lemma_collection_is_idempotent(players, items.drop_last(), i);
        let rest = remaining_items(players, items.drop_last());
        if !collected(players, items.last().position) {
            assert(rest.push(items.last()).drop_last() =~= rest);
        }
    }
}

fn find_collector(players: &Vec<Player>, at: WorldPoint) -> (out: Option<usize>)
    ensures
        match out {
            Some(i) => collects(player_models(players@), i as int, at@),
            None => !collected(player_models(players@), at@),
        },
{
    let ghost models = player_models(players@);
    let mut i: usize = 0;
    while i < players.len()
        invariant
            i <= players@.len(),
            models == player_models(players@),
            forall|j: int| 0 <= j < i ==> !reaches(models, j, at@),
        decreases players@.len() - i,
    {
        if players[i].alive && is_within_reach(players[i].position, at) {
            assert(reaches(models, i as int, at@));
            return Some(i);
        }
        i += 1;
    }
    None
}

proof fn lemma_items_prefix(items: Seq<PickupModel>, k: int)
    requires
        0 <= k < items.len(),
    ensures
        items.take(k + 1).drop_last() == items.take(k),
        items.take(k + 1).last() == items[k],
{
    assert(items.take(k + 1).drop_last() =~= items.take(k));
}

/// Whether a player's state is as after the first pass over `items`: it has
/// gained the effects of its own pickups.
spec fn after_first_pass(
    now: PlayerModel,
    before: Seq<PlayerModel>,
    items: Seq<PickupModel>,
    i: int,
) -> bool {
    now == (PlayerModel {
        item_effects: before[i].item_effects + self_gains(before, items, i),
        ..before[i]
    })
}

/// Whether a player's state is as after the second pass over the first part
/// `seen` of `items`: it has also gained the effects of the pickups of
/// others among them.
spec fn after_second_pass(
    now: PlayerModel,
    before: Seq<PlayerModel>,
    items: Seq<PickupModel>,
    seen: Seq<PickupModel>,
    i: int,
) -> bool {
    now == (PlayerModel {
        item_effects: before[i].item_effects + self_gains(before, items, i) + others_gains(
            before,
            seen,
            i,
        ),
        ..before[i]
    })
}

/// Grants `effect` to every living player but `collector`.
fn grant_to_others(
    players: &mut Vec<Player>,
    collector: usize,
    effect: ItemEffectIndividual,
)
    requires
        collector < old(players)@.len(),
    ensures
        final(players)@.len() == old(players)@.len(),
        forall|i: int|
            0 <= i < old(players)@.len() ==> (#[trigger] final(players)@[i])@ == if i != collector
                && old(players)@[i]@.alive {
                old(players)@[i]@.with_effect(effect)
            } else {
                old(players)@[i]@
            },
{
    let n = players.len();
    let mut i: usize = 0;
    while i < n
        invariant
            i <= n,
            n == players@.len(),
            n == old(players)@.len(),
            forall|k: int| i <= k < n ==> (#[trigger] players@[k])@ == old(players)@[k]@,
            forall|k: int|
                0 <= k < i ==> (#[trigger] players@[k])@ == if k != collector && old(
                    players,
                )@[k]@.alive {
                    old(players)@[k]@.with_effect(effect)
                } else {
                    old(players)@[k]@
                },
        decreases n - i,
    {
        if i != collector && players[i].alive {
            players[i].add_effect(effect);
        }
        i += 1;
    }
}

/// Resolves the pickups: every pickup within reach of a living player is
/// taken off the field and acts. One for its collector grants its effect at
/// once; one for the others grants its effect to every other living player,
/// after all pickups have found their collectors; one that clears wipes the
/// canvas. Returns how many of the collected pickups ask for more pickups.
pub fn item_collection(players: &mut Vec<Player>, items: &mut Vec<Pickup>, texture: &mut Canvas) -> (more: usize)
    ensures
        player_models(final(players)@) == players_after_collection(
            player_models(old(players)@),
            pickup_models(old(items)@),
        ),
        pickup_models(final(items)@) == remaining_items(
            player_models(old(players)@),
            pickup_models(old(items)@),
        ),
        final(texture)@ == canvas_after_collection(
            player_models(old(players)@),
            pickup_models(old(items)@),
            old(texture)@,
        ),
        more == more_items_collected(player_models(old(players)@), pickup_models(old(items)@)),
{
    let ghost before = player_models(players@);
    let ghost all = pickup_models(items@);
    let ghost canvas = texture@;
    let side = texture.size();
    let n = players.len();
    let count = items.len();
    let mut kept: Vec<Pickup> = Vec::new();
    let mut more: usize = 0;
    let mut k: usize = 0;
    proof {
        assert(pickup_models(kept@) =~= remaining_items(before, all.take(0)));
        assert forall|i: int| 0 <= i < n implies after_first_pass(
            (#[trigger] players@[i])@,
            before,
            all.take(0),
            i,
        ) by {
            assert(before[i].item_effects + self_gains(before, all.take(0), i)
                =~= before[i].item_effects);
        }
    }
    while k < count
        invariant
            k <= count,
            count == items@.len(),
            all == pickup_models(items@),
            n == players@.len(),
            n == before.len(),
            more <= k,
            texture@.side == canvas.side,
            forall|i: int|
                0 <= i < n ==> after_first_pass((#[trigger] players@[i])@, before, all.take(k as int), i),
            pickup_models(kept@) == remaining_items(before, all.take(k as int)),
            texture@ == canvas_after_collection(before, all.take(k as int), canvas),
            more == more_items_collected(before, all.take(k as int)),
        decreases count - k,
    {
        let pickup = items[k];
        let ghost now = player_models(players@);
        let ghost at = pickup.position@;
        proof {
            lemma_items_prefix(all, k as int);
            assert(all[k as int] == pickup@);
            assert forall|i: int| reaches(now, i, at) == reaches(before, i, at) by {
                if 0 <= i < n {
                    assert(after_first_pass(players@[i]@, before, all.take(k as int), i));
                }
            }
            assert(collected(now, at) == collected(before, at)) by {
                if collected(now, at) {
                    let w = choose|w: int| reaches(now, w, at);
                    assert(reaches(before, w, at));
                }
                if collected(before, at) {
                    let w = choose|w: int| reaches(before, w, at);
                    assert(reaches(now, w, at));
                }
            }
        }
        match find_collector(players, pickup.position) {
            None => {
                let ghost earlier = kept@;
                kept.push(pickup);
                proof {
                    assert(pickup_models(kept@) =~= pickup_models(earlier).push(pickup@));
                }
            },
            Some(c) => {
                assert(collects(before, c as int, at));
                match pickup.item {
                    Item::SelfEffect(e) => {
                        players[c].add_effect(e);
                        proof {
                            assert(players@[c as int]@.item_effects =~= before[c as int].item_effects
                                + self_gains(before, all.take(k + 1), c as int));
                        }
                    },
                    Item::OthersEffect(_) => {},
                    Item::GlobalEffect(ItemEffectGlobal::Clear) => {
                        texture.clear();
                    },
                    Item::GlobalEffect(ItemEffectGlobal::MoreItems) => {
                        more += 1;
                    },
                }
            },
        }
        k += 1;
    }
    proof {
        assert(all.take(count as int) =~= all);
    }
    // Second pass: the effects for the others.
    let mut k: usize = 0;
    proof {
        assert forall|i: int| 0 <= i < n implies after_second_pass(
            (#[trigger] players@[i])@,
            before,
            all,
            all.take(0),
            i,
        ) by {
            assert(after_first_pass(players@[i]@, before, all, i));
            assert(before[i].item_effects + self_gains(before, all, i) + others_gains(
                before,
                all.take(0),
                i,
            ) =~= before[i].item_effects + self_gains(before, all, i));
        }
    }
    while k < count
        invariant
            k <= count,
            count == items@.len(),
            all == pickup_models(items@),
            n == players@.len(),
            n == before.len(),
            forall|i: int|
                0 <= i < n ==> after_second_pass(
                    (#[trigger] players@[i])@,
                    before,
                    all,
                    all.take(k as int),
                    i,
                ),
        decreases count - k,
    {
        let pickup = items[k];
        let ghost now = player_models(players@);
        let ghost at = pickup.position@;
        proof {
            lemma_items_prefix(all, k as int);
            assert(all[k as int] == pickup@);
            assert forall|i: int| reaches(now, i, at) == reaches(before, i, at) by {
                if 0 <= i < n {
                    assert(after_second_pass(players@[i]@, before, all, all.take(k as int), i));
                }
            }
            assert(collected(now, at) == collected(before, at)) by {
                if collected(now, at) {
                    let w = choose|w: int| reaches(now, w, at);
                    assert(reaches(before, w, at));
                }
                if collected(before, at) {
                    let w = choose|w: int| reaches(before, w, at);
                    assert(reaches(now, w, at));
                }
            }
        }
        match pickup.item {
            Item::OthersEffect(e) => {
                match find_collector(players, pickup.position) {
                    Some(c) => {
                        let ghost seen = players@;
                        assert(collects(before, c as int, at));
                        grant_to_others(players, c, e);
                        proof {
                            assert forall|i: int| 0 <= i < n implies after_second_pass(
                                (#[trigger] players@[i])@,
                                before,
                                all,
                                all.take(k + 1),
                                i,
                            ) by {
                                assert(after_second_pass(
                                    seen[i]@,
                                    before,
                                    all,
                                    all.take(k as int),
                                    i,
                                ));
                                if i != c {
                                    assert(!collects(before, i, at));
                                }
                                assert(players@[i]@.item_effects =~= before[i].item_effects
                                    + self_gains(before, all, i) + others_gains(
                                    before,
                                    all.take(k + 1),
                                    i,
                                ));
                            }
                        }
                    },
                    None => {},
                }
            },
            _ => {},
        }
        k += 1;
    }
    proof {
        assert(all.take(count as int) =~= all);
        assert(player_models(players@) =~= players_after_collection(before, all));
    }
    *items = kept;
    more
}

/// How many pickups appear when one that asks for more is collected.
pub const MORE_ITEMS_COUNT: usize = 3;

/// Every pickup of the list is one that the spawner may make, at a place
/// where pickups may appear.
pub open spec fn all_spawnable(pickups: Seq<PickupModel>) -> bool {
    forall|k: int|
        0 <= k < pickups.len() ==> item_allowed((#[trigger] pickups[k]).item) && in_spawn_area(
            pickups[k].position,
        )
}

/// The pickups on the field after the spawner's tick: one more, `spawned`,
/// if the spawner's timer ran out.
pub open spec fn items_after_spawn(
    items: Seq<PickupModel>,
    timer: TimerModel,
    delta: nat,
    spawned: PickupModel,
) -> Seq<PickupModel> {
    if spawn_due(timer, delta) {
        items.push(spawned)
    } else {
        items
    }
}

/// Advances the spawner by `delta` microseconds. When its timer runs out,
/// `spawned` appears on the field and the wait `next` begins.
pub fn spawn_items_with(
    items: &mut Vec<Pickup>,
    spawn_state: &mut ItemSpawnState,
    delta: u64,
    next: Timer,
    spawned: Pickup,
)
    ensures
        pickup_models(final(items)@) == items_after_spawn(
            pickup_models(old(items)@),
            old(spawn_state)@,
            delta as nat,
            spawned@,
        ),
        final(spawn_state)@ == spawn_timer_updated(old(spawn_state)@, delta as nat, next@),
{
    if spawn_state.update_with(delta, next) {
        items.push(spawned);
        assert(pickup_models(items@) =~= pickup_models(old(items)@).push(spawned@));
    }
}

/// Advances the spawner by `delta` microseconds. When its timer runs out, a
/// random pickup appears at a random place and a new random wait begins.
pub fn spawn_items(items: &mut Vec<Pickup>, spawn_state: &mut ItemSpawnState, delta: u64)
    ensures
        exists|next: TimerModel, spawned: PickupModel|
            {
                &&& is_spawn_timer(next)
                &&& item_allowed(spawned.item)
                &&& in_spawn_area(spawned.position)
                &&& pickup_models(final(items)@) == #[trigger] items_after_spawn(
                    pickup_models(old(items)@),
                    old(spawn_state)@,
                    delta as nat,
                    spawned,
                )
                &&& final(spawn_state)@ == #[trigger] spawn_timer_updated(
                    old(spawn_state)@,
                    delta as nat,
                    next,
                )
            },
{
    let next = ItemSpawnState::random_timer();
    let spawned = spawn_item();
    spawn_items_with(items, spawn_state, delta, next, spawned);
    assert(pickup_models(items@) == items_after_spawn(
        pickup_models(old(items)@),
        old(spawn_state)@,
        delta as nat,
        spawned@,
    ));
    assert(spawn_state@ == spawn_timer_updated(old(spawn_state)@, delta as nat, next@));
}

/// Puts [`MORE_ITEMS_COUNT`] random pickups on the field for each of `count`
/// collected requests.
pub fn spawn_more_items(items: &mut Vec<Pickup>, count: usize)
    ensures
        exists|extra: Seq<PickupModel>|
            {
                &&& extra.len() == MORE_ITEMS_COUNT * count
                &&& all_spawnable(extra)
                &&& pickup_models(final(items)@) == pickup_models(old(items)@) + extra
            },
{
    let ghost before = pickup_models(items@);
    let ghost mut extra: Seq<PickupModel> = Seq::empty();
    let mut done: usize = 0;
    proof {
        assert(pickup_models(items@) =~= before + extra);
    }
    while done < count
        invariant
            done <= count,
            extra.len() == MORE_ITEMS_COUNT * done,
            all_spawnable(extra),
            pickup_models(items@) == before + extra,
        decreases count - done,
    {
        let mut j: usize = 0;
        while j < MORE_ITEMS_COUNT
            invariant
                j <= MORE_ITEMS_COUNT,
                done < count,
                extra.len() == MORE_ITEMS_COUNT * done + j,
                all_spawnable(extra),
                pickup_models(items@) == before + extra,
            decreases MORE_ITEMS_COUNT - j,
        {
            let pickup = spawn_item();
            let ghost earlier = items@;
            items.push(pickup);
            proof {
                let grown = extra.push(pickup@);
                assert(pickup_models(items@) =~= pickup_models(earlier).push(pickup@));
                assert((before + extra).push(pickup@) =~= before + grown);
                extra = grown;
            }
            j += 1;
        }
        done += 1;
    }
}

} // verus!
