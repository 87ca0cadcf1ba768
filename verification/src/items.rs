//! Pickups and the spawner that puts them on the field.

use crate::effects::{
    global_for, global_text, individual_text, otherseffect_for, selfeffect_for, ItemEffectGlobal,
    ItemEffectIndividual,
};
use crate::mapper::{Point, WorldPoint};
use crate::random::random_in_range;
use crate::timer::{Timer, TimerModel};
use vstd::prelude::*;

verus! {

/// A player collects a pickup that is at most this far away, in world units:
/// 22.5/256 of the arena's half width.
pub const PICKUP_RADIUS: i64 = 92160;

/// The square of [`PICKUP_RADIUS`].
pub const PICKUP_RADIUS_SQUARED: i128 = 8493465600;

/// Pickups and players appear at most this far from the centre on each axis:
/// just under eight tenths of the arena's half width.
pub const SPAWN_REACH: i64 = 838860;

/// The shortest wait between two pickups, in milliseconds.
pub const SPAWN_MILLIS_MIN: i64 = 3000;

/// Every wait between two pickups is shorter than this, in milliseconds.
pub const SPAWN_MILLIS_END: i64 = 6000;

/// What a pickup does and to whom.
#[derive(Clone, Copy, Debug, PartialEq, Eq, Structural)]
pub enum Item {
    /// Grants the effect to the player that collects it.
    SelfEffect(ItemEffectIndividual),
    /// Grants the effect to every other living player.
    OthersEffect(ItemEffectIndividual),
    /// Acts on the round as a whole.
    GlobalEffect(ItemEffectGlobal),
}

/// The pickups that the spawner makes: none inverts the steering of its
/// collector, and none makes the other players free-flying.
pub open spec fn item_allowed(item: Item) -> bool {
    match item {
        Item::SelfEffect(e) => e != ItemEffectIndividual::InverseSteer,
        Item::OthersEffect(e) => e != ItemEffectIndividual::FreeFlying,
        Item::GlobalEffect(_) => true,
    }
}

/// The pickup for a draw of the scope, 0 to 2, and a draw of the effect.
pub open spec fn item_for(scope: int, effect: int) -> Item {
    if scope == 0 {
        Item::SelfEffect(selfeffect_for(effect))
    } else if scope == 1 {
        Item::OthersEffect(otherseffect_for(effect))
    } else {
        Item::GlobalEffect(global_for(effect))
    }
}

/// The label shown on a pickup.
pub open spec fn item_text(item: Item) -> Seq<char> {
    match item {
        Item::SelfEffect(e) => individual_text(e),
        Item::OthersEffect(e) => individual_text(e),
        Item::GlobalEffect(e) => global_text(e),
    }
}

impl Item {
    /// The pickup for a draw of the scope, 0 to 2, and a draw of the effect:
    /// 0 to 4 for an effect on players, 0 or 1 for a global one.
    pub fn from_draws(scope: u8, effect: u8) -> (item: Item)
        requires
            scope < 3,
            effect < 5,
            scope == 2 ==> effect < 2,
        ensures
            item == item_for(scope as int, effect as int),
            item_allowed(item),
    {
        match scope {
            0 => Item::SelfEffect(ItemEffectIndividual::selfeffect_from(effect)),
            1 => Item::OthersEffect(ItemEffectIndividual::otherseffect_from(effect)),
            _ => Item::GlobalEffect(ItemEffectGlobal::from_draw(effect)),
        }
    }

    /// A random pickup: first its scope is drawn, then its effect.
    pub fn get_random() -> (item: Item)
        ensures
            item_allowed(item),
    {
        let scope = random_in_range(0, 3);
        match scope {
            0 => Item::SelfEffect(ItemEffectIndividual::get_random_selfeffect()),
            1 => Item::OthersEffect(ItemEffectIndividual::get_random_otherseffect()),
            _ => Item::GlobalEffect(ItemEffectGlobal::get_random()),
        }
    }

    /// The label shown on the pickup.
    pub fn get_text(&self) -> (text: String)
        ensures
            text@ == item_text(*self),
    {
        match self {
            Item::SelfEffect(e) => e.get_text(),
            Item::OthersEffect(e) => e.get_text(),
            Item::GlobalEffect(e) => e.get_text(),
        }
    }
}

/// A pickup on the field.
#[derive(Clone, Copy, Debug)]
pub struct Pickup {
    /// What it does when collected.
    pub item: Item,
    /// Where it lies.
    pub position: WorldPoint,
}

/// The model of a [`Pickup`].
pub struct PickupModel {
    pub item: Item,
    pub position: Point,
}

impl View for Pickup {
    type V = PickupModel;

    open spec fn view(&self) -> PickupModel {
        PickupModel { item: self.item, position: self.position@ }
    }
}

/// The models of a list of pickups, in order.
pub open spec fn pickup_models(items: Seq<Pickup>) -> Seq<PickupModel> {
    Seq::new(items.len(), |i: int| items[i]@)
}

/// The point lies where pickups and players may appear.
pub open spec fn in_spawn_area(p: Point) -> bool {
    -SPAWN_REACH <= p.x <= SPAWN_REACH && -SPAWN_REACH <= p.y <= SPAWN_REACH
}

/// The two points are at most [`PICKUP_RADIUS`] apart.
pub open spec fn within_reach(a: Point, b: Point) -> bool {
    (a.x - b.x) * (a.x - b.x) + (a.y - b.y) * (a.y - b.y) <= PICKUP_RADIUS_SQUARED
}

/// Whether a player at `player` collects a pickup at `item`.
pub fn is_within_reach(player: WorldPoint, item: WorldPoint) -> (near: bool)
    ensures
        near == within_reach(player@, item@),
{
    let dx: i128 = player.x() as i128 - item.x() as i128;
    let dy: i128 = player.y() as i128 - item.y() as i128;
    assert(0 <= dx * dx <= 8796093022208 * 8796093022208) by (nonlinear_arith)
        requires
            -8796093022208 <= dx <= 8796093022208,
    ;
    assert(0 <= dy * dy <= 8796093022208 * 8796093022208) by (nonlinear_arith)
        requires
            -8796093022208 <= dy <= 8796093022208,
    ;
    dx * dx + dy * dy <= PICKUP_RADIUS_SQUARED
}

/// A timer for the wait before the next pickup: fresh, and of a whole number
/// of milliseconds from [`SPAWN_MILLIS_MIN`] up to, not including,
/// [`SPAWN_MILLIS_END`].
pub open spec fn is_spawn_timer(t: TimerModel) -> bool {
    exists|millis: int|
        SPAWN_MILLIS_MIN <= millis < SPAWN_MILLIS_END && t == TimerModel::fresh(
            #[trigger] (millis * 1000) as nat,
        )
}

/// The spawner's timer after `delta` microseconds: when it runs out, the
/// wait `next` begins.
pub open spec fn spawn_timer_updated(t: TimerModel, delta: nat, next: TimerModel) -> TimerModel {
    if t.ticked(delta).finished {
        next
    } else {
        t.ticked(delta)
    }
}

/// Whether the spawner's timer runs out within `delta` microseconds.
pub open spec fn spawn_due(t: TimerModel, delta: nat) -> bool {
    t.ticked(delta).finished
}

/// The countdown to the next pickup.
#[derive(Clone, Copy, Debug)]
pub struct ItemSpawnState {
    /// Runs out when the next pickup appears.
    pub time_to_next_spawn: Timer,
}

impl View for ItemSpawnState {
    type V = TimerModel;

    open spec fn view(&self) -> TimerModel {
        self.time_to_next_spawn@
    }
}

impl ItemSpawnState {
    /// A spawner that waits a random time for its first pickup.
    pub fn new() -> (state: ItemSpawnState)
        ensures
            is_spawn_timer(state@),
    {
        ItemSpawnState { time_to_next_spawn: ItemSpawnState::random_timer() }
    }

    /// Advances the countdown by `delta` microseconds and says whether a
    /// pickup is due. If one is, the wait `next` begins.
    pub fn update_with(&mut self, delta: u64, next: Timer) -> (due: bool)
        ensures
            due == spawn_due(old(self)@, delta as nat),
            final(self)@ == spawn_timer_updated(old(self)@, delta as nat, next@),
    {
        self.time_to_next_spawn.tick(delta);
        if self.time_to_next_spawn.finished() {
            self.time_to_next_spawn = next;
            true
        } else {
            false
        }
    }

    /// Advances the countdown by `delta` microseconds and says whether a
    /// pickup is due. If one is, a new random wait begins.
    pub fn update(&mut self, delta: u64) -> (due: bool)
        ensures
            due == spawn_due(old(self)@, delta as nat),
            exists|next: TimerModel|
                is_spawn_timer(next) && final(self)@ == #[trigger] spawn_timer_updated(
                    old(self)@,
                    delta as nat,
                    next,
                ),
    {
        let next = ItemSpawnState::random_timer();
        let due = self.update_with(delta, next);
        assert(self@ == spawn_timer_updated(old(self)@, delta as nat, next@));
        due
    }

    /// A timer for a wait of random length.
    pub fn random_timer() -> (timer: Timer)
        ensures
            is_spawn_timer(timer@),
    {
        let millis = random_in_range(SPAWN_MILLIS_MIN, SPAWN_MILLIS_END);
        let timer = Timer::from_millis(millis as u64);
        assert(timer@ == TimerModel::fresh((millis * 1000) as nat));
        timer
    }

    /// A random place for a pickup.
    pub fn random_position() -> (position: WorldPoint)
        ensures
            in_spawn_area(position@),
    {
        let x = random_in_range(-SPAWN_REACH, SPAWN_REACH + 1);
        let y = random_in_range(-SPAWN_REACH, SPAWN_REACH + 1);
        WorldPoint::new(x, y)
    }
}

/// A random pickup at a random place.
pub fn spawn_item() -> (pickup: Pickup)
    ensures
        item_allowed(pickup@.item),
        in_spawn_area(pickup@.position),
{
    Pickup { item: Item::get_random(), position: ItemSpawnState::random_position() }
}

} // verus!
