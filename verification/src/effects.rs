//! Effects that pickups grant, and the rules by which they stack.

use crate::timer::{Timer, TimerModel};
use vstd::prelude::*;

verus! {

/// How long every effect lasts: five seconds.
pub const EFFECT_DURATION_MICROS: u64 = 5000000;

/// An effect that one player holds.
#[derive(Clone, Copy, Debug, PartialEq, Eq, Structural)]
pub enum ItemEffectIndividual {
    /// Doubles the speed.
    Speed,
    /// Halves the speed.
    Slowness,
    /// Halves the radius.
    Thin,
    /// Doubles the radius.
    Thick,
    /// Trails do not kill, and none is painted.
    FreeFlying,
    /// Left and right are swapped.
    InverseSteer,
}

/// An effect on the round as a whole; it acts at once and is not stored.
#[derive(Clone, Copy, Debug, PartialEq, Eq, Structural)]
pub enum ItemEffectGlobal {
    /// Wipes every trail off the canvas.
    Clear,
    /// Puts several more pickups on the field.
    MoreItems,
}

/// One active effect: its kind and the timer that ends it.
pub struct EffectModel {
    pub kind: ItemEffectIndividual,
    pub timer: TimerModel,
}

/// The models of a list of effects, in order.
pub open spec fn effect_models(effects: Seq<(ItemEffectIndividual, Timer)>) -> Seq<EffectModel> {
    Seq::new(effects.len(), |i: int| EffectModel { kind: effects[i].0, timer: effects[i].1@ })
}

/// A newly granted effect of the given kind.
pub open spec fn fresh_effect(kind: ItemEffectIndividual) -> EffectModel {
    EffectModel { kind, timer: TimerModel::fresh(EFFECT_DURATION_MICROS as nat) }
}

/// The number of active effects of one kind.
pub open spec fn count_kind(effects: Seq<EffectModel>, kind: ItemEffectIndividual) -> nat
    decreases effects.len(),
{
    if effects.len() == 0 {
        0
    } else {
        count_kind(effects.drop_last(), kind) + if effects.last().kind == kind {
            1nat
        } else {
            0nat
        }
    }
}

/// Whether at least one effect of the kind is active.
pub open spec fn has_kind(effects: Seq<EffectModel>, kind: ItemEffectIndividual) -> bool {
    exists|i: int| 0 <= i < effects.len() && (#[trigger] effects[i]).kind == kind
}

/// The power of two by which the speed is scaled: speed-ups minus slow-downs.
pub open spec fn speed_exponent(effects: Seq<EffectModel>) -> int {
    count_kind(effects, ItemEffectIndividual::Speed) - count_kind(
        effects,
        ItemEffectIndividual::Slowness,
    )
}

/// The power of two by which the radius is scaled: thickenings minus
/// thinnings.
pub open spec fn thickness_exponent(effects: Seq<EffectModel>) -> int {
    count_kind(effects, ItemEffectIndividual::Thick) - count_kind(
        effects,
        ItemEffectIndividual::Thin,
    )
}

/// The effects after `delta` microseconds: every timer has advanced, and the
/// effects whose timers finished are gone. The others keep their order.
pub open spec fn effects_after(effects: Seq<EffectModel>, delta: nat) -> Seq<EffectModel>
    decreases effects.len(),
{
    if effects.len() == 0 {
        Seq::empty()
    } else {
        let rest = effects_after(effects.drop_last(), delta);
        let last = effects.last();
        let timer = last.timer.ticked(delta);
        if timer.finished {
            rest
        } else {
            rest.push(EffectModel { kind: last.kind, timer })
        }
    }
}

/// The label shown on a pickup that grants the effect.
pub open spec fn individual_text(effect: ItemEffectIndividual) -> Seq<char> {
    match effect {
        ItemEffectIndividual::Speed => "fast"@,
        ItemEffectIndividual::Slowness => "slow"@,
        ItemEffectIndividual::Thin => "thin"@,
        ItemEffectIndividual::Thick => "thick"@,
        ItemEffectIndividual::FreeFlying => "free"@,
        ItemEffectIndividual::InverseSteer => "<-->"@,
    }
}

/// The label shown on a pickup that triggers the global effect.
pub open spec fn global_text(effect: ItemEffectGlobal) -> Seq<char> {
    match effect {
        ItemEffectGlobal::Clear => "clear"@,
        ItemEffectGlobal::MoreItems => "more"@,
    }
}

/// The effect that a pickup for its collector grants for a draw of 0 to 4.
/// Steering is never inverted for the collector.
pub open spec fn selfeffect_for(draw: int) -> ItemEffectIndividual {
    if draw == 0 {
        ItemEffectIndividual::Speed
    } else if draw == 1 {
        ItemEffectIndividual::Slowness
    } else if draw == 2 {
        ItemEffectIndividual::Thin
    } else if draw == 3 {
        ItemEffectIndividual::Thick
    } else {
        ItemEffectIndividual::FreeFlying
    }
}

/// The effect that a pickup for the other players grants for a draw of 0 to
/// 4. The others are never made free-flying.
pub open spec fn otherseffect_for(draw: int) -> ItemEffectIndividual {
    if draw == 0 {
        ItemEffectIndividual::Speed
    } else if draw == 1 {
        ItemEffectIndividual::Slowness
    } else if draw == 2 {
        ItemEffectIndividual::Thin
    } else if draw == 3 {
        ItemEffectIndividual::Thick
    } else {
        ItemEffectIndividual::InverseSteer
    }
}

/// The global effect for a draw of 0 or 1.
pub open spec fn global_for(draw: int) -> ItemEffectGlobal {
    if draw == 0 {
        ItemEffectGlobal::Clear
    } else {
        ItemEffectGlobal::MoreItems
    }
}

impl ItemEffectIndividual {
    /// The effect for a draw of 0 to 4, for a pickup that acts on its
    /// collector.
    pub fn selfeffect_from(draw: u8) -> (effect: ItemEffectIndividual)
        requires
            draw < 5,
        ensures
            effect == selfeffect_for(draw as int),
            effect != ItemEffectIndividual::InverseSteer,
    {
        match draw {
            0 => ItemEffectIndividual::Speed,
            1 => ItemEffectIndividual::Slowness,
            2 => ItemEffectIndividual::Thin,
            3 => ItemEffectIndividual::Thick,
            _ => ItemEffectIndividual::FreeFlying,
        }
    }

    /// The effect for a draw of 0 to 4, for a pickup that acts on the other
    /// players.
    pub fn otherseffect_from(draw: u8) -> (effect: ItemEffectIndividual)
        requires
            draw < 5,
        ensures
            effect == otherseffect_for(draw as int),
            effect != ItemEffectIndividual::FreeFlying,
    {
        match draw {
            0 => ItemEffectIndividual::Speed,
            1 => ItemEffectIndividual::Slowness,
            2 => ItemEffectIndividual::Thin,
            3 => ItemEffectIndividual::Thick,
            _ => ItemEffectIndividual::InverseSteer,
        }
    }

    /// A random effect for a pickup that acts on its collector: any but
    /// inverted steering.
    pub fn get_random_selfeffect() -> (effect: ItemEffectIndividual)
        ensures
            exists|draw: int| 0 <= draw < 5 && effect == selfeffect_for(draw),
            effect != ItemEffectIndividual::InverseSteer,
    {
        let draw = crate::random::random_in_range(0, 5);
        Self::selfeffect_from(draw as u8)
    }

    /// A random effect for a pickup that acts on the other players: any but
    /// free flight.
    pub fn get_random_otherseffect() -> (effect: ItemEffectIndividual)
        ensures
            exists|draw: int| 0 <= draw < 5 && effect == otherseffect_for(draw),
            effect != ItemEffectIndividual::FreeFlying,
    {
        let draw = crate::random::random_in_range(0, 5);
        Self::otherseffect_from(draw as u8)
    }

    /// The label shown on a pickup that grants this effect.
    pub fn get_text(&self) -> (text: String)
        ensures
            text@ == individual_text(*self),
    {
        match self {
            ItemEffectIndividual::Speed => "fast".to_owned(),
            ItemEffectIndividual::Slowness => "slow".to_owned(),
            ItemEffectIndividual::Thin => "thin".to_owned(),
            ItemEffectIndividual::Thick => "thick".to_owned(),
            ItemEffectIndividual::FreeFlying => "free".to_owned(),
            ItemEffectIndividual::InverseSteer => "<-->".to_owned(),
        }
    }
}

impl ItemEffectGlobal {
    /// The global effect for a draw of 0 or 1.
    pub fn from_draw(draw: u8) -> (effect: ItemEffectGlobal)
        requires
            draw < 2,
        ensures
            effect == global_for(draw as int),
    {
        match draw {
            0 => ItemEffectGlobal::Clear,
            _ => ItemEffectGlobal::MoreItems,
        }
    }

    /// A random global effect.
    pub fn get_random() -> (effect: ItemEffectGlobal)
        ensures
            exists|draw: int| 0 <= draw < 2 && effect == global_for(draw),
    {
        let draw = crate::random::random_in_range(0, 2);
        Self::from_draw(draw as u8)
    }

    /// The label shown on a pickup that triggers this effect.
    pub fn get_text(&self) -> (text: String)
        ensures
            text@ == global_text(*self),
    {
        match self {
            ItemEffectGlobal::Clear => "clear".to_owned(),
            ItemEffectGlobal::MoreItems => "more".to_owned(),
        }
    }
}

/// Granting one more effect raises the count of its kind by one and leaves
/// the counts of the other kinds alone.
pub proof fn lemma_count_after_push(
    effects: Seq<EffectModel>,
    added: EffectModel,
    kind: ItemEffectIndividual,
)
    ensures
        count_kind(effects.push(added), kind) == count_kind(effects, kind) + if added.kind
            == kind {
            1nat
        } else {
            0nat
        },
{
    assert(effects.push(added).drop_last() =~= effects);
}

/// Stacking: every speed-up granted raises the speed exponent by one, every
/// slow-down lowers it by one, and no other effect touches it. Likewise for
/// the thickness exponent with thickenings and thinnings.
pub proof fn lemma_exponents_after_push(effects: Seq<EffectModel>, added: EffectModel)
    ensures
        speed_exponent(effects.push(added)) == speed_exponent(effects) + match added.kind {
            ItemEffectIndividual::Speed => 1int,
            ItemEffectIndividual::Slowness => -1int,
            _ => 0int,
        },
        thickness_exponent(effects.push(added)) == thickness_exponent(effects) + match added.kind {
            ItemEffectIndividual::Thick => 1int,
            ItemEffectIndividual::Thin => -1int,
            _ => 0int,
        },
{
    lemma_count_after_push(effects, added, ItemEffectIndividual::Speed);
    lemma_count_after_push(effects, added, ItemEffectIndividual::Slowness);
    lemma_count_after_push(effects, added, ItemEffectIndividual::Thick);
    lemma_count_after_push(effects, added, ItemEffectIndividual::Thin);
}

/// Without effects both exponents are zero, so speed and radius are at their
/// base values.
pub proof fn lemma_exponents_of_none()
    ensures
        speed_exponent(Seq::<EffectModel>::empty()) == 0,
        thickness_exponent(Seq::<EffectModel>::empty()) == 0,
{
}

/// Once every timer has run out, no effect is left.
pub proof fn lemma_effects_expire(effects: Seq<EffectModel>, delta: nat)
    requires
        forall|i: int|
            0 <= i < effects.len() ==> (#[trigger] effects[i]).timer.wf() && delta
                >= effects[i].timer.remaining(),
    ensures
        effects_after(effects, delta) == Seq::<EffectModel>::empty(),
    decreases effects.len(),
{
    if effects.len() > 0 {
        let front = effects.drop_last();
        assert forall|i: int| 0 <= i < front.len() implies (#[trigger] front[i]).timer.wf() && delta
            >= front[i].timer.remaining() by {
            assert(front[i] == effects[i]);
        }
        lemma_effects_expire(front, delta);
        assert(effects.last() == effects[effects.len() - 1]);
    }
}

/// Every effect that is left after a tick was there before, with its kind,
/// and its timer has not finished.
pub proof fn lemma_effects_after_sound(effects: Seq<EffectModel>, delta: nat)
    ensures
        effects_after(effects, delta).len() <= effects.len(),
        forall|i: int|
            0 <= i < effects_after(effects, delta).len() ==> !(#[trigger] effects_after(
                effects,
                delta,
            )[i]).timer.finished,
    decreases effects.len(),
{
    if effects.len() > 0 {
        lemma_effects_after_sound(effects.drop_last(), delta);
    }
}

} // verus!
