//! Players: their state, the effects they hold, and what one tick does to
//! one of them.

use crate::canvas::{Canvas, CanvasModel, Rgba};
use crate::collision::{check_collision, collides};
use crate::effects::{
    count_kind, effect_models, effects_after, fresh_effect, has_kind, speed_exponent,
    thickness_exponent, EffectModel, ItemEffectIndividual, EFFECT_DURATION_MICROS,
};
use crate::fixed::scale_by_pow2;
use crate::heading::Heading;
use crate::input::{Action, Input};
use crate::kinetic::{
    advance, advanced, radius_under, speed_under, steer, steered, PLAYER_BASE_RADIUS,
    PLAYER_BASE_SPEED, SPEED_LIMIT,
};
use crate::mapper::{Point, WorldPoint};
use crate::random::random_in_range;
use crate::raster::{draw_trail, with_trail, RADIUS_LIMIT};
use crate::timer::{Timer, TimerModel};
use vstd::prelude::*;

verus! {

/// How long a gap in the trail lasts: 300 milliseconds.
pub const GAP_MICROS: u64 = 300000;

/// The shortest stretch of painting between two gaps, in milliseconds.
pub const PAINTING_MILLIS_MIN: i64 = 1000;

/// Every stretch of painting is shorter than this, in milliseconds.
pub const PAINTING_MILLIS_END: i64 = 5000;

/// The model of a [`PlayerGapState`].
pub struct GapModel {
    pub gapping: bool,
    pub timer: TimerModel,
}

/// Whether a player is painting its trail or leaving a gap in it, and the
/// timer that ends the current stretch.
#[derive(Clone, Copy, Debug)]
pub struct PlayerGapState {
    /// True while the player leaves a gap.
    pub gapping: bool,
    /// Runs out when the state flips.
    pub timer: Timer,
}

impl View for PlayerGapState {
    type V = GapModel;

    open spec fn view(&self) -> GapModel {
        GapModel { gapping: self.gapping, timer: self.timer@ }
    }
}

/// A timer for a stretch of painting: fresh, and of a whole number of
/// milliseconds from [`PAINTING_MILLIS_MIN`] up to, not including,
/// [`PAINTING_MILLIS_END`].
pub open spec fn is_painting_timer(t: TimerModel) -> bool {
    exists|millis: int|
        PAINTING_MILLIS_MIN <= millis < PAINTING_MILLIS_END && t == TimerModel::fresh(
            #[trigger] (millis * 1000) as nat,
        )
}

/// The gap state after `delta` microseconds. When the timer runs out the
/// state flips: a gap always lasts [`GAP_MICROS`], the painting that follows
/// it lasts as long as `next_painting` says.
pub open spec fn gap_updated(g: GapModel, delta: nat, next_painting: TimerModel) -> GapModel {
    let timer = g.timer.ticked(delta);
    if !timer.finished {
        GapModel { gapping: g.gapping, timer }
    } else if g.gapping {
        GapModel { gapping: false, timer: next_painting }
    } else {
        GapModel { gapping: true, timer: TimerModel::fresh(GAP_MICROS as nat) }
    }
}

impl PlayerGapState {
    /// A player that paints, for a random stretch.
    pub fn new() -> (state: PlayerGapState)
        ensures
            !state@.gapping,
            is_painting_timer(state@.timer),
    {
        PlayerGapState { gapping: false, timer: PlayerGapState::random_timer() }
    }

    /// A player that paints until `timer` runs out.
    pub fn painting_for(timer: Timer) -> (state: PlayerGapState)
        ensures
            state@ == (GapModel { gapping: false, timer: timer@ }),
    {
        PlayerGapState { gapping: false, timer }
    }

    /// A timer for a stretch of painting of random length.
    pub fn random_timer() -> (timer: Timer)
        ensures
            is_painting_timer(timer@),
    {
        let millis = random_in_range(PAINTING_MILLIS_MIN, PAINTING_MILLIS_END);
        let timer = Timer::from_millis(millis as u64);
        assert(timer@ == TimerModel::fresh((millis * 1000) as nat));
        timer
    }

    /// The timer of a gap.
    pub fn gap_timer() -> (timer: Timer)
        ensures
            timer@ == TimerModel::fresh(GAP_MICROS as nat),
    {
        Timer::new(GAP_MICROS)
    }

    /// Advances the state by `delta` microseconds; the painting after a gap
    /// lasts as long as `next_painting` says.
    pub fn update_with(&mut self, delta: u64, next_painting: Timer)
        ensures
            final(self)@ == gap_updated(old(self)@, delta as nat, next_painting@),
    {
        self.timer.tick(delta);
        if self.timer.finished() {
            if self.gapping {
                self.gapping = false;
                self.timer = next_painting;
            } else {
                self.gapping = true;
                self.timer = PlayerGapState::gap_timer();
            }
        }
    }

    /// Advances the state by `delta` microseconds; the painting after a gap
    /// is of random length.
    pub fn update(&mut self, delta: u64)
        ensures
            exists|next_painting: TimerModel|
                is_painting_timer(next_painting) && final(self)@ == #[trigger] gap_updated(
                    old(self)@,
                    delta as nat,
                    next_painting,
                ),
    {
        let next_painting = PlayerGapState::random_timer();
        self.update_with(delta, next_painting);
        assert(self@ == gap_updated(old(self)@, delta as nat, next_painting@));
    }
}

/// One player of a round.
pub struct Player {
    /// The name shown to the players.
    pub name: String,
    /// The direction of motion.
    pub dir: Heading,
    /// Where the player is.
    pub position: WorldPoint,
    /// The colour of the trail.
    pub color: Rgba,
    /// The actions that steer left and right.
    pub steer_keys: (Action, Action),
    /// False from the tick in which the player died.
    pub alive: bool,
    /// Whether the player paints or leaves a gap.
    pub gap_state: PlayerGapState,
    /// The effects the player holds, oldest first.
    pub item_effects: Vec<(ItemEffectIndividual, Timer)>,
}

/// The model of a [`Player`].
pub struct PlayerModel {
    pub name: Seq<char>,
    pub dir: Point,
    pub position: Point,
    pub color: Rgba,
    pub steer_keys: (Action, Action),
    pub alive: bool,
    pub gap_state: GapModel,
    pub item_effects: Seq<EffectModel>,
}

impl View for Player {
    type V = PlayerModel;

    open spec fn view(&self) -> PlayerModel {
        PlayerModel {
            name: self.name@,
            dir: self.dir@,
            position: self.position@,
            color: self.color,
            steer_keys: self.steer_keys,
            alive: self.alive,
            gap_state: self.gap_state@,
            item_effects: effect_models(self.item_effects@),
        }
    }
}

impl PlayerModel {
    /// Trails do not kill this player, and it paints none.
    pub open spec fn is_free_flying(self) -> bool {
        has_kind(self.item_effects, ItemEffectIndividual::FreeFlying)
    }

    /// Left and right are swapped for this player.
    pub open spec fn is_steering_inverse(self) -> bool {
        has_kind(self.item_effects, ItemEffectIndividual::InverseSteer)
    }

    /// The actions that at present turn the player left and right.
    pub open spec fn current_steer_keys(self) -> (Action, Action) {
        if self.is_steering_inverse() {
            (self.steer_keys.1, self.steer_keys.0)
        } else {
            self.steer_keys
        }
    }

    /// The player's speed, in world units per second.
    pub open spec fn speed(self) -> nat {
        speed_under(self.item_effects)
    }

    /// The player's radius, in world units.
    pub open spec fn radius(self) -> nat {
        radius_under(self.item_effects)
    }

    /// The player with one more effect, newly granted.
    pub open spec fn with_effect(self, effect: ItemEffectIndividual) -> PlayerModel {
        PlayerModel { item_effects: self.item_effects.push(fresh_effect(effect)), ..self }
    }

    /// The player after its effects have aged by `delta` microseconds.
    pub open spec fn with_effects_after(self, delta: nat) -> PlayerModel {
        PlayerModel { item_effects: effects_after(self.item_effects, delta), ..self }
    }

    /// The heading after a tick in which the actions `held` are held.
    pub open spec fn dir_after(self, held: Seq<Action>, elapsed: nat) -> Point {
        let keys = self.current_steer_keys();
        steered(self.dir, held.contains(keys.0), held.contains(keys.1), elapsed)
    }

    /// The position after a tick: the player moves along the heading it has
    /// after steering.
    pub open spec fn position_after(self, held: Seq<Action>, elapsed: nat) -> Point {
        advanced(self.position, self.dir_after(held, elapsed), self.speed(), elapsed)
    }

    /// Whether the player dies in a tick that starts on the given canvas.
    pub open spec fn dies(self, canvas: CanvasModel, held: Seq<Action>, elapsed: nat) -> bool {
        collides(
            canvas,
            self.position_after(held, elapsed),
            self.dir_after(held, elapsed),
            self.radius() as int,
            self.is_free_flying(),
        )
    }

    /// The player after one tick on the given canvas. A dead player does not
    /// change. A living one turns, moves, is tested for collision at its new
    /// position, and its gap state advances. A gap only keeps the player from
    /// painting: while it lasts the player collides like any other. The gap
    /// state runs on the whole time that has passed, the movement on no more
    /// than the longest step.
    pub open spec fn stepped(
        self,
        canvas: CanvasModel,
        held: Seq<Action>,
        elapsed: nat,
        next_painting: TimerModel,
    ) -> PlayerModel {
        if !self.alive {
            self
        } else {
            PlayerModel {
                dir: self.dir_after(held, elapsed),
                position: self.position_after(held, elapsed),
                alive: !self.dies(canvas, held, elapsed),
                gap_state: gap_updated(self.gap_state, elapsed, next_painting),
                ..self
            }
        }
    }

    /// The canvas after the player's tick. A living player that neither leaves
    /// a gap nor flies free paints the segment from where it was to where it
    /// is, after its collision test.
    pub open spec fn canvas_stepped(
        self,
        canvas: CanvasModel,
        held: Seq<Action>,
        elapsed: nat,
        next_painting: TimerModel,
    ) -> CanvasModel {
        let after = self.stepped(canvas, held, elapsed, next_painting);
        if self.alive && !after.gap_state.gapping && !self.is_free_flying() {
            with_trail(
                canvas,
                self.position,
                self.dir,
                after.position,
                after.dir,
                self.radius() as int,
                self.color,
            )
        } else {
            canvas
        }
    }
}

/// A tick keeps the heading of a player at unit length.
pub proof fn lemma_step_keeps_unit_heading(
    p: PlayerModel,
    canvas: CanvasModel,
    held: Seq<Action>,
    elapsed: nat,
    next_painting: TimerModel,
)
    requires
        crate::heading::is_unit(p.dir),
    ensures
        crate::heading::is_unit(p.stepped(canvas, held, elapsed, next_painting).dir),
{
    let keys = p.current_steer_keys();
    crate::kinetic::lemma_steering_preserves_unit_length(
        p.dir,
        held.contains(keys.0),
        held.contains(keys.1),
        elapsed,
    );
}

/// A living player that is in the arena before its move and outside after it
/// is dead after the tick. So a living player is in the arena after every
/// tick if it was before.
pub proof fn lemma_living_player_stays_in_arena(
    p: PlayerModel,
    canvas: CanvasModel,
    held: Seq<Action>,
    elapsed: nat,
    next_painting: TimerModel,
)
    requires
        canvas.side > 0,
        p.alive ==> crate::mapper::in_arena(p.position),
    ensures
        p.alive && !crate::mapper::in_arena(p.position_after(held, elapsed)) ==> !p.stepped(
            canvas,
            held,
            elapsed,
            next_painting,
        ).alive,
        p.stepped(canvas, held, elapsed, next_painting).alive ==> crate::mapper::in_arena(
            p.stepped(canvas, held, elapsed, next_painting).position,
        ),
        p.canvas_stepped(canvas, held, elapsed, next_painting).side == canvas.side,
{
    if p.alive && !crate::mapper::in_arena(p.position_after(held, elapsed)) {
        crate::collision::lemma_moving_out_kills(
            canvas,
            p.position,
            p.dir_after(held, elapsed),
            p.speed(),
            elapsed,
            p.radius(),
            p.is_free_flying(),
        );
    }
}

/// A tick of no length neither turns nor moves a player, and paints
/// nothing.
pub proof fn lemma_step_of_no_length(
    p: PlayerModel,
    canvas: CanvasModel,
    held: Seq<Action>,
    next_painting: TimerModel,
)
    requires
        crate::mapper::in_world(p.position),
        canvas.wf(),
    ensures
        p.stepped(canvas, held, 0, next_painting).dir == p.dir,
        p.stepped(canvas, held, 0, next_painting).position == p.position,
        p.canvas_stepped(canvas, held, 0, next_painting) == canvas,
{
    let keys = p.current_steer_keys();
    crate::kinetic::lemma_tick_of_no_length_moves_nothing(
        p.position,
        p.dir,
        held.contains(keys.0),
        held.contains(keys.1),
        p.speed(),
    );
    crate::raster::lemma_no_sweep_paints_nothing(
        canvas,
        p.position,
        p.dir,
        p.radius() as int,
        p.color,
    );
}

/// The models of a list of players, in order.
pub open spec fn player_models(players: Seq<Player>) -> Seq<PlayerModel> {
    Seq::new(players.len(), |i: int| players[i]@)
}

proof fn lemma_models_of_prefix(effects: Seq<(ItemEffectIndividual, Timer)>, i: int)
    requires
        0 <= i < effects.len(),
    ensures
        effect_models(effects.take(i + 1)).drop_last() == effect_models(effects.take(i)),
        effect_models(effects.take(i + 1)).last() == (EffectModel {
            kind: effects[i].0,
            timer: effects[i].1@,
        }),
{
    assert(effect_models(effects.take(i + 1)).drop_last() =~= effect_models(effects.take(i)));
}

impl Player {
    /// A living player without effects that paints for a random stretch.
    pub fn new(
        name: String,
        color: Rgba,
        position: WorldPoint,
        dir: Heading,
        steer_keys: (Action, Action),
    ) -> (player: Player)
        ensures
            player@.name == name@,
            player@.color == color,
            player@.position == position@,
            player@.dir == dir@,
            player@.steer_keys == steer_keys,
            player@.alive,
            player@.item_effects == Seq::<EffectModel>::empty(),
            !player@.gap_state.gapping,
            is_painting_timer(player@.gap_state.timer),
    {
        let player = Player {
            name,
            dir,
            position,
            color,
            steer_keys,
            alive: true,
            gap_state: PlayerGapState::new(),
            item_effects: Vec::new(),
        };
        assert(player@.item_effects =~= Seq::<EffectModel>::empty());
        player
    }

    fn count_effects(&self, kind: ItemEffectIndividual) -> (n: usize)
        ensures
            n == count_kind(self@.item_effects, kind),
    {
        let mut n: usize = 0;
        let mut i: usize = 0;
        while i < self.item_effects.len()
            invariant
                i <= self.item_effects@.len(),
                n <= i,
                n == count_kind(effect_models(self.item_effects@.take(i as int)), kind),
            decreases self.item_effects@.len() - i,
        {
            proof {
                lemma_models_of_prefix(self.item_effects@, i as int);
            }
            if self.item_effects[i].0 == kind {
                n += 1;
            }
            i += 1;
        }
        proof {
            assert(self.item_effects@.take(i as int) =~= self.item_effects@);
        }
        n
    }

    fn has_effect(&self, kind: ItemEffectIndividual) -> (found: bool)
        ensures
            found == has_kind(self@.item_effects, kind),
    {
        let mut i: usize = 0;
        while i < self.item_effects.len()
            invariant
                i <= self.item_effects@.len(),
                forall|k: int| 0 <= k < i ==> (#[trigger] self@.item_effects[k]).kind != kind,
            decreases self.item_effects@.len() - i,
        {
            if self.item_effects[i].0 == kind {
                assert(self@.item_effects[i as int].kind == kind);
                return true;
            }
            i += 1;
        }
        false
    }

    /// The power of two that scales the speed: the number of speed-ups held
    /// minus the number of slow-downs.
    pub fn speed_mod(&self) -> (exponent: i128)
        ensures
            exponent == speed_exponent(self@.item_effects),
    {
        let count_speed = self.count_effects(ItemEffectIndividual::Speed);
        let count_slow = self.count_effects(ItemEffectIndividual::Slowness);
        count_speed as i128 - count_slow as i128
    }

    /// The power of two that scales the radius: the number of thickenings held
    /// minus the number of thinnings.
    pub fn thickness_mod(&self) -> (exponent: i128)
        ensures
            exponent == thickness_exponent(self@.item_effects),
    {
        let count_thick = self.count_effects(ItemEffectIndividual::Thick);
        let count_thin = self.count_effects(ItemEffectIndividual::Thin);
        count_thick as i128 - count_thin as i128
    }

    /// Whether trails do not kill this player.
    pub fn is_free_flying(&self) -> (free: bool)
        ensures
            free == self@.is_free_flying(),
    {
        self.has_effect(ItemEffectIndividual::FreeFlying)
    }

    /// Whether left and right are swapped for this player.
    pub fn is_steering_inverse(&self) -> (inverse: bool)
        ensures
            inverse == self@.is_steering_inverse(),
    {
        self.has_effect(ItemEffectIndividual::InverseSteer)
    }

    /// The actions that at present turn the player left and right: its own
    /// pair, swapped while its steering is inverted.
    pub fn get_current_steer_keys(&self) -> (keys: (Action, Action))
        ensures
            keys == self@.current_steer_keys(),
    {
        if self.is_steering_inverse() {
            (self.steer_keys.1, self.steer_keys.0)
        } else {
            self.steer_keys
        }
    }

    /// The player's speed, in world units per second: the base speed times
    /// two to the power of [`Player::speed_mod`].
    pub fn speed(&self) -> (speed: u64)
        ensures
            speed == self@.speed(),
            speed <= SPEED_LIMIT,
    {
        scale_by_pow2(PLAYER_BASE_SPEED, self.speed_mod(), SPEED_LIMIT)
    }

    /// The player's radius, in world units: the base radius times two to the
    /// power of [`Player::thickness_mod`].
    pub fn radius(&self) -> (radius: u64)
        ensures
            radius == self@.radius(),
            radius <= RADIUS_LIMIT,
    {
        scale_by_pow2(PLAYER_BASE_RADIUS, self.thickness_mod(), RADIUS_LIMIT)
    }

    /// Ages every effect by `delta` microseconds and drops those whose time is
    /// up.
    pub fn update_item_effects(&mut self, delta: u64)
        ensures
            final(self)@ == old(self)@.with_effects_after(delta as nat),
    {
        let mut kept: Vec<(ItemEffectIndividual, Timer)> = Vec::new();
        let mut i: usize = 0;
        while i < self.item_effects.len()
            invariant
                i <= self.item_effects@.len(),
                *self == *old(self),
                effect_models(kept@) == effects_after(
                    effect_models(self.item_effects@.take(i as int)),
                    delta as nat,
                ),
            decreases self.item_effects@.len() - i,
        {
            proof {
                lemma_models_of_prefix(self.item_effects@, i as int);
            }
            let (kind, mut timer) = self.item_effects[i];
            timer.tick(delta);
            if !timer.finished() {
                let ghost before = kept@;
                kept.push((kind, timer));
                assert(effect_models(kept@) =~= effect_models(before).push(
                    EffectModel { kind, timer: timer@ },
                ));
            }
            i += 1;
        }
        proof {
            assert(self.item_effects@.take(i as int) =~= self.item_effects@);
        }
        self.item_effects = kept;
    }

    /// Grants the player one more effect, which lasts
    /// [`EFFECT_DURATION_MICROS`].
    pub fn add_effect(&mut self, effect: ItemEffectIndividual)
        ensures
            final(self)@ == old(self)@.with_effect(effect),
    {
        self.item_effects.push((effect, Timer::new(EFFECT_DURATION_MICROS)));
        assert(self@.item_effects =~= old(self)@.item_effects.push(fresh_effect(effect)));
    }

    /// One tick of this player on the given canvas; the painting after a gap
    /// lasts as long as `next_painting` says.
    pub fn step_with(&mut self, texture: &mut Canvas, input: &Input, next_painting: Timer)
        ensures
            final(self)@ == old(self)@.stepped(
                old(texture)@,
                input.held@,
                input.elapsed as nat,
                next_painting@,
            ),
            final(texture)@ == old(self)@.canvas_stepped(
                old(texture)@,
                input.held@,
                input.elapsed as nat,
                next_painting@,
            ),
    {
        if !self.alive {
            return ;
        }
        let dir_before = self.dir;
        let (left_key, right_key) = self.get_current_steer_keys();
        let left = input.is_action_held(left_key);
        let right = input.is_action_held(right_key);
        self.dir = steer(self.dir, left, right, input.elapsed);

        let pos_before = self.position;
        let player_speed = self.speed();
        self.position = advance(self.position, self.dir, player_speed, input.elapsed);

        let player_radius = self.radius();
        let free_flying = self.is_free_flying();
        if check_collision(texture, self.position, self.dir, player_radius, free_flying) {
            self.alive = false;
        }
        self.gap_state.update_with(input.elapsed, next_painting);
        if !self.gap_state.gapping && !free_flying {
            draw_trail(
                pos_before,
                dir_before,
                self.position,
                self.dir,
                player_radius,
                texture,
                self.color,
            );
        }
    }

    /// One tick of this player on the given canvas; the painting after a gap
    /// is of random length.
    pub fn step(&mut self, texture: &mut Canvas, input: &Input)
        ensures
            exists|next_painting: TimerModel|
                is_painting_timer(next_painting) && final(self)@ == #[trigger] old(self)@.stepped(
                    old(texture)@,
                    input.held@,
                    input.elapsed as nat,
                    next_painting,
                ) && final(texture)@ == old(self)@.canvas_stepped(
                    old(texture)@,
                    input.held@,
                    input.elapsed as nat,
                    next_painting,
                ),
    {
        let next_painting = PlayerGapState::random_timer();
        self.step_with(texture, input, next_painting);
        assert(self@ == old(self)@.stepped(
            old(texture)@,
            input.held@,
            input.elapsed as nat,
            next_painting@,
        ));
    }
}

} // verus!
