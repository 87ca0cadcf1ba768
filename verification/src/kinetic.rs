//! The kinetic model: how steering turns a heading and how a heading moves a
//! position, both in proportion to the time that has passed.

use crate::effects::{speed_exponent, thickness_exponent, EffectModel};
use crate::fixed::{div_round_zero, div_toward_zero, min_int, scale_pow2};
use crate::heading::{
    is_unit, lemma_mirror_and_quarter_turn_keep_length, lemma_rotation_preserves_unit_length,
    mirrored, rotated, Heading, HEADING_ONE,
};
use crate::mapper::{world_point, Point, WorldPoint};
use crate::raster::RADIUS_LIMIT;
use vstd::arithmetic::div_mod::lemma_div_denominator;
use vstd::arithmetic::power2::{lemma2_to64, lemma_pow2_pos, lemma_pow2_unfold, pow2};
use vstd::prelude::*;

verus! {

/// The longest time one tick may move a player: 32 milliseconds. Longer ticks
/// are cut to this, so that a stall cannot carry a player across a trail.
pub const MAX_STEP_MICROS: u64 = 32000;

/// World units that a player without effects covers per second: 60/256 of
/// the arena's half width.
pub const PLAYER_BASE_SPEED: u64 = 245760;

/// Radius of a player without effects, in world units: 2.5/256 of the
/// arena's half width.
pub const PLAYER_BASE_RADIUS: u64 = 10240;

/// No speed is larger than this: about a million arena widths per second.
pub const SPEED_LIMIT: u64 = 1099511627776;

/// `HEADING_ONE` times the number of microseconds in a second: what the
/// product of a heading, a speed and a time is divided by.
pub const DISPLACEMENT_DIVISOR: i128 = 1073741824000000;

/// The rotation that a held steering key makes in `2^j` microseconds, for
/// `j` from 0 to 14. A key held for 960 milliseconds makes half a turn, that
/// is a sixtieth of it in every 16 milliseconds.
pub open spec fn turn_step_model(j: int) -> Point {
    if j == 0 {
        Point { x: 1073741824, y: 3514 }
    } else if j == 1 {
        Point { x: 1073741824, y: 7028 }
    } else if j == 2 {
        Point { x: 1073741824, y: 14055 }
    } else if j == 3 {
        Point { x: 1073741824, y: 28110 }
    } else if j == 4 {
        Point { x: 1073741823, y: 56221 }
    } else if j == 5 {
        Point { x: 1073741818, y: 112442 }
    } else if j == 6 {
        Point { x: 1073741800, y: 224884 }
    } else if j == 7 {
        Point { x: 1073741730, y: 449768 }
    } else if j == 8 {
        Point { x: 1073741447, y: 899536 }
    } else if j == 9 {
        Point { x: 1073740317, y: 1799071 }
    } else if j == 10 {
        Point { x: 1073735795, y: 3598137 }
    } else if j == 11 {
        Point { x: 1073717709, y: 7196233 }
    } else if j == 12 {
        Point { x: 1073645365, y: 14392143 }
    } else if j == 13 {
        Point { x: 1073356007, y: 28781699 }
    } else {
        Point { x: 1072198834, y: 57542715 }
    }
}

/// The rotation that a held steering key makes in the time whose binary
/// digits are the lowest `bits` digits of `micros`: the steps of the digits
/// that are set, applied from the lowest up.
pub open spec fn turn_from_bits(micros: nat, bits: nat) -> Point
    decreases bits,
{
    if bits == 0 {
        Point { x: HEADING_ONE as int, y: 0 }
    } else {
        let lower = turn_from_bits(micros, (bits - 1) as nat);
        if (micros / pow2((bits - 1) as nat)) % 2 == 1 {
            rotated(lower, turn_step_model(bits - 1))
        } else {
            lower
        }
    }
}

/// The part of a tick that moves and turns the players.
pub open spec fn step_micros(elapsed: nat) -> nat {
    min_int(elapsed as int, MAX_STEP_MICROS as int) as nat
}

/// The rotation to the left that a held steering key makes in a tick of
/// `elapsed` microseconds.
pub open spec fn turn_model(elapsed: nat) -> Point {
    turn_from_bits(step_micros(elapsed), 15)
}

/// The heading after a tick. The left key turns it counter-clockwise, then
/// the right key turns it clockwise by the same angle; a tick of no length
/// leaves it alone.
pub open spec fn steered(dir: Point, left: bool, right: bool, elapsed: nat) -> Point {
    if step_micros(elapsed) == 0 {
        dir
    } else {
        let after_left = if left {
            rotated(dir, turn_model(elapsed))
        } else {
            dir
        };
        if right {
            rotated(after_left, mirrored(turn_model(elapsed)))
        } else {
            after_left
        }
    }
}

/// How far a player moves along one axis in a tick: heading times speed times
/// time, rounded toward zero.
pub open spec fn displacement(h: int, speed: nat, elapsed: nat) -> int {
    div_toward_zero(h * (step_micros(elapsed) * speed), DISPLACEMENT_DIVISOR as int)
}

/// The position after a tick.
pub open spec fn advanced(position: Point, dir: Point, speed: nat, elapsed: nat) -> Point {
    world_point(
        position.x + displacement(dir.x, speed, elapsed),
        position.y + displacement(dir.y, speed, elapsed),
    )
}

/// The speed under the given effects: the base speed times two to the power
/// of the speed exponent, up to [`SPEED_LIMIT`].
pub open spec fn speed_under(effects: Seq<EffectModel>) -> nat {
    min_int(
        scale_pow2(PLAYER_BASE_SPEED as nat, speed_exponent(effects)) as int,
        SPEED_LIMIT as int,
    ) as nat
}

/// The radius under the given effects: the base radius times two to the power
/// of the thickness exponent, up to [`RADIUS_LIMIT`].
pub open spec fn radius_under(effects: Seq<EffectModel>) -> nat {
    min_int(
        scale_pow2(PLAYER_BASE_RADIUS as nat, thickness_exponent(effects)) as int,
        RADIUS_LIMIT as int,
    ) as nat
}

/// Every step of the table is a rotation: a vector of unit length.
pub proof fn lemma_turn_steps_are_unit(j: int)
    ensures
        is_unit(turn_step_model(j)),
{
    let t = turn_step_model(j);
    assert(is_unit(t)) by (nonlinear_arith)
        requires
            (t.x == 1073741824 && t.y == 3514) || (t.x == 1073741824 && t.y == 7028) || (t.x
                == 1073741824 && t.y == 14055) || (t.x == 1073741824 && t.y == 28110) || (t.x
                == 1073741823 && t.y == 56221) || (t.x == 1073741818 && t.y == 112442) || (t.x
                == 1073741800 && t.y == 224884) || (t.x == 1073741730 && t.y == 449768) || (t.x
                == 1073741447 && t.y == 899536) || (t.x == 1073740317 && t.y == 1799071) || (t.x
                == 1073735795 && t.y == 3598137) || (t.x == 1073717709 && t.y == 7196233) || (t.x
                == 1073645365 && t.y == 14392143) || (t.x == 1073356007 && t.y == 28781699) || (
            t.x == 1072198834 && t.y == 57542715),
    ;
}

/// The turn of any number of steps is a rotation: a vector of unit length.
pub proof fn lemma_turn_is_unit(micros: nat, bits: nat)
    ensures
        is_unit(turn_from_bits(micros, bits)),
    decreases bits,
{
    if bits == 0 {
        let e = turn_from_bits(micros, 0);
        assert(e.x * e.x + e.y * e.y == 1152921504606846976) by (nonlinear_arith)
            requires
                e.x == 1073741824,
                e.y == 0,
        ;
    } else {
        let lower = turn_from_bits(micros, (bits - 1) as nat);
        let step = turn_step_model(bits - 1);
        lemma_turn_is_unit(micros, (bits - 1) as nat);
        lemma_turn_steps_are_unit(bits - 1);
        lemma_rotation_preserves_unit_length(lower, step);
        assert(turn_from_bits(micros, bits) == lower || turn_from_bits(micros, bits) == rotated(
            lower,
            step,
        ));
    }
}

/// The least horizontal component of the turn of any tick: 0.99 in units of
/// `1 / HEADING_ONE`. A tick turns by little more than six degrees at most.
pub const TURN_X_MIN: i64 = 1063004405;

/// A bound above the vertical component of the turn that is made of the
/// lowest `bits` steps: the sum of the vertical components of these steps,
/// and one for the rounding of each.
pub open spec fn turn_reach(bits: int) -> int {
    if bits <= 0 {
        0
    } else if bits == 1 {
        3515
    } else if bits == 2 {
        10544
    } else if bits == 3 {
        24600
    } else if bits == 4 {
        52711
    } else if bits == 5 {
        108933
    } else if bits == 6 {
        221376
    } else if bits == 7 {
        446261
    } else if bits == 8 {
        896030
    } else if bits == 9 {
        1795567
    } else if bits == 10 {
        3594639
    } else if bits == 11 {
        7192777
    } else if bits == 12 {
        14389011
    } else if bits == 13 {
        28781155
    } else if bits == 14 {
        57562855
    } else {
        115105571
    }
}

/// Turning a small left turn by one more small step gives a small left turn:
/// it still points to the right, and above the horizontal axis by no more
/// than both together and one for rounding.
proof fn lemma_small_turns_add_up(lower: Point, step: Point)
    requires
        is_unit(lower),
        is_unit(step),
        lower.x >= TURN_X_MIN,
        0 <= lower.y <= 57562855,
        step.x >= 1072198834,
        3514 <= step.y <= 57542715,
    ensures
        is_unit(rotated(lower, step)),
        rotated(lower, step).x >= TURN_X_MIN,
        3 <= rotated(lower, step).y <= lower.y + step.y + 1,
{
    let one: int = 1073741824;
    let lo: int = 1152921498164396041;
    let hi: int = 1152921506754330625;
    let raw = crate::heading::turned_raw(lower, step);
    let n = crate::fixed::isqrt(crate::heading::norm2(raw));
    let r = rotated(lower, step);
    crate::heading::lemma_turned_length(lower, step);
    lemma_rotation_preserves_unit_length(lower, step);
    crate::heading::lemma_unit_bounds(lower);
    crate::heading::lemma_unit_bounds(step);
    let w = lower.y + step.y;
    // The raw product points to the right and up.
    assert(lower.x * step.x >= 1063004405 * 1072198834) by (nonlinear_arith)
        requires
            lower.x >= 1063004405,
            step.x >= 1072198834,
    ;
    assert(0 <= lower.y * step.y <= 57562855 * 57542715) by (nonlinear_arith)
        requires
            0 <= lower.y <= 57562855,
            0 <= step.y <= 57542715,
    ;
    assert(lower.x * step.y >= 1063004405 * 3514) by (nonlinear_arith)
        requires
            lower.x >= 1063004405,
            step.y >= 3514,
    ;
    assert(lower.x * step.y <= (one + 1) * step.y) by (nonlinear_arith)
        requires
            lower.x <= one + 1,
            step.y >= 0,
    ;
    assert(0 <= lower.y * step.x <= lower.y * (one + 1)) by (nonlinear_arith)
        requires
            0 <= step.x <= one + 1,
            lower.y >= 0,
    ;
    assert(raw.x > 0);
    assert(1063004405 * 3514 <= raw.y <= (one + 1) * w) by (nonlinear_arith)
        requires
            raw.y == lower.x * step.y + lower.y * step.x,
            lower.x * step.y >= 1063004405 * 3514,
            lower.x * step.y <= (one + 1) * step.y,
            0 <= lower.y * step.x <= lower.y * (one + 1),
            w == lower.y + step.y,
    ;
    // The vertical component.
    let y = raw.y * one;
    assert(1063004405 * 3514 * one <= y <= ((one + 1) * w) * one) by (nonlinear_arith)
        requires
            y == raw.y * one,
            1063004405 * 3514 <= raw.y <= (one + 1) * w,
            one == 1073741824,
    ;
    let q = y / n;
    crate::heading::lemma_floor_quotient(y, n, q);
    assert(r.y == q);
    if q < 3 {
        assert((q + 1) * n <= 3 * hi) by (nonlinear_arith)
            requires
                0 <= q < 3,
                0 < n <= hi,
        ;
        assert(false);
    }
    if q >= w + 2 {
        assert(q * n >= (w + 2) * lo) by (nonlinear_arith)
            requires
                q >= w + 2,
                n >= lo,
                w >= 0,
                lo > 0,
        ;
        assert((w + 2) * lo > ((one + 1) * w) * one) by (nonlinear_arith)
            requires
                0 <= w <= 115105570,
                one == 1073741824,
                lo == 1152921498164396041,
        ;
        assert(false);
    }
    // The horizontal component.
    let x = raw.x * one;
    assert(x > 0) by (nonlinear_arith)
        requires
            x == raw.x * one,
            raw.x > 0,
            one == 1073741824,
    ;
    crate::fixed::lemma_quotient_keeps_sign(x, n);
    assert(r.x >= 0);
    crate::heading::lemma_square_le(r.y, 115105571);
    if r.x < 1063004405 {
        crate::heading::lemma_square_lt(r.x, 1063004405);
        assert(1063004405 * 1063004405 + 115105571 * 115105571 < lo) by (nonlinear_arith)
            requires
                lo == 1152921498164396041,
        ;
        assert(false);
    }
}

/// The turn of a tick is a small left turn: it points to the right, and
/// above the horizontal axis unless the tick has no length.
pub proof fn lemma_turn_points_left(micros: nat, bits: nat)
    requires
        bits <= 15,
    ensures
        is_unit(turn_from_bits(micros, bits)),
        turn_from_bits(micros, bits).x >= TURN_X_MIN,
        0 <= turn_from_bits(micros, bits).y <= turn_reach(bits as int),
        micros % pow2(bits) != 0 ==> turn_from_bits(micros, bits).y >= 3,
    decreases bits,
{
    lemma_turn_is_unit(micros, bits);
    if bits == 0 {
        lemma2_to64();
    } else {
        let below = (bits - 1) as nat;
        let lower = turn_from_bits(micros, below);
        let step = turn_step_model(bits - 1);
        lemma_turn_points_left(micros, below);
        lemma_turn_steps_are_unit(bits - 1);
        lemma_pow2_pos(below);
        lemma_pow2_unfold(bits);
        vstd::arithmetic::div_mod::lemma_mod_breakdown(micros as int, pow2(below) as int, 2);
        assert(pow2(below) * 2 == pow2(bits));
        if (micros / pow2(below)) % 2 == 1 {
            lemma_small_turns_add_up(lower, step);
            assert(turn_from_bits(micros, bits) == rotated(lower, step));
        } else {
            assert(turn_from_bits(micros, bits) == lower);
            assert(pow2(below) * 0 == 0);
        }
    }
}

/// Left is counter-clockwise and right is clockwise: in a tick that has some
/// length, the left key alone turns every heading counter-clockwise and the
/// right key alone turns it clockwise.
pub proof fn lemma_steering_turns_the_right_way(dir: Point, elapsed: nat)
    requires
        is_unit(dir),
        elapsed > 0,
    ensures
        crate::heading::cross(dir, steered(dir, true, false, elapsed)) > 0,
        crate::heading::cross(dir, steered(dir, false, true, elapsed)) < 0,
{
    let micros = step_micros(elapsed);
    let turn = turn_model(elapsed);
    lemma_turn_points_left(micros, 15);
    lemma2_to64();
    assert(pow2(15) == 32768);
    assert(micros % 32768 == micros);
    lemma_mirror_and_quarter_turn_keep_length(turn);
    crate::heading::lemma_rotation_turns_its_way(dir, turn);
    crate::heading::lemma_rotation_turns_its_way(dir, mirrored(turn));
}

/// Steering keeps a heading's length: whatever keys are held for whatever
/// time, a heading of unit length is of unit length after the tick.
pub proof fn lemma_steering_preserves_unit_length(
    dir: Point,
    left: bool,
    right: bool,
    elapsed: nat,
)
    requires
        is_unit(dir),
    ensures
        is_unit(steered(dir, left, right, elapsed)),
{
    let turn = turn_model(elapsed);
    lemma_turn_is_unit(step_micros(elapsed), 15);
    lemma_mirror_and_quarter_turn_keep_length(turn);
    lemma_rotation_preserves_unit_length(dir, turn);
    let after_left = if left {
        rotated(dir, turn)
    } else {
        dir
    };
    lemma_rotation_preserves_unit_length(after_left, mirrored(turn));
}

/// Without effects a player moves at the base speed and has the base
/// radius.
pub proof fn lemma_base_values_without_effects()
    ensures
        speed_under(Seq::<EffectModel>::empty()) == PLAYER_BASE_SPEED,
        radius_under(Seq::<EffectModel>::empty()) == PLAYER_BASE_RADIUS,
{
    lemma2_to64();
}

/// Stacking: with `n` speed-ups and `m` slow-downs active, the speed is the
/// base speed times two to the power `n - m`, as far as the speed limit
/// allows; for a negative power, the base speed divided by two to the power
/// `m - n`, rounded down.
pub proof fn lemma_stacked_speed(effects: Seq<EffectModel>, n: nat, m: nat)
    requires
        crate::effects::count_kind(effects, crate::effects::ItemEffectIndividual::Speed) == n,
        crate::effects::count_kind(effects, crate::effects::ItemEffectIndividual::Slowness) == m,
    ensures
        speed_exponent(effects) == n - m,
        n >= m ==> speed_under(effects) == min_int(
            PLAYER_BASE_SPEED * pow2((n - m) as nat),
            SPEED_LIMIT as int,
        ),
        n < m ==> speed_under(effects) == PLAYER_BASE_SPEED as nat / pow2((m - n) as nat),
        n == m ==> speed_under(effects) == PLAYER_BASE_SPEED,
{
    lemma2_to64();
    if n < m {
        let d = pow2((m - n) as nat);
        lemma_pow2_pos((m - n) as nat);
        vstd::arithmetic::div_mod::lemma_div_basics_5(PLAYER_BASE_SPEED as int, d as int);
        vstd::arithmetic::div_mod::lemma_div_pos_is_pos(PLAYER_BASE_SPEED as int, d as int);
    }
}

/// Stacking: with `n` thickenings and `m` thinnings active, the radius is the
/// base radius times two to the power `n - m`, as far as the radius limit
/// allows; for a negative power, the base radius divided by two to the power
/// `m - n`, rounded down.
pub proof fn lemma_stacked_radius(effects: Seq<EffectModel>, n: nat, m: nat)
    requires
        crate::effects::count_kind(effects, crate::effects::ItemEffectIndividual::Thick) == n,
        crate::effects::count_kind(effects, crate::effects::ItemEffectIndividual::Thin) == m,
    ensures
        thickness_exponent(effects) == n - m,
        n >= m ==> radius_under(effects) == min_int(
            PLAYER_BASE_RADIUS * pow2((n - m) as nat),
            RADIUS_LIMIT as int,
        ),
        n < m ==> radius_under(effects) == PLAYER_BASE_RADIUS as nat / pow2((m - n) as nat),
        n == m ==> radius_under(effects) == PLAYER_BASE_RADIUS,
{
    lemma2_to64();
    if n < m {
        let d = pow2((m - n) as nat);
        lemma_pow2_pos((m - n) as nat);
        vstd::arithmetic::div_mod::lemma_div_basics_5(PLAYER_BASE_RADIUS as int, d as int);
        vstd::arithmetic::div_mod::lemma_div_pos_is_pos(PLAYER_BASE_RADIUS as int, d as int);
    }
}

/// Once the timers of all effects have run out, speed and radius are back at
/// their base values.
pub proof fn lemma_expired_effects_restore_base_values(effects: Seq<EffectModel>, delta: nat)
    requires
        forall|i: int|
            0 <= i < effects.len() ==> (#[trigger] effects[i]).timer.wf() && delta
                >= effects[i].timer.remaining(),
    ensures
        speed_under(crate::effects::effects_after(effects, delta)) == PLAYER_BASE_SPEED,
        radius_under(crate::effects::effects_after(effects, delta)) == PLAYER_BASE_RADIUS,
{
    crate::effects::lemma_effects_expire(effects, delta);
    lemma_base_values_without_effects();
}

/// A tick of no length neither turns nor moves a player.
pub proof fn lemma_tick_of_no_length_moves_nothing(
    position: Point,
    dir: Point,
    left: bool,
    right: bool,
    speed: nat,
)
    requires
        crate::mapper::in_world(position),
    ensures
        steered(dir, left, right, 0) == dir,
        advanced(position, dir, speed, 0) == position,
{
    assert(dir.x * (0 * speed) == 0 && dir.y * (0 * speed) == 0) by (nonlinear_arith);
}

/// The rotation that a held steering key makes in `2^j` microseconds.
fn turn_step(j: u32) -> (t: Heading)
    requires
        j < 15,
    ensures
        t@ == turn_step_model(j as int),
{
    let (x, y): (i64, i64) = match j {
        0 => (1073741824, 3514),
        1 => (1073741824, 7028),
        2 => (1073741824, 14055),
        3 => (1073741824, 28110),
        4 => (1073741823, 56221),
        5 => (1073741818, 112442),
        6 => (1073741800, 224884),
        7 => (1073741730, 449768),
        8 => (1073741447, 899536),
        9 => (1073740317, 1799071),
        10 => (1073735795, 3598137),
        11 => (1073717709, 7196233),
        12 => (1073645365, 14392143),
        13 => (1073356007, 28781699),
        _ => (1072198834, 57542715),
    };
    proof {
        lemma_turn_steps_are_unit(j as int);
    }
    match Heading::from_unit(x, y) {
        Some(t) => t,
        None => vstd::pervasive::unreached(),
    }
}

/// The rotation to the left that a held steering key makes in a tick of
/// `elapsed` microseconds.
pub fn turn_for(elapsed: u64) -> (t: Heading)
    ensures
        t@ == turn_model(elapsed as nat),
{
    let micros = if elapsed > MAX_STEP_MICROS {
        MAX_STEP_MICROS
    } else {
        elapsed
    };
    let mut turn = Heading::east();
    let mut rest = micros;
    let mut j: u32 = 0;
    proof {
        lemma2_to64();
    }
    while j < 15
        invariant
            j <= 15,
            rest as int == (micros as int) / (pow2(j as nat) as int),
            turn@ == turn_from_bits(micros as nat, j as nat),
        decreases 15 - j,
    {
        proof {
            lemma_pow2_pos(j as nat);
            lemma_pow2_unfold((j + 1) as nat);
            lemma_div_denominator(micros as int, pow2(j as nat) as int, 2);
            assert(pow2(j as nat) * 2 == 2 * pow2(j as nat));
        }
        if rest % 2 == 1 {
            let step = turn_step(j);
            turn = turn.rotate(&step);
        }
        rest = rest / 2;
        j += 1;
    }
    turn
}

/// Turns a heading as the steering keys ask for a tick of `elapsed`
/// microseconds.
pub fn steer(dir: Heading, left: bool, right: bool, elapsed: u64) -> (out: Heading)
    ensures
        out@ == steered(dir@, left, right, elapsed as nat),
{
    if elapsed == 0 || (!left && !right) {
        return dir;
    }
    let turn = turn_for(elapsed);
    let after_left = if left {
        dir.rotate(&turn)
    } else {
        dir
    };
    if right {
        let back = turn.mirror();
        after_left.rotate(&back)
    } else {
        after_left
    }
}

/// Moves a position along a heading for a tick of `elapsed` microseconds.
pub fn advance(position: WorldPoint, dir: Heading, speed: u64, elapsed: u64) -> (out: WorldPoint)
    requires
        speed <= SPEED_LIMIT,
    ensures
        out@ == advanced(position@, dir@, speed as nat, elapsed as nat),
{
    let micros = if elapsed > MAX_STEP_MICROS {
        MAX_STEP_MICROS
    } else {
        elapsed
    };
    let hx = dir.x() as i128;
    let hy = dir.y() as i128;
    assert(0 <= micros * speed <= 32000 * 1099511627776) by (nonlinear_arith)
        requires
            0 <= micros <= 32000,
            0 <= speed <= 1099511627776,
    ;
    let scale: i128 = (micros as i128) * (speed as i128);
    assert(-(1073741825 * 35184372088832000) <= hx * scale <= 1073741825 * 35184372088832000)
        by (nonlinear_arith)
        requires
            -1073741825 <= hx <= 1073741825,
            0 <= scale <= 35184372088832000,
    ;
    assert(-(1073741825 * 35184372088832000) <= hy * scale <= 1073741825 * 35184372088832000)
        by (nonlinear_arith)
        requires
            -1073741825 <= hy <= 1073741825,
            0 <= scale <= 35184372088832000,
    ;
    let dx = div_round_zero(hx * scale, DISPLACEMENT_DIVISOR);
    let dy = div_round_zero(hy * scale, DISPLACEMENT_DIVISOR);
    position.moved_by(dx as i64, dy as i64)
}

} // verus!
