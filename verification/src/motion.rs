//! Laws of the walk: a unit that steps towards a waypoint comes closer to
//! it, and reaches it within a number of ticks that grows with the distance,
//! as long as no step is longer than the reach within which a waypoint counts
//! as reached.

use crate::geometry::{
    clamp_coordinate, floor_sqrt_spec, lemma_floor_sqrt_exists, moved_towards, scale_towards_zero,
    Position,
};
use crate::path::{lemma_crossing_takes_first, PathView, ARRIVAL_EPSILON};
use vstd::arithmetic::div_mod::{lemma_div_pos_is_pos, lemma_fundamental_div_mod, lemma_mod_pos_bound};
use vstd::prelude::*;

verus! {

/// The distance of two points on the ground, in whole units, rounded down.
pub open spec fn ground_gap(a: Position, b: Position) -> int {
    floor_sqrt_spec(a.ground_dist_sq(b))
}

/// Whether every step is long enough to make headway against rounding and
/// no longer than the reach within which a waypoint counts as reached.
pub open spec fn steps_fit(steps: Seq<int>) -> bool {
    forall|i: int| 0 <= i < steps.len() ==> 3 <= #[trigger] steps[i] <= ARRIVAL_EPSILON
}

/// Where a unit stands after the first `ticks` of the given steps towards
/// one target.
pub open spec fn walked(position: Position, target: Position, steps: Seq<int>, ticks: nat) -> Position
    decreases ticks,
{
    if ticks == 0 {
        position
    } else {
        moved_towards(
            walked(position, target, steps, (ticks - 1) as nat),
            target,
            steps[ticks - 1],
        )
    }
}

/// The size of a number.
pub open spec fn magnitude(v: int) -> int {
    if v < 0 {
        -v
    } else {
        v
    }
}

/// One axis of a step that does not pass the target: the unit moves
/// towards the target, not beyond it, and what is left of the way is less
/// than its share of the way plus one unit.
proof fn lemma_axis_step(d: int, step: int, length: int)
    requires
        0 < step <= length,
    ensures
        ({
            let moved = scale_towards_zero(d, step, length);
            &&& d >= 0 ==> 0 <= moved <= d
            &&& d <= 0 ==> d <= moved <= 0
            &&& length * magnitude(d - moved) < magnitude(d) * (length - step) + length
        }),
{
    let a = magnitude(d);
    assert(a * step >= 0) by (nonlinear_arith)
        requires
            a >= 0,
            step > 0,
    ;
    let q = (a * step) / length;
    lemma_fundamental_div_mod(a * step, length);
    lemma_mod_pos_bound(a * step, length);
    lemma_div_pos_is_pos(a * step, length);
    let r = (a * step) % length;
    assert(a * step == length * q + r);
    assert(q <= a) by (nonlinear_arith)
        requires
            a * step == length * q + r,
            0 <= r,
            0 < step <= length,
            0 <= a,
            0 <= q,
    ;
    assert(length * (a - q) == a * (length - step) + r) by (nonlinear_arith)
        requires
            a * step == length * q + r,
    ;
    if d >= 0 {
        assert(d * step == a * step);
        assert(scale_towards_zero(d, step, length) == q);
    } else {
        assert(-(d * step) == a * step) by (nonlinear_arith)
            requires
                a == -d,
        ;
        if d * step < 0 {
            assert(scale_towards_zero(d, step, length) == -q);
        } else {
            assert(a * step == 0);
            assert(q == 0);
            assert(scale_towards_zero(d, step, length) == -q);
        }
    }
}

/// Adds up the parts of [`lemma_remainder_bound`].
proof fn lemma_sum_of_parts(
    x1: int,
    x2: int,
    y1: int,
    y2: int,
    square_a: int,
    square_b: int,
    cross_a: int,
    cross_b: int,
    unit: int,
    whole_left: int,
    whole_flat: int,
    whole_cross: int,
    whole_right: int,
)
    requires
        x1 < y1,
        x2 < y2,
        x1 + x2 == whole_left,
        y1 == square_a + cross_a + unit,
        y2 == square_b + cross_b + unit,
        square_a + square_b == whole_flat,
        cross_a + cross_b == whole_cross,
        whole_flat + whole_cross + 2 * unit <= whole_right,
    ensures
        whole_left < whole_right,
{
}

/// What is left after a step, squared and scaled: the arithmetic behind
/// [`lemma_step_gets_closer`].
proof fn lemma_remainder_bound(a: int, b: int, ea: int, eb: int, length: int, rest: int, flat: int)
    requires
        0 <= a <= length,
        0 <= b <= length,
        0 <= ea,
        0 <= eb,
        0 <= rest < length,
        flat == a * a + b * b,
        flat < (length + 1) * (length + 1),
        length * ea < a * rest + length,
        length * eb < b * rest + length,
    ensures
        ea * ea + eb * eb < (rest + 3) * (rest + 3),
{
    let l = length;
    let m = rest;
    let left = ea * ea + eb * eb;
    let right = (m + 3) * (m + 3);
    let x1 = (l * ea) * (l * ea);
    let x2 = (l * eb) * (l * eb);
    let y1 = (a * m + l) * (a * m + l);
    let y2 = (b * m + l) * (b * m + l);
    let square_a = m * m * (a * a);
    let square_b = m * m * (b * b);
    let cross_a = 2 * m * l * a;
    let cross_b = 2 * m * l * b;
    let unit = l * l;
    let whole_left = l * l * left;
    let whole_flat = m * m * flat;
    let whole_cross = 2 * m * l * (a + b);
    let whole_right = l * l * right;
    assert(x1 < y1) by (nonlinear_arith)
        requires
            x1 == (l * ea) * (l * ea),
            y1 == (a * m + l) * (a * m + l),
            0 <= l * ea < a * m + l,
    ;
    assert(x2 < y2) by (nonlinear_arith)
        requires
            x2 == (l * eb) * (l * eb),
            y2 == (b * m + l) * (b * m + l),
            0 <= l * eb < b * m + l,
    ;
    assert(x1 + x2 == whole_left) by (nonlinear_arith)
        requires
            x1 == (l * ea) * (l * ea),
            x2 == (l * eb) * (l * eb),
            whole_left == l * l * (ea * ea + eb * eb),
    ;
    assert(y1 == square_a + cross_a + unit) by (nonlinear_arith)
        requires
            y1 == (a * m + l) * (a * m + l),
            square_a == m * m * (a * a),
            cross_a == 2 * m * l * a,
            unit == l * l,
    ;
    assert(y2 == square_b + cross_b + unit) by (nonlinear_arith)
        requires
            y2 == (b * m + l) * (b * m + l),
            square_b == m * m * (b * b),
            cross_b == 2 * m * l * b,
            unit == l * l,
    ;
    assert(square_a + square_b == whole_flat) by (nonlinear_arith)
        requires
            square_a == m * m * (a * a),
            square_b == m * m * (b * b),
            whole_flat == m * m * (a * a + b * b),
    ;
    assert(cross_a + cross_b == whole_cross) by (nonlinear_arith)
        requires
            cross_a == 2 * m * l * a,
            cross_b == 2 * m * l * b,
            whole_cross == 2 * m * l * (a + b),
    ;
    assert(flat <= l * l + 2 * l) by (nonlinear_arith)
        requires
            flat < (l + 1) * (l + 1),
    ;
    assert(whole_flat + whole_cross + 2 * unit <= whole_right) by (nonlinear_arith)
        requires
            whole_flat == m * m * flat,
            whole_cross == 2 * m * l * (a + b),
            unit == l * l,
            whole_right == l * l * ((m + 3) * (m + 3)),
            flat <= l * l + 2 * l,
            0 <= flat,
            0 <= a + b <= 2 * l,
            0 <= m < l,
    ;
    lemma_sum_of_parts(
        x1,
        x2,
        y1,
        y2,
        square_a,
        square_b,
        cross_a,
        cross_b,
        unit,
        whole_left,
        whole_flat,
        whole_cross,
        whole_right,
    );
    assert(left < right) by (nonlinear_arith)
        requires
            l * l * left < l * l * right,
            l > 0,
    ;
}

/// A step that does not pass the target brings the unit closer: the
/// distance left, in whole units, is at most the distance before less the
/// step, plus two units for rounding.
pub proof fn lemma_step_gets_closer(position: Position, target: Position, step: int)
    requires
        0 < step <= ground_gap(position, target),
    ensures
        ground_gap(moved_towards(position, target, step), target) <= ground_gap(position, target)
            - step + 2,
{
    let dx = target.x - position.x;
    let dz = target.z - position.z;
    let flat = dx * dx + dz * dz;
    assert(position.ground_dist_sq(target) == flat) by (nonlinear_arith)
        requires
            dx == target.x - position.x,
            dz == target.z - position.z,
            flat == dx * dx + dz * dz,
            position.ground_dist_sq(target) == (position.x - target.x) * (position.x - target.x) + (
            position.z - target.z) * (position.z - target.z),
    ;
    assert(flat >= 0) by (nonlinear_arith)
        requires
            flat == dx * dx + dz * dz,
    ;
    lemma_floor_sqrt_exists(flat);
    let length = floor_sqrt_spec(flat);
    let a = magnitude(dx);
    let b = magnitude(dz);
    assert(a * a + b * b == flat) by (nonlinear_arith)
        requires
            a == dx || a == -dx,
            b == dz || b == -dz,
            flat == dx * dx + dz * dz,
    ;
    assert(a <= length && b <= length) by (nonlinear_arith)
        requires
            a * a + b * b < (length + 1) * (length + 1),
            0 <= a,
            0 <= b,
            0 <= length,
    ;
    lemma_axis_step(dx, step, length);
    lemma_axis_step(dz, step, length);
    let mx = scale_towards_zero(dx, step, length);
    let mz = scale_towards_zero(dz, step, length);
    let moved = moved_towards(position, target, step);
    assert(clamp_coordinate(position.x + mx) == position.x + mx);
    assert(clamp_coordinate(position.z + mz) == position.z + mz);
    assert(moved.x == position.x + mx);
    assert(moved.z == position.z + mz);
    let ea = magnitude(dx - mx);
    let eb = magnitude(dz - mz);
    let after = moved.ground_dist_sq(target);
    assert(after == ea * ea + eb * eb) by (nonlinear_arith)
        requires
            after == (moved.x - target.x) * (moved.x - target.x) + (moved.z - target.z) * (moved.z
                - target.z),
            moved.x - target.x == -(dx - mx),
            moved.z - target.z == -(dz - mz),
            ea == dx - mx || ea == -(dx - mx),
            eb == dz - mz || eb == -(dz - mz),
    ;
    lemma_remainder_bound(a, b, ea, eb, length, length - step, flat);
    assert(after >= 0) by (nonlinear_arith)
        requires
            after == ea * ea + eb * eb,
    ;
    lemma_floor_sqrt_exists(after);
    let left = floor_sqrt_spec(after);
    let rest = length - step;
    assert(left < rest + 3) by (nonlinear_arith)
        requires
            left * left <= after,
            after < (rest + 3) * (rest + 3),
            0 <= left,
            0 <= rest,
    ;
}

/// A leg is walked in a number of ticks that is bounded by its length: a
/// unit that is `gap` whole units away from its waypoint, outside its reach,
/// and whose steps fit, has reached it after at most `gap` ticks.
pub proof fn lemma_leg_is_walked(position: Position, target: Position, steps: Seq<int>)
    requires
        steps_fit(steps),
        ground_gap(position, target) >= ARRIVAL_EPSILON,
        steps.len() >= ground_gap(position, target),
    ensures
        exists|ticks: nat|
            1 <= ticks <= ground_gap(position, target) && #[trigger] walked(
                position,
                target,
                steps,
                ticks,
            ).ground_within(target, ARRIVAL_EPSILON as int),
    decreases ground_gap(position, target),
{
    let gap = ground_gap(position, target);
    let step = steps[0];
    let next = moved_towards(position, target, step);
    lemma_step_gets_closer(position, target, step);
    let left = ground_gap(next, target);
    assert(walked(position, target, steps, 1) == next) by {
        assert(walked(position, target, steps, 0) == position);
    }
    lemma_distance_is_not_negative(next, target);
    lemma_floor_sqrt_exists(next.ground_dist_sq(target));
    if left < ARRIVAL_EPSILON {
        assert(next.ground_dist_sq(target) < (left + 1) * (left + 1));
        assert((left + 1) * (left + 1) <= ARRIVAL_EPSILON * ARRIVAL_EPSILON) by (nonlinear_arith)
            requires
                0 <= left,
                left + 1 <= ARRIVAL_EPSILON,
        ;
        assert(walked(position, target, steps, 1).ground_within(target, ARRIVAL_EPSILON as int));
    } else {
        let later = steps.skip(1);
        lemma_later_steps_fit(steps, 1);
        lemma_leg_is_walked(next, target, later);
        let more = choose|ticks: nat|
            1 <= ticks <= left && #[trigger] walked(next, target, later, ticks).ground_within(
                target,
                ARRIVAL_EPSILON as int,
            );
        lemma_walk_joins(position, target, steps, more);
        assert(walked(position, target, steps, more + 1).ground_within(
            target,
            ARRIVAL_EPSILON as int,
        ));
    }
}

/// Steps that fit still fit when the first of them are left out.
proof fn lemma_later_steps_fit(steps: Seq<int>, from: int)
    requires
        steps_fit(steps),
        0 <= from <= steps.len(),
    ensures
        steps_fit(steps.skip(from)),
        steps.skip(from).len() == steps.len() - from,
{
    assert forall|i: int| 0 <= i < steps.skip(from).len() implies 3 <= #[trigger] steps.skip(
        from,
    )[i] <= ARRIVAL_EPSILON by {
        assert(steps.skip(from)[i] == steps[i + from]);
    }
}

/// A squared distance is not negative.
proof fn lemma_distance_is_not_negative(a: Position, b: Position)
    ensures
        a.ground_dist_sq(b) >= 0,
{
    assert(a.ground_dist_sq(b) >= 0) by (nonlinear_arith)
        requires
            a.ground_dist_sq(b) == (a.x - b.x) * (a.x - b.x) + (a.z - b.z) * (a.z - b.z),
    ;
}

/// Walking one tick and then `ticks` more is walking `ticks + 1`.
proof fn lemma_walk_joins(position: Position, target: Position, steps: Seq<int>, ticks: nat)
    requires
        ticks < steps.len(),
    ensures
        walked(moved_towards(position, target, steps[0]), target, steps.skip(1), ticks) == walked(
            position,
            target,
            steps,
            ticks + 1,
        ),
    decreases ticks,
{
    if ticks == 0 {
        assert(walked(position, target, steps, 0) == position);
        assert(walked(position, target, steps, 1) == moved_towards(
            walked(position, target, steps, 0),
            target,
            steps[0],
        ));
    } else {
        lemma_walk_joins(position, target, steps, (ticks - 1) as nat);
        assert(steps.skip(1)[ticks - 1] == steps[ticks as int]);
    }
}

/// One axis of a step that passes the target: the unit moves towards the
/// target and beyond it, by no more than the step.
proof fn lemma_axis_overshoot(d: int, step: int, length: int)
    requires
        0 < length < step,
        magnitude(d) <= length,
    ensures
        ({
            let moved = scale_towards_zero(d, step, length);
            &&& d >= 0 ==> d <= moved <= step
            &&& d <= 0 ==> -step <= moved <= d
        }),
{
    let a = magnitude(d);
    assert(a * step >= 0) by (nonlinear_arith)
        requires
            a >= 0,
            step > 0,
    ;
    let q = (a * step) / length;
    lemma_fundamental_div_mod(a * step, length);
    lemma_mod_pos_bound(a * step, length);
    lemma_div_pos_is_pos(a * step, length);
    let r = (a * step) % length;
    assert(a * step == length * q + r);
    assert(q <= step) by (nonlinear_arith)
        requires
            a * step == length * q + r,
            0 <= r,
            0 <= a <= length,
            0 < length,
            0 < step,
            0 <= q,
    ;
    assert(q >= a) by (nonlinear_arith)
        requires
            a * step == length * q + r,
            r < length,
            0 <= a,
            0 < length < step,
            0 <= q,
    ;
    assert(a == 0 ==> q == 0) by (nonlinear_arith)
        requires
            a * step == length * q + r,
            0 <= r,
            0 <= q,
            0 < length,
    ;
    if d >= 0 {
        assert(d * step == a * step);
        assert(scale_towards_zero(d, step, length) == q);
    } else {
        assert(-(d * step) == a * step) by (nonlinear_arith)
            requires
                a == -d,
        ;
        assert(d * step < 0) by (nonlinear_arith)
            requires
                d < 0,
                step > 0,
        ;
        assert(scale_towards_zero(d, step, length) == -q);
    }
}

/// A step that passes the target leaves the unit no farther from it than
/// the step on either axis.
proof fn lemma_step_overshoots(position: Position, target: Position, step: int)
    requires
        0 < ground_gap(position, target) < step,
    ensures
        moved_towards(position, target, step).ground_dist_sq(target) <= 2 * step * step,
{
    let dx = target.x - position.x;
    let dz = target.z - position.z;
    let flat = dx * dx + dz * dz;
    assert(position.ground_dist_sq(target) == flat) by (nonlinear_arith)
        requires
            dx == target.x - position.x,
            dz == target.z - position.z,
            flat == dx * dx + dz * dz,
            position.ground_dist_sq(target) == (position.x - target.x) * (position.x - target.x) + (
            position.z - target.z) * (position.z - target.z),
    ;
    assert(flat >= 0) by (nonlinear_arith)
        requires
            flat == dx * dx + dz * dz,
    ;
    lemma_floor_sqrt_exists(flat);
    let length = floor_sqrt_spec(flat);
    let a = magnitude(dx);
    let b = magnitude(dz);
    assert(a * a + b * b == flat) by (nonlinear_arith)
        requires
            a == dx || a == -dx,
            b == dz || b == -dz,
            flat == dx * dx + dz * dz,
    ;
    assert(a <= length && b <= length) by (nonlinear_arith)
        requires
            a * a + b * b < (length + 1) * (length + 1),
            0 <= a,
            0 <= b,
            0 <= length,
    ;
    lemma_axis_overshoot(dx, step, length);
    lemma_axis_overshoot(dz, step, length);
    let moved = moved_towards(position, target, step);
    let ex = moved.x - target.x;
    let ez = moved.z - target.z;
    assert(-step <= ex <= step);
    assert(-step <= ez <= step);
    assert(ex * ex <= step * step) by (nonlinear_arith)
        requires
            -step <= ex <= step,
    ;
    assert(ez * ez <= step * step) by (nonlinear_arith)
        requires
            -step <= ez <= step,
    ;
    assert(moved.ground_dist_sq(target) == ex * ex + ez * ez);
    assert(2 * step * step == step * step + step * step) by (nonlinear_arith);
}

/// Adds up the parts of [`lemma_product_of_squares`].
proof fn lemma_sum_of_products(
    whole: int,
    aa: int,
    bb: int,
    cc: int,
    ee: int,
    ab: int,
    ce: int,
    dot_squared: int,
    cross_squared: int,
)
    requires
        whole == aa + cc + ee + bb,
        dot_squared == aa + 2 * ab + bb,
        cross_squared == cc - 2 * ce + ee,
        ab == ce,
    ensures
        whole == dot_squared + cross_squared,
{
}

/// The product of the squared lengths of two vectors is the square of
/// their dot product plus the square of their cross product.
proof fn lemma_product_of_squares(ux: int, uz: int, vx: int, vz: int)
    ensures
        (ux * ux + uz * uz) * (vx * vx + vz * vz) == (ux * vx + uz * vz) * (ux * vx + uz * vz) + (ux
            * vz - uz * vx) * (ux * vz - uz * vx),
{
    let a = ux * vx;
    let b = uz * vz;
    let c = ux * vz;
    let e = uz * vx;
    let sx = ux * ux;
    let sz = uz * uz;
    let tx = vx * vx;
    let tz = vz * vz;
    let whole = (sx + sz) * (tx + tz);
    assert(whole == sx * tx + sx * tz + sz * tx + sz * tz) by (nonlinear_arith)
        requires
            whole == (sx + sz) * (tx + tz),
    ;
    assert(sx * tx == a * a) by (nonlinear_arith)
        requires
            sx == ux * ux,
            tx == vx * vx,
            a == ux * vx,
    ;
    assert(sx * tz == c * c) by (nonlinear_arith)
        requires
            sx == ux * ux,
            tz == vz * vz,
            c == ux * vz,
    ;
    assert(sz * tx == e * e) by (nonlinear_arith)
        requires
            sz == uz * uz,
            tx == vx * vx,
            e == uz * vx,
    ;
    assert(sz * tz == b * b) by (nonlinear_arith)
        requires
            sz == uz * uz,
            tz == vz * vz,
            b == uz * vz,
    ;
    assert(a * b == c * e) by (nonlinear_arith)
        requires
            a == ux * vx,
            b == uz * vz,
            c == ux * vz,
            e == uz * vx,
    ;
    let dot_squared = (a + b) * (a + b);
    let cross_squared = (c - e) * (c - e);
    assert(dot_squared == a * a + 2 * (a * b) + b * b) by (nonlinear_arith)
        requires
            dot_squared == (a + b) * (a + b),
    ;
    assert(cross_squared == c * c - 2 * (c * e) + e * e) by (nonlinear_arith)
        requires
            cross_squared == (c - e) * (c - e),
    ;
    lemma_sum_of_products(
        whole,
        a * a,
        b * b,
        c * c,
        e * e,
        a * b,
        c * e,
        dot_squared,
        cross_squared,
    );
}

/// The straight way is the shortest, up to rounding: the distance from `a`
/// to `c` in whole units is at most the distances from `a` to `b` and from
/// `b` to `c` together, plus one.
pub proof fn lemma_gap_triangle(a: Position, b: Position, c: Position)
    ensures
        ground_gap(a, c) <= ground_gap(a, b) + ground_gap(b, c) + 1,
{
    let ux = b.x - a.x;
    let uz = b.z - a.z;
    let vx = c.x - b.x;
    let vz = c.z - b.z;
    let uu = ux * ux + uz * uz;
    let vv = vx * vx + vz * vz;
    let uv = ux * vx + uz * vz;
    let ww = (ux + vx) * (ux + vx) + (uz + vz) * (uz + vz);
    lemma_distance_is_not_negative(a, b);
    lemma_distance_is_not_negative(b, c);
    lemma_distance_is_not_negative(a, c);
    assert(a.ground_dist_sq(b) == uu) by (nonlinear_arith)
        requires
            a.ground_dist_sq(b) == (a.x - b.x) * (a.x - b.x) + (a.z - b.z) * (a.z - b.z),
            ux == b.x - a.x,
            uz == b.z - a.z,
            uu == ux * ux + uz * uz,
    ;
    assert(b.ground_dist_sq(c) == vv) by (nonlinear_arith)
        requires
            b.ground_dist_sq(c) == (b.x - c.x) * (b.x - c.x) + (b.z - c.z) * (b.z - c.z),
            vx == c.x - b.x,
            vz == c.z - b.z,
            vv == vx * vx + vz * vz,
    ;
    assert(a.ground_dist_sq(c) == ww) by (nonlinear_arith)
        requires
            a.ground_dist_sq(c) == (a.x - c.x) * (a.x - c.x) + (a.z - c.z) * (a.z - c.z),
            ux + vx == c.x - a.x,
            uz + vz == c.z - a.z,
            ww == (ux + vx) * (ux + vx) + (uz + vz) * (uz + vz),
    ;
    lemma_floor_sqrt_exists(uu);
    lemma_floor_sqrt_exists(vv);
    lemma_floor_sqrt_exists(ww);
    let p = floor_sqrt_spec(uu) + 1;
    let q = floor_sqrt_spec(vv) + 1;
    let pq = p * q;
    assert(ww == uu + vv + 2 * uv) by (nonlinear_arith)
        requires
            ww == (ux + vx) * (ux + vx) + (uz + vz) * (uz + vz),
            uu == ux * ux + uz * uz,
            vv == vx * vx + vz * vz,
            uv == ux * vx + uz * vz,
    ;
    let cross = ux * vz - uz * vx;
    lemma_product_of_squares(ux, uz, vx, vz);
    assert(cross * cross >= 0) by (nonlinear_arith);
    assert(uu * vv < pq * pq) by (nonlinear_arith)
        requires
            0 <= uu < p * p,
            0 <= vv < q * q,
            pq == p * q,
            p >= 1,
            q >= 1,
    ;
    assert(uv < pq) by (nonlinear_arith)
        requires
            uv * uv < pq * pq,
            pq >= 0,
    ;
    assert((p + q) * (p + q) == p * p + q * q + 2 * pq) by (nonlinear_arith)
        requires
            pq == p * q,
    ;
    assert(ww < (p + q) * (p + q));
    let root = floor_sqrt_spec(ww);
    assert(root < p + q) by (nonlinear_arith)
        requires
            root * root <= ww,
            ww < (p + q) * (p + q),
            0 <= root,
            0 <= p + q,
    ;
}

/// Whether a unit that walks towards `target` reaches it with tick `ticks`
/// and with none before.
pub open spec fn first_reach(position: Position, target: Position, steps: Seq<int>, ticks: nat) -> bool {
    &&& walked(position, target, steps, ticks).ground_within(target, ARRIVAL_EPSILON as int)
    &&& forall|earlier: nat|
        1 <= earlier < ticks ==> !#[trigger] walked(position, target, steps, earlier).ground_within(
            target,
            ARRIVAL_EPSILON as int,
        )
}

/// If a tick reaches, some tick is the first to reach.
proof fn lemma_first_of_reaches(position: Position, target: Position, steps: Seq<int>, some: nat)
    requires
        1 <= some,
        walked(position, target, steps, some).ground_within(target, ARRIVAL_EPSILON as int),
    ensures
        exists|ticks: nat|
            1 <= ticks <= some && #[trigger] first_reach(position, target, steps, ticks),
    decreases some,
{
    if exists|earlier: nat|
        1 <= earlier < some && #[trigger] walked(position, target, steps, earlier).ground_within(
            target,
            ARRIVAL_EPSILON as int,
        ) {
        let earlier = choose|earlier: nat|
            1 <= earlier < some && #[trigger] walked(
                position,
                target,
                steps,
                earlier,
            ).ground_within(target, ARRIVAL_EPSILON as int);
        lemma_first_of_reaches(position, target, steps, earlier);
    } else {
        assert(first_reach(position, target, steps, some));
    }
}

/// Whatever the distance, a leg is walked in a number of ticks bounded by
/// it: with steps that fit, the unit first reaches its waypoint after at
/// most `gap + 15` ticks.
pub proof fn lemma_leg_is_walked_from_anywhere(position: Position, target: Position, steps: Seq<int>)
    requires
        steps_fit(steps),
        steps.len() >= ground_gap(position, target) + 15,
    ensures
        exists|ticks: nat|
            1 <= ticks <= ground_gap(position, target) + 15 && #[trigger] first_reach(
                position,
                target,
                steps,
                ticks,
            ),
{
    let gap = ground_gap(position, target);
    lemma_distance_is_not_negative(position, target);
    lemma_floor_sqrt_exists(position.ground_dist_sq(target));
    let step = steps[0];
    let next = moved_towards(position, target, step);
    assert(walked(position, target, steps, 1) == next) by {
        assert(walked(position, target, steps, 0) == position);
    }
    lemma_distance_is_not_negative(next, target);
    lemma_floor_sqrt_exists(next.ground_dist_sq(target));
    let left = ground_gap(next, target);
    if gap >= ARRIVAL_EPSILON {
        lemma_leg_is_walked(position, target, steps);
        let some = choose|ticks: nat|
            1 <= ticks <= gap && #[trigger] walked(position, target, steps, ticks).ground_within(
                target,
                ARRIVAL_EPSILON as int,
            );
        lemma_first_of_reaches(position, target, steps, some);
    } else {
        if gap == 0 {
            let dx = target.x - position.x;
            let dz = target.z - position.z;
            assert(position.ground_dist_sq(target) == dx * dx + dz * dz) by (nonlinear_arith)
                requires
                    dx == target.x - position.x,
                    dz == target.z - position.z,
                    position.ground_dist_sq(target) == (position.x - target.x) * (position.x
                        - target.x) + (position.z - target.z) * (position.z - target.z),
            ;
            assert(next == position);
            assert(position.ground_dist_sq(target) < 1) by (nonlinear_arith)
                requires
                    position.ground_dist_sq(target) < (gap + 1) * (gap + 1),
                    gap == 0,
            ;
        } else if step <= gap {
            lemma_step_gets_closer(position, target, step);
        } else {
            lemma_step_overshoots(position, target, step);
            assert(2 * step * step <= 200) by (nonlinear_arith)
                requires
                    3 <= step <= 10,
            ;
            assert(left < 15) by (nonlinear_arith)
                requires
                    left * left <= next.ground_dist_sq(target),
                    next.ground_dist_sq(target) <= 200,
                    0 <= left,
            ;
        }
        if left < ARRIVAL_EPSILON {
            assert((left + 1) * (left + 1) <= ARRIVAL_EPSILON * ARRIVAL_EPSILON)
                by (nonlinear_arith)
                requires
                    0 <= left,
                    left + 1 <= ARRIVAL_EPSILON,
            ;
            assert(walked(position, target, steps, 1).ground_within(
                target,
                ARRIVAL_EPSILON as int,
            ));
            lemma_first_of_reaches(position, target, steps, 1);
        } else {
            let later = steps.skip(1);
            lemma_later_steps_fit(steps, 1);
            lemma_leg_is_walked(next, target, later);
            let more = choose|ticks: nat|
                1 <= ticks <= left && #[trigger] walked(next, target, later, ticks).ground_within(
                    target,
                    ARRIVAL_EPSILON as int,
                );
            lemma_walk_joins(position, target, steps, more);
            lemma_first_of_reaches(position, target, steps, more + 1);
        }
    }
}

/// The length of a route from `position` over the waypoints, leg by leg,
/// in whole units.
pub open spec fn route_gap(position: Position, waypoints: Seq<Position>) -> int
    decreases waypoints.len(),
{
    if waypoints.len() == 0 {
        0
    } else {
        ground_gap(position, waypoints[0]) + route_gap(
            waypoints[0],
            waypoints.subrange(1, waypoints.len() as int),
        )
    }
}

/// Whether a unit at `position` on `path` has arrived after at most
/// `ticks` ticks, of which the first takes the first of `steps`, and so on.
/// Each tick the unit steps towards the current waypoint; a waypoint reached
/// gives way to the next, and the last one reached is the arrival.
pub open spec fn arrives_within<R>(
    path: PathView<R>,
    position: Position,
    steps: Seq<int>,
    ticks: nat,
) -> bool
    decreases ticks,
{
    if ticks == 0 {
        false
    } else {
        let moved = moved_towards(position, path.current, steps[0]);
        path.arrives(moved) || arrives_within(
            path.followed(moved),
            moved,
            steps.skip(1),
            (ticks - 1) as nat,
        )
    }
}

/// More ticks do not undo an arrival.
proof fn lemma_arrival_stays<R>(
    path: PathView<R>,
    position: Position,
    steps: Seq<int>,
    ticks: nat,
    more: nat,
)
    requires
        arrives_within(path, position, steps, ticks),
        ticks <= more,
    ensures
        arrives_within(path, position, steps, more),
    decreases ticks,
{
    if ticks > 0 {
        let moved = moved_towards(position, path.current, steps[0]);
        if !path.arrives(moved) {
            lemma_arrival_stays(
                path.followed(moved),
                moved,
                steps.skip(1),
                (ticks - 1) as nat,
                (more - 1) as nat,
            );
        }
    }
}

/// A unit that first reaches its current waypoint with tick `reach`
/// arrives within `ticks` ticks if that waypoint is the last, or if from
/// there it arrives on the rest of the path within the ticks that are left.
proof fn lemma_walk_to_reach<R>(
    path: PathView<R>,
    position: Position,
    steps: Seq<int>,
    reach: nat,
    ticks: nat,
)
    requires
        1 <= reach <= ticks,
        reach <= steps.len(),
        first_reach(position, path.current, steps, reach),
        path.on_last_leg() || arrives_within(
            path.crossed(),
            walked(position, path.current, steps, reach),
            steps.skip(reach as int),
            (ticks - reach) as nat,
        ),
    ensures
        arrives_within(path, position, steps, ticks),
    decreases reach,
{
    let target = path.current;
    let moved = moved_towards(position, target, steps[0]);
    assert(walked(position, target, steps, 1) == moved) by {
        assert(walked(position, target, steps, 0) == position);
    }
    if reach == 1 {
        assert(path.reached(moved));
    } else {
        assert(!path.reached(moved));
        assert(path.followed(moved) == path);
        let before = (reach - 1) as nat;
        let later = steps.skip(1);
        lemma_walk_joins(position, target, steps, before);
        assert forall|earlier: nat| 1 <= earlier < before implies !#[trigger] walked(
            moved,
            target,
            later,
            earlier,
        ).ground_within(target, ARRIVAL_EPSILON as int) by {
            lemma_walk_joins(position, target, steps, earlier);
            assert(!walked(position, target, steps, earlier + 1).ground_within(
                target,
                ARRIVAL_EPSILON as int,
            ));
        }
        assert(first_reach(moved, target, later, before));
        assert(later.skip(before as int) =~= steps.skip(reach as int));
        lemma_walk_to_reach(path, moved, later, before, (ticks - 1) as nat);
    }
}

/// The number of ticks that every waypoint may cost beyond the length of
/// its leg.
pub open spec fn ticks_per_waypoint() -> int {
    25
}

/// The number of ticks within which a unit at `position` walks the path,
/// if its steps fit: as many as the route over the waypoints left is long,
/// in whole units, and 25 more for every waypoint.
pub open spec fn ticks_for_route<R>(path: PathView<R>, position: Position) -> int {
    route_gap(position, path.waypoints()) + ticks_per_waypoint() * path.waypoints().len()
}

/// A route is walked in a number of ticks bounded by its length: a unit
/// whose step in every tick is between 3 units and the reach of a waypoint
/// arrives after at most as many ticks as the route from where it stands over
/// the waypoints left is long, in whole units, plus 25 for every waypoint.
pub proof fn lemma_route_is_walked<R>(path: PathView<R>, position: Position, steps: Seq<int>)
    requires
        steps_fit(steps),
        steps.len() >= ticks_for_route(path, position),
    ensures
        ticks_for_route(path, position) >= 0,
        arrives_within(path, position, steps, ticks_for_route(path, position) as nat),
    decreases path.next.len(),
{
    let waypoints = path.waypoints();
    let target = path.current;
    let rest = waypoints.subrange(1, waypoints.len() as int);
    assert(waypoints[0] == target);
    assert(path.next.reverse().len() == path.next.len());
    assert(waypoints.len() == path.next.len() + 1);
    lemma_distance_is_not_negative(position, target);
    lemma_floor_sqrt_exists(position.ground_dist_sq(target));
    let gap = ground_gap(position, target);
    lemma_route_gap_is_not_negative(target, rest);
    assert(route_gap(position, waypoints) == gap + route_gap(target, rest));
    assert(ticks_per_waypoint() * waypoints.len() == ticks_per_waypoint() * rest.len()
        + ticks_per_waypoint()) by (nonlinear_arith)
        requires
            waypoints.len() == rest.len() + 1,
    ;
    let all_ticks = ticks_for_route(path, position);
    lemma_leg_is_walked_from_anywhere(position, target, steps);
    let reach = choose|ticks: nat|
        1 <= ticks <= gap + 15 && #[trigger] first_reach(position, target, steps, ticks);
    let there = walked(position, target, steps, reach);
    if path.on_last_leg() {
        assert(rest.len() == 0);
        assert(route_gap(target, rest) == 0);
        lemma_walk_to_reach(path, position, steps, reach, reach);
        lemma_arrival_stays(path, position, steps, reach, all_ticks as nat);
    } else {
        let onward = path.crossed();
        lemma_crossing_takes_first(path);
        assert(onward.waypoints() == rest);
        let following = onward.current;
        assert(rest[0] == following);
        let further = rest.subrange(1, rest.len() as int);
        lemma_gap_triangle(there, target, following);
        lemma_distance_is_not_negative(there, target);
        lemma_floor_sqrt_exists(there.ground_dist_sq(target));
        let near = ground_gap(there, target);
        assert(near < ARRIVAL_EPSILON) by (nonlinear_arith)
            requires
                near * near <= there.ground_dist_sq(target),
                there.ground_dist_sq(target) < ARRIVAL_EPSILON * ARRIVAL_EPSILON,
                0 <= near,
        ;
        let onward_ticks = ticks_for_route(onward, there);
        assert(route_gap(there, rest) == ground_gap(there, following) + route_gap(
            following,
            further,
        ));
        assert(route_gap(target, rest) == ground_gap(target, following) + route_gap(
            following,
            further,
        ));
        assert(reach + onward_ticks <= all_ticks);
        let later = steps.skip(reach as int);
        lemma_later_steps_fit(steps, reach as int);
        lemma_route_is_walked(onward, there, later);
        lemma_arrival_stays(
            onward,
            there,
            later,
            onward_ticks as nat,
            (all_ticks - reach) as nat,
        );
        lemma_walk_to_reach(path, position, steps, reach, all_ticks as nat);
    }
}

/// The length of a route is not negative.
proof fn lemma_route_gap_is_not_negative(position: Position, waypoints: Seq<Position>)
    ensures
        route_gap(position, waypoints) >= 0,
    decreases waypoints.len(),
{
    if waypoints.len() > 0 {
        lemma_distance_is_not_negative(position, waypoints[0]);
        lemma_floor_sqrt_exists(position.ground_dist_sq(waypoints[0]));
        lemma_route_gap_is_not_negative(waypoints[0], waypoints.subrange(1, waypoints.len() as int));
    }
}

} // verus!
