//! Fixed-point positions and exact squared distances.

use vstd::prelude::*;

verus! {

/// Stable identifier of a scene object.
pub type Entity = u64;

/// Number of length units in one metre.
pub const UNITS_PER_METER: i32 = 1000;

/// A point of the world, in millimetres. `y` points up; the ground plane is
/// spanned by `x` and `z`.
#[derive(Clone, Copy, Debug, PartialEq, Eq, Structural)]
pub struct Position {
    pub x: i32,
    pub y: i32,
    pub z: i32,
}

/// The square of the difference of two coordinates.
pub open spec fn square_of_difference(a: int, b: int) -> int {
    (a - b) * (a - b)
}

impl Position {
    /// The origin.
    pub open spec fn zero() -> Position {
        Position { x: 0, y: 0, z: 0 }
    }

    /// Squared Euclidean distance in space.
    pub open spec fn dist_sq(self, other: Position) -> int {
        square_of_difference(self.x as int, other.x as int) + square_of_difference(
            self.y as int,
            other.y as int,
        ) + square_of_difference(self.z as int, other.z as int)
    }

    /// Squared Euclidean distance of the projections onto the ground plane.
    pub open spec fn ground_dist_sq(self, other: Position) -> int {
        square_of_difference(self.x as int, other.x as int) + square_of_difference(
            self.z as int,
            other.z as int,
        )
    }

    /// The projection onto the ground plane.
    pub open spec fn on_ground(self) -> Position {
        Position { x: self.x, y: 0, z: self.z }
    }

    /// Whether the ground projections are strictly closer than `reach`.
    pub open spec fn ground_within(self, other: Position, reach: int) -> bool {
        self.ground_dist_sq(other) < reach * reach
    }

    /// Whether the points are strictly closer than `reach` in space.
    pub open spec fn within(self, other: Position, reach: int) -> bool {
        self.dist_sq(other) < reach * reach
    }

    /// Whether the points are no farther apart than `reach` in space.
    pub open spec fn within_or_at(self, other: Position, reach: int) -> bool {
        self.dist_sq(other) <= reach * reach
    }

    pub fn new(x: i32, y: i32, z: i32) -> (p: Position)
        ensures
            p == (Position { x, y, z }),
    {
        Position { x, y, z }
    }

    /// The origin of the world.
    pub fn origin() -> (p: Position)
        ensures
            p == Position::zero(),
    {
        Position { x: 0, y: 0, z: 0 }
    }

    /// Drops the height, as the walkable mesh does.
    pub fn grounded(&self) -> (p: Position)
        ensures
            p == self.on_ground(),
    {
        Position { x: self.x, y: 0, z: self.z }
    }

    /// Exact squared distance to `other` in space.
    pub fn distance_squared(&self, other: &Position) -> (d: u128)
        ensures
            d == self.dist_sq(*other),
    {
        let dx: u64 = squared_difference(self.x, other.x);
        let dy: u64 = squared_difference(self.y, other.y);
        let dz: u64 = squared_difference(self.z, other.z);
        dx as u128 + dy as u128 + dz as u128
    }

    /// Exact squared distance to `other` on the ground plane.
    pub fn ground_distance_squared(&self, other: &Position) -> (d: u128)
        ensures
            d == self.ground_dist_sq(*other),
    {
        let dx: u64 = squared_difference(self.x, other.x);
        let dz: u64 = squared_difference(self.z, other.z);
        dx as u128 + dz as u128
    }

    /// Whether `other` lies strictly closer than `reach` in space.
    pub fn is_within(&self, other: &Position, reach: u32) -> (b: bool)
        ensures
            b == self.within(*other, reach as int),
    {
        let limit: u64 = square(reach);
        self.distance_squared(other) < limit as u128
    }

    /// Whether `other` lies no farther than `reach` in space.
    pub fn is_within_or_at(&self, other: &Position, reach: u32) -> (b: bool)
        ensures
            b == self.within_or_at(*other, reach as int),
    {
        let limit: u64 = square(reach);
        self.distance_squared(other) <= limit as u128
    }

    /// Whether `other` lies strictly closer than `reach` on the ground plane.
    pub fn is_ground_within(&self, other: &Position, reach: u32) -> (b: bool)
        ensures
            b == self.ground_within(*other, reach as int),
    {
        let limit: u64 = square(reach);
        self.ground_distance_squared(other) < limit as u128
    }
}

/// Whether candidate `i` is at least as good a choice as candidate `j`:
/// strictly nearer to `from`, or equally near and not listed later.
pub open spec fn closer_or_earlier(points: Seq<Position>, from: Position, i: int, j: int) -> bool {
    from.dist_sq(points[i]) < from.dist_sq(points[j]) || (from.dist_sq(points[i]) == from.dist_sq(
        points[j],
    ) && i <= j)
}

/// Whether `i` is the eligible candidate nearest to `from`, the first listed
/// among equally near ones.
pub open spec fn is_first_nearest(
    points: Seq<Position>,
    eligible: Seq<bool>,
    from: Position,
    i: int,
) -> bool {
    &&& 0 <= i < points.len()
    &&& eligible[i]
    &&& forall|j: int|
        0 <= j < points.len() && #[trigger] eligible[j] ==> closer_or_earlier(points, from, i, j)
}

/// The first nearest eligible candidate among the first `n`, or -1 if none
/// of them is eligible: the candidates are gone through in their order, and
/// a later one replaces the best so far only if it is strictly nearer.
pub open spec fn nearest_upto(points: Seq<Position>, eligible: Seq<bool>, from: Position, n: int) -> int
    decreases n,
{
    if n <= 0 {
        -1
    } else {
        let before = nearest_upto(points, eligible, from, n - 1);
        if eligible[n - 1] && (before < 0 || from.dist_sq(points[n - 1]) < from.dist_sq(
            points[before],
        )) {
            n - 1
        } else {
            before
        }
    }
}

/// The eligible candidate nearest to `from`, if there is any eligible one.
/// It is the one candidate for which [`is_first_nearest`] holds.
pub open spec fn first_nearest(points: Seq<Position>, eligible: Seq<bool>, from: Position) -> Option<
    int,
> {
    let best = nearest_upto(points, eligible, from, points.len() as int);
    if best < 0 {
        None
    } else {
        Some(best)
    }
}

/// A mask that lets every one of `n` candidates through.
pub open spec fn all_eligible(n: nat) -> Seq<bool> {
    Seq::new(n, |i: int| true)
}

/// At most one candidate is the first nearest.
pub proof fn lemma_first_nearest_unique(
    points: Seq<Position>,
    eligible: Seq<bool>,
    from: Position,
    i: int,
    j: int,
)
    requires
        is_first_nearest(points, eligible, from, i),
        is_first_nearest(points, eligible, from, j),
    ensures
        i == j,
{
    assert(closer_or_earlier(points, from, i, j));
    assert(closer_or_earlier(points, from, j, i));
}

/// The scan finds the first nearest: where a candidate is eligible the
/// result is the one for which [`is_first_nearest`] holds, and where none is
/// there is no result.
pub proof fn lemma_first_nearest_is_nearest(points: Seq<Position>, eligible: Seq<bool>, from: Position)
    requires
        points.len() == eligible.len(),
    ensures
        first_nearest(points, eligible, from) matches Some(i) ==> is_first_nearest(
            points,
            eligible,
            from,
            i,
        ),
        first_nearest(points, eligible, from) is None <==> forall|j: int|
            0 <= j < eligible.len() ==> !#[trigger] eligible[j],
{
    lemma_nearest_upto_is_nearest(points, eligible, from, points.len() as int);
}

proof fn lemma_nearest_upto_is_nearest(points: Seq<Position>, eligible: Seq<bool>, from: Position, n: int)
    requires
        points.len() == eligible.len(),
        0 <= n <= points.len(),
    ensures
        -1 <= nearest_upto(points, eligible, from, n) < n,
        nearest_upto(points, eligible, from, n) < 0 ==> forall|j: int|
            0 <= j < n ==> !#[trigger] eligible[j],
        nearest_upto(points, eligible, from, n) >= 0 ==> {
            &&& eligible[nearest_upto(points, eligible, from, n)]
            &&& forall|j: int|
                0 <= j < n && #[trigger] eligible[j] ==> closer_or_earlier(
                    points,
                    from,
                    nearest_upto(points, eligible, from, n),
                    j,
                )
        },
    decreases n,
{
    if n > 0 {
        lemma_nearest_upto_is_nearest(points, eligible, from, n - 1);
    }
}

/// Scans the candidates once and returns the position in the list of the
/// eligible one nearest to `from`. Among equally near candidates the first
/// listed wins. There is a result whenever a candidate is eligible.
pub(crate) fn nearest_eligible(from: &Position, points: &Vec<Position>, eligible: &Vec<bool>) -> (found:
    Option<usize>)
    requires
        points.len() == eligible.len(),
    ensures
        found matches Some(i) ==> first_nearest(points@, eligible@, *from) == Some(i as int)
            && is_first_nearest(points@, eligible@, *from, i as int),
        found is None ==> first_nearest(points@, eligible@, *from) is None,
        found is None <==> forall|j: int| 0 <= j < eligible.len() ==> !eligible[j],
{
    let mut best: Option<usize> = None;
    let mut best_dist: u128 = 0;
    let mut k: usize = 0;
    while k < points.len()
        invariant
            k <= points.len(),
            points.len() == eligible.len(),
            best is None ==> forall|j: int| 0 <= j < k ==> !eligible[j],
            best matches Some(b) ==> {
                &&& b < k
                &&& eligible[b as int]
                &&& best_dist == from.dist_sq(points[b as int])
                &&& forall|j: int|
                    0 <= j < k && #[trigger] eligible[j] ==> closer_or_earlier(
                        points@,
                        *from,
                        b as int,
                        j,
                    )
            },
        decreases points.len() - k,
    {
        if eligible[k] {
            let d: u128 = from.distance_squared(&points[k]);
            let better: bool = match best {
                None => true,
                Some(_) => d < best_dist,
            };
            if better {
                best = Some(k);
                best_dist = d;
            }
        }
        k += 1;
    }
    proof {
        lemma_first_nearest_is_nearest(points@, eligible@, *from);
        match best {
            Some(b) => {
                assert(is_first_nearest(points@, eligible@, *from, b as int));
                assert(eligible[b as int]);
                let scanned = first_nearest(points@, eligible@, *from).unwrap();
                lemma_first_nearest_unique(points@, eligible@, *from, b as int, scanned);
            },
            None => {},
        }
    }
    best
}

/// `(a - b)^2`, which always fits.
pub fn squared_difference(a: i32, b: i32) -> (r: u64)
    ensures
        r == square_of_difference(a as int, b as int),
{
    let d: i64 = a as i64 - b as i64;
    let m: u32 = if d < 0 {
        (-d) as u32
    } else {
        d as u32
    };
    assert(m * m == d * d) by (nonlinear_arith)
        requires
            m == d || m == -d,
    ;
    square(m)
}

/// `m^2`, which always fits.
pub fn square(m: u32) -> (r: u64)
    ensures
        r == m * m,
{
    assert(m * m <= 0xFFFF_FFFF * 0xFFFF_FFFF) by (nonlinear_arith)
        requires
            0 <= m <= 0xFFFF_FFFF,
    ;
    (m as u64) * (m as u64)
}

/// Whether `root` is the whole part of the square root of `n`.
pub open spec fn is_floor_sqrt(n: int, root: int) -> bool {
    0 <= root && root * root <= n < (root + 1) * (root + 1)
}

/// The whole part of the square root of `n`.
pub fn floor_sqrt(n: u128) -> (root: u64)
    ensures
        is_floor_sqrt(n as int, root as int),
{
    let mut low: u128 = 0;
    let mut high: u128 = 0x1_0000_0000_0000_0000;
    assert(high * high > n) by (nonlinear_arith)
        requires
            high == 0x1_0000_0000_0000_0000,
            n <= 0xFFFF_FFFF_FFFF_FFFF_FFFF_FFFF_FFFF_FFFF,
    ;
    while high - low > 1
        invariant
            low < high <= 0x1_0000_0000_0000_0000,
            low * low <= n < high * high,
        decreases high - low,
    {
        let middle: u128 = low + (high - low) / 2;
        assert(middle * middle <= 0xFFFF_FFFF_FFFF_FFFF * 0xFFFF_FFFF_FFFF_FFFF)
            by (nonlinear_arith)
            requires
                0 <= middle <= 0xFFFF_FFFF_FFFF_FFFF,
        ;
        if middle * middle <= n {
            low = middle;
        } else {
            high = middle;
        }
    }
    low as u64
}

/// `value` brought into the range of a coordinate.
pub open spec fn clamp_coordinate(value: int) -> int {
    if value < i32::MIN {
        i32::MIN as int
    } else if value > i32::MAX {
        i32::MAX as int
    } else {
        value
    }
}

/// `value * numerator / denominator`, rounded towards zero.
pub open spec fn scale_towards_zero(value: int, numerator: int, denominator: int) -> int {
    let product = value * numerator;
    if product >= 0 {
        product / denominator
    } else {
        -((-product) / denominator)
    }
}

/// The whole part of the square root of `n`, for `n` that is not negative.
pub open spec fn floor_sqrt_spec(n: int) -> int {
    choose|root: int| is_floor_sqrt(n, root)
}

/// A number has one whole square root.
pub proof fn lemma_floor_sqrt_unique(n: int, a: int, b: int)
    requires
        is_floor_sqrt(n, a),
        is_floor_sqrt(n, b),
    ensures
        a == b,
{
    if a < b {
        assert((a + 1) * (a + 1) <= b * b) by (nonlinear_arith)
            requires
                0 <= a,
                a + 1 <= b,
        ;
    }
    if b < a {
        assert((b + 1) * (b + 1) <= a * a) by (nonlinear_arith)
            requires
                0 <= b,
                b + 1 <= a,
        ;
    }
}

/// Every number that is not negative has a whole square root.
pub proof fn lemma_floor_sqrt_exists(n: int)
    requires
        0 <= n,
    ensures
        is_floor_sqrt(n, floor_sqrt_spec(n)),
    decreases n,
{
    if n == 0 {
        assert(is_floor_sqrt(0, 0));
    } else {
        lemma_floor_sqrt_exists(n - 1);
        let r = floor_sqrt_spec(n - 1);
        if (r + 1) * (r + 1) <= n {
            assert((r + 2) * (r + 2) > (r + 1) * (r + 1)) by (nonlinear_arith)
                requires
                    0 <= r,
            ;
            assert(is_floor_sqrt(n, r + 1));
        } else {
            assert(is_floor_sqrt(n, r));
        }
    }
}

/// The whole square root of `n` is `root` if `root` squared is at most `n`
/// and the next number squared is more.
pub proof fn lemma_floor_sqrt_is(n: int, root: int)
    requires
        is_floor_sqrt(n, root),
    ensures
        floor_sqrt_spec(n) == root,
{
    assert(n >= 0) by (nonlinear_arith)
        requires
            root * root <= n,
    ;
    lemma_floor_sqrt_exists(n);
    lemma_floor_sqrt_unique(n, root, floor_sqrt_spec(n));
}

/// `coordinate + value * numerator / denominator`, the step rounded towards
/// zero and the sum kept in the range of a coordinate.
pub(crate) fn step_coordinate(coordinate: i32, value: i64, numerator: i64, denominator: u64) -> (moved:
    i32)
    requires
        -0x1_0000_0000 < value < 0x1_0000_0000,
        0 < denominator,
    ensures
        moved == clamp_coordinate(
            coordinate + scale_towards_zero(value as int, numerator as int, denominator as int),
        ),
{
    assert(-0x8000_0000_0000_0000_0000_0000 < value * numerator < 0x8000_0000_0000_0000_0000_0000)
        by (nonlinear_arith)
        requires
            -0x1_0000_0000 < value < 0x1_0000_0000,
            -0x8000_0000_0000_0000 <= numerator < 0x8000_0000_0000_0000,
    ;
    let product: i128 = (value as i128) * (numerator as i128);
    let step: i128 = if product >= 0 {
        ((product as u128) / (denominator as u128)) as i128
    } else {
        -((((-product) as u128) / (denominator as u128)) as i128)
    };
    let sum: i128 = coordinate as i128 + step;
    if sum < i32::MIN as i128 {
        i32::MIN
    } else if sum > i32::MAX as i128 {
        i32::MAX
    } else {
        sum as i32
    }
}

/// Where a unit at `position` stands after a step of length `step` on the
/// ground towards `target`. Its height stays. The distance to the target is
/// rounded down to whole units and the step is rounded towards zero along
/// each axis; a unit whose ground distance to the target is below one unit
/// does not move. The step is taken whole, also where it leads past the
/// target.
pub open spec fn moved_towards(position: Position, target: Position, step: int) -> Position {
    let dx = target.x - position.x;
    let dz = target.z - position.z;
    let length = floor_sqrt_spec(dx * dx + dz * dz);
    if length == 0 {
        position
    } else {
        Position {
            x: clamp_coordinate(position.x + scale_towards_zero(dx, step, length)) as i32,
            y: position.y,
            z: clamp_coordinate(position.z + scale_towards_zero(dz, step, length)) as i32,
        }
    }
}

/// Moves a unit by a step of length `step` on the ground towards `target`.
/// See [`moved_towards`].
pub fn advance_towards(position: &Position, target: &Position, step: u64) -> (moved: Position)
    requires
        step <= i64::MAX,
    ensures
        moved == moved_towards(*position, *target, step as int),
{
    let dx: i64 = target.x as i64 - position.x as i64;
    let dz: i64 = target.z as i64 - position.z as i64;
    let flat: u128 = target.ground_distance_squared(position);
    assert(flat == dx * dx + dz * dz);
    let length: u64 = floor_sqrt(flat);
    proof {
        lemma_floor_sqrt_unique(flat as int, length as int, floor_sqrt_spec(flat as int));
    }
    if length == 0 {
        *position
    } else {
        Position {
            x: step_coordinate(position.x, dx, step as i64, length),
            y: position.y,
            z: step_coordinate(position.z, dz, step as i64, length),
        }
    }
}

} // verus!
