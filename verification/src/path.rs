//! The path of a unit: how it is made from a planned route and how the
//! unit consumes it, waypoint by waypoint, until it arrives.

use crate::geometry::{advance_towards, Entity, Position};
use crate::locator::{nearest_slot, pick_nearest_locator, Locator, LocatorSlot};
use crate::occupancy::{Claims, Occupancy, Occupies};
use vstd::prelude::*;

verus! {

/// A unit has reached a waypoint once it is closer to it than this, on the
/// ground plane.
pub const ARRIVAL_EPSILON: u32 = 10;

/// How fast a unit walks, in units of length per second.
pub const SVIN_SPEED: u32 = 2000;

/// The path of one unit. `current` is the waypoint it walks to; `next`
/// holds those after it as a stack, the one to visit first on top.
pub struct MovePath<R> {
    pub current: Position,
    pub next: Vec<Position>,
    pub target_rotation: Option<R>,
    pub target_entity: Option<Entity>,
    /// The current waypoint was moved aside to avoid a collision.
    pub altered: bool,
    /// The final approach is blocked.
    pub obstructed: bool,
}

/// A path as a mathematical value.
pub struct PathView<R> {
    pub current: Position,
    pub next: Seq<Position>,
    pub target_rotation: Option<R>,
    pub target_entity: Option<Entity>,
    pub altered: bool,
    pub obstructed: bool,
}

impl<R> View for MovePath<R> {
    type V = PathView<R>;

    open spec fn view(&self) -> PathView<R> {
        PathView {
            current: self.current,
            next: self.next@,
            target_rotation: self.target_rotation,
            target_entity: self.target_entity,
            altered: self.altered,
            obstructed: self.obstructed,
        }
    }
}

/// The route with every waypoint put on the ground.
pub open spec fn grounded_route(route: Seq<Position>) -> Seq<Position> {
    Seq::new(route.len(), |i: int| route[i].on_ground())
}

impl<R> PathView<R> {
    /// The path made from a route of at least one waypoint. Waypoints are
    /// points of the ground: each is taken without its height. The first is
    /// walked to at once, the others wait in reverse order.
    pub open spec fn planned(
        route: Seq<Position>,
        target_rotation: Option<R>,
        target_entity: Option<Entity>,
    ) -> PathView<R> {
        PathView {
            current: grounded_route(route)[0],
            next: grounded_route(route).subrange(1, route.len() as int).reverse(),
            target_rotation,
            target_entity,
            altered: false,
            obstructed: false,
        }
    }

    /// The waypoints still to visit, in the order of travel.
    pub open spec fn waypoints(self) -> Seq<Position> {
        seq![self.current] + self.next.reverse()
    }

    /// Whether a unit at `at` has reached the current waypoint.
    pub open spec fn reached(self, at: Position) -> bool {
        at.ground_within(self.current, ARRIVAL_EPSILON as int)
    }

    /// Whether the current waypoint is the last.
    pub open spec fn on_last_leg(self) -> bool {
        self.next.len() == 0
    }

    /// The path after the current waypoint was reached and another is left.
    pub open spec fn crossed(self) -> PathView<R> {
        PathView { current: self.next.last(), next: self.next.drop_last(), ..self }
    }

    /// The path after `count` waypoints were reached, none of them the last.
    pub open spec fn after_crossings(self, count: nat) -> PathView<R>
        decreases count,
    {
        if count == 0 {
            self
        } else {
            self.after_crossings((count - 1) as nat).crossed()
        }
    }

    /// Whether a unit that has moved to `at` arrives.
    pub open spec fn arrives(self, at: Position) -> bool {
        self.reached(at) && self.on_last_leg()
    }

    /// The path after a unit has moved to `at`.
    pub open spec fn followed(self, at: Position) -> PathView<R> {
        if self.reached(at) && !self.on_last_leg() {
            self.crossed()
        } else {
            self
        }
    }
}

/// A route is kept whole: the waypoints of the path made from it are the
/// waypoints of the route, each on the ground, and so every one of them has
/// no height.
pub proof fn lemma_planned_keeps_route<R>(
    route: Seq<Position>,
    target_rotation: Option<R>,
    target_entity: Option<Entity>,
)
    requires
        route.len() > 0,
    ensures
        PathView::planned(route, target_rotation, target_entity).waypoints() == grounded_route(
            route,
        ),
        forall|i: int|
            0 <= i < route.len() ==> (#[trigger] PathView::planned(
                route,
                target_rotation,
                target_entity,
            ).waypoints()[i]).y == 0,
{
    let ground = grounded_route(route);
    let rest = ground.subrange(1, ground.len() as int);
    assert(rest.reverse().reverse() =~= rest);
    assert(seq![ground[0]] + rest =~= ground);
}

/// Reaching a waypoint that is not the last takes exactly the first
/// waypoint away and leaves the others in their order.
pub proof fn lemma_crossing_takes_first<R>(path: PathView<R>)
    requires
        !path.on_last_leg(),
    ensures
        path.crossed().waypoints() == path.waypoints().subrange(
            1,
            path.waypoints().len() as int,
        ),
        path.crossed().waypoints().len() == path.waypoints().len() - 1,
{
    assert(path.crossed().waypoints() =~= path.waypoints().subrange(
        1,
        path.waypoints().len() as int,
    ));
}

/// Waypoints are consumed one by one and in order: of a path planned from
/// a route of `n` waypoints, the unit walks to waypoint `k` of the route
/// after `k` waypoints were reached, for every `k < n`, and only while it
/// walks to the last one, after `n - 1` of them, is it on the last leg. So
/// it arrives with the `n`-th waypoint reached and no sooner, and it visits
/// the waypoints in the order of the route.
pub proof fn lemma_route_consumed_in_order<R>(
    route: Seq<Position>,
    target_rotation: Option<R>,
    target_entity: Option<Entity>,
    k: nat,
)
    requires
        k < route.len(),
    ensures
        ({
            let path = PathView::planned(route, target_rotation, target_entity).after_crossings(k);
            &&& path.current == route[k as int].on_ground()
            &&& path.waypoints() == grounded_route(route).subrange(k as int, route.len() as int)
            &&& path.on_last_leg() <==> k == route.len() - 1
        }),
    decreases k,
{
    let start = PathView::planned(route, target_rotation, target_entity);
    lemma_planned_keeps_route(route, target_rotation, target_entity);
    let ground = grounded_route(route);
    if k == 0 {
        assert(ground.subrange(0, route.len() as int) =~= ground);
        assert(start.next.len() == route.len() - 1);
    } else {
        lemma_route_consumed_in_order(route, target_rotation, target_entity, (k - 1) as nat);
        let before = start.after_crossings((k - 1) as nat);
        assert(before.waypoints().len() == route.len() - (k - 1));
        assert(before.next.reverse().len() == before.next.len());
        assert(!before.on_last_leg());
        lemma_crossing_takes_first(before);
        let path = before.crossed();
        assert(path.waypoints() =~= ground.subrange(k as int, route.len() as int));
        assert(path.waypoints()[0] == path.current);
        assert(path.next.reverse().len() == path.next.len());
    }
}

impl NpcTaskMove {
    /// The move of a unit at its usual speed.
    pub fn walking() -> (task: Self)
        ensures
            task.speed == SVIN_SPEED,
    {
        Self { speed: SVIN_SPEED }
    }
}

impl<R: Copy> MovePath<R> {
    /// A path that walks to `current` and then to the waypoints of `next`,
    /// from the last to the first.
    pub fn new(
        current: Position,
        next: Vec<Position>,
        target_rotation: Option<R>,
        target_entity: Option<Entity>,
    ) -> (path: Self)
        ensures
            path@ == (PathView {
                current,
                next: next@,
                target_rotation,
                target_entity,
                altered: false,
                obstructed: false,
            }),
    {
        Self { current, next, target_rotation, target_entity, altered: false, obstructed: false }
    }

    /// Makes the path from a route in the order of travel. Every waypoint
    /// is put on the ground. An empty route gives no path.
    pub fn from_route(
        route: &Vec<Position>,
        target_rotation: Option<R>,
        target_entity: Option<Entity>,
    ) -> (path: Option<Self>)
        ensures
            path is None <==> route.len() == 0,
            path matches Some(p) ==> p@ == PathView::planned(
                route@,
                target_rotation,
                target_entity,
            ),
    {
        if route.len() == 0 {
            return None;
        }
        let ghost wanted = grounded_route(route@).subrange(1, route.len() as int).reverse();
        let mut next: Vec<Position> = Vec::new();
        let mut k: usize = route.len() - 1;
        while k > 0
            invariant
                0 <= k < route.len(),
                wanted == grounded_route(route@).subrange(1, route.len() as int).reverse(),
                next.len() == route.len() - 1 - k,
                forall|j: int| 0 <= j < next.len() ==> next[j] == wanted[j],
            decreases k,
        {
            next.push(route[k].grounded());
            k -= 1;
        }
        assert(next@ =~= wanted);
        Some(Self::new(route[0].grounded(), next, target_rotation, target_entity))
    }

    /// Whether the unit turns to face the waypoint it walks to. It does
    /// unless the waypoint was moved aside.
    pub fn faces_heading(&self) -> (faces: bool)
        ensures
            faces == !self.altered,
    {
        !self.altered
    }

    /// Whether the current waypoint is the last.
    pub fn is_on_last_leg(&self) -> (last: bool)
        ensures
            last == self@.on_last_leg(),
    {
        self.next.len() == 0
    }

    /// The waypoint to show as the unit's next step: the one after the
    /// current, or the current where it is the last.
    pub fn shown_waypoint(&self) -> (shown: Position)
        ensures
            shown == (if self@.on_last_leg() {
                self.current
            } else {
                self.next@.last()
            }),
    {
        if self.next.len() == 0 {
            self.current
        } else {
            self.next[self.next.len() - 1]
        }
    }

    /// The waypoints still to visit, in the order of travel.
    pub fn remaining_waypoints(&self) -> (list: Vec<Position>)
        ensures
            list@ == self@.waypoints(),
    {
        let mut list: Vec<Position> = Vec::new();
        list.push(self.current);
        let mut k: usize = self.next.len();
        while k > 0
            invariant
                k <= self.next.len(),
                list.len() == 1 + self.next.len() - k,
                forall|j: int| 0 <= j < list.len() ==> list[j] == self@.waypoints()[j],
            decreases k,
        {
            k -= 1;
            list.push(self.next[k]);
        }
        assert(list@ =~= self@.waypoints());
        list
    }

    /// Marks the final approach as blocked.
    pub fn obstruct(&mut self)
        ensures
            final(self)@ == (PathView { obstructed: true, ..old(self)@ }),
    {
        self.obstructed = true;
    }

    /// Moves the current waypoint aside to `new_current`.
    pub fn alter(&mut self, new_current: Position)
        ensures
            final(self)@ == (PathView { current: new_current, altered: true, ..old(self)@ }),
    {
        self.current = new_current;
        self.altered = true;
    }
}

/// A move in progress: how fast the unit walks, in units of length per
/// second.
#[derive(Clone, Copy, Debug, PartialEq, Eq, Structural)]
pub struct NpcTaskMove {
    pub speed: u32,
}

/// The mark of a unit whose move has ended.
#[derive(Clone, Copy, Debug, PartialEq, Eq, Structural)]
pub struct NpcTaskMoveFinished;

/// What ends with an arrival: the facing the unit takes, if the path
/// carried one, and the slot it now holds, if it arrived at one.
#[derive(Clone, Copy, Debug)]
pub struct Arrival<R> {
    pub rotation: Option<R>,
    pub claimed: Option<Occupies>,
}

/// How one tick of movement ended for a unit.
#[derive(Clone, Copy, Debug)]
pub struct MoveOutcome<R> {
    /// The waypoint the unit turns to face: the one it walked to, unless
    /// that was moved aside.
    pub facing: Option<Position>,
    /// Set when the unit has arrived: its path and its move are over and it
    /// gets the mark of a finished move.
    pub arrival: Option<Arrival<R>>,
}

/// The length of the step of one tick: speed times the time that passed,
/// in whole units.
pub open spec fn step_length(speed: int, elapsed_micros: int) -> int {
    speed * elapsed_micros / 1_000_000
}

/// Where the unit stands after the step of one tick.
pub open spec fn position_after_step<R>(
    path: PathView<R>,
    position: Position,
    speed: int,
    elapsed_micros: int,
) -> Position {
    crate::geometry::moved_towards(position, path.current, step_length(speed, elapsed_micros))
}

/// Where the unit stands at the end of the tick: where its step took it,
/// or, if it arrived, exactly on the last waypoint at the height it has.
pub open spec fn position_after_move<R>(
    path: PathView<R>,
    position: Position,
    speed: int,
    elapsed_micros: int,
) -> Position {
    let stepped = position_after_step(path, position, speed, elapsed_micros);
    if path.arrives(stepped) {
        Position { x: path.current.x, y: stepped.y, z: path.current.z }
    } else {
        stepped
    }
}

/// The claims after one tick of movement of `agent`: it lets go of what it
/// held, and holds the slot it arrived at, if it arrived at one.
pub open spec fn claims_after_move<R>(
    claims: Claims,
    agent: Entity,
    path: PathView<R>,
    moved_to: Position,
    target_is_locator: bool,
) -> Claims {
    let released = claims.release(agent);
    if path.arrives(moved_to) && path.target_entity is Some && target_is_locator {
        released.claim(agent, path.target_entity.unwrap())
    } else {
        released
    }
}

/// Whether the unit arrives at a slot to which another unit refers.
pub open spec fn claim_is_contested<R>(
    claims: Claims,
    agent: Entity,
    path: PathView<R>,
    moved_to: Position,
    target_is_locator: bool,
) -> bool {
    path.arrives(moved_to) && target_is_locator && path.target_entity is Some
        && claims.held_by_other(agent, path.target_entity.unwrap())
}

/// Slots stay with one unit each over a tick of movement: where no two
/// units share a slot before the tick, none do after it, unless the unit
/// arrives at a slot to which another unit refers.
pub proof fn lemma_move_keeps_exclusive<R>(
    claims: Claims,
    agent: Entity,
    path: PathView<R>,
    moved_to: Position,
    target_is_locator: bool,
)
    requires
        claims.exclusive(),
        !claim_is_contested(claims, agent, path, moved_to, target_is_locator),
    ensures
        claims_after_move(claims, agent, path, moved_to, target_is_locator).exclusive(),
{
    let released = claims.release(agent);
    crate::occupancy::lemma_release_keeps_exclusive(claims, agent);
    if path.arrives(moved_to) && path.target_entity is Some && target_is_locator {
        let slot = path.target_entity.unwrap();
        if released.held_by_other(agent, slot) {
            let other = choose|other: Entity|
                other != agent && #[trigger] released.occupies.contains_key(other)
                    && released.occupies[other] == slot;
            assert(claims.occupies.contains_key(other) && claims.occupies[other] == slot);
        }
        crate::occupancy::lemma_claim_keeps_exclusive(released, agent, slot);
    }
}

/// What the tick reports of a unit that has stepped to `moved_to`.
pub open spec fn outcome_of_move<R>(
    path: PathView<R>,
    moved_to: Position,
    target_is_locator: bool,
) -> MoveOutcome<R> {
    MoveOutcome {
        facing: if path.altered {
            None
        } else {
            Some(path.current)
        },
        arrival: if path.arrives(moved_to) {
            Some(
                Arrival {
                    rotation: path.target_rotation,
                    claimed: if target_is_locator {
                        match path.target_entity {
                            Some(slot) => Some(Occupies(slot)),
                            None => None,
                        }
                    } else {
                        None
                    },
                },
            )
        } else {
            None
        },
    }
}

/// One tick of movement of one unit.
///
/// Whatever slot the unit held is let go. The unit steps on the ground
/// towards the current waypoint of its path, by its speed times the time
/// that passed, and turns to face the waypoint unless that was moved aside.
/// If it then is closer than [`ARRIVAL_EPSILON`] to the waypoint, the next
/// waypoint becomes current; if none is left the unit has arrived: it is
/// put exactly on the waypoint, and if its path led to an object that is a
/// slot (`target_is_locator`) it claims that slot.
pub fn movable_update<R: Copy>(
    agent: Entity,
    move_task: &NpcTaskMove,
    path: &mut MovePath<R>,
    position: &mut Position,
    elapsed_micros: u32,
    target_is_locator: bool,
    occupancy: &mut Occupancy,
) -> (outcome: MoveOutcome<R>)
    ensures
        final(path)@ == old(path)@.followed(
            position_after_step(
                old(path)@,
                *old(position),
                move_task.speed as int,
                elapsed_micros as int,
            ),
        ),
        *final(position) == position_after_move(
            old(path)@,
            *old(position),
            move_task.speed as int,
            elapsed_micros as int,
        ),
        final(occupancy)@ == claims_after_move(
            old(occupancy)@,
            agent,
            old(path)@,
            position_after_step(
                old(path)@,
                *old(position),
                move_task.speed as int,
                elapsed_micros as int,
            ),
            target_is_locator,
        ),
        outcome == outcome_of_move(
            old(path)@,
            position_after_step(
                old(path)@,
                *old(position),
                move_task.speed as int,
                elapsed_micros as int,
            ),
            target_is_locator,
        ),
        old(occupancy)@.exclusive() && !claim_is_contested(
            old(occupancy)@,
            agent,
            old(path)@,
            position_after_step(
                old(path)@,
                *old(position),
                move_task.speed as int,
                elapsed_micros as int,
            ),
            target_is_locator,
        ) ==> final(occupancy)@.exclusive(),
{
    proof {
        let stepped = position_after_step(
            path@,
            *position,
            move_task.speed as int,
            elapsed_micros as int,
        );
        if occupancy@.exclusive() && !claim_is_contested(
            occupancy@,
            agent,
            path@,
            stepped,
            target_is_locator,
        ) {
            lemma_move_keeps_exclusive(occupancy@, agent, path@, stepped, target_is_locator);
        }
    }
    occupancy.release(agent);
    assert(move_task.speed * elapsed_micros <= 0xFFFF_FFFF * 0xFFFF_FFFF) by (nonlinear_arith)
        requires
            0 <= move_task.speed <= 0xFFFF_FFFF,
            0 <= elapsed_micros <= 0xFFFF_FFFF,
    ;
    let step: u64 = (move_task.speed as u64) * (elapsed_micros as u64) / 1_000_000;
    let moved: Position = advance_towards(position, &path.current, step);
    *position = moved;
    let facing: Option<Position> = if path.altered {
        None
    } else {
        Some(path.current)
    };
    if !moved.is_ground_within(&path.current, ARRIVAL_EPSILON) {
        return MoveOutcome { facing, arrival: None };
    }
    match path.next.pop() {
        Some(next) => {
            path.current = next;
            MoveOutcome { facing, arrival: None }
        },
        None => {
            let claimed: Option<Occupies> = match path.target_entity {
                Some(slot) => {
                    if target_is_locator {
                        occupancy.claim(agent, slot);
                        Some(Occupies(slot))
                    } else {
                        None
                    }
                },
                None => None,
            };
            position.x = path.current.x;
            position.z = path.current.z;
            MoveOutcome {
                facing,
                arrival: Some(Arrival { rotation: path.target_rotation, claimed }),
            }
        },
    }
}

/// What the walkable mesh is asked for a path: the two ends, on the ground
/// plane, and what the path made from the answer is to carry.
#[derive(Clone, Copy, Debug)]
pub struct PathRequest<R> {
    pub from: Position,
    pub to: Position,
    pub target_rotation: Option<R>,
    pub target_entity: Option<Entity>,
}

/// What the walkable mesh answered: whether it contains the far end, and
/// the route to it in the order of travel, if there is one.
pub struct NavmeshAnswer {
    pub target_in_mesh: bool,
    pub route: Option<Vec<Position>>,
}

impl NavmeshAnswer {
    /// The route that a path can be made from: the far end is in the mesh
    /// and the mesh knows a route of at least one waypoint.
    pub open spec fn usable_route(self) -> Option<Seq<Position>> {
        match self.route {
            Some(route) => if self.target_in_mesh && route.len() > 0 {
                Some(route@)
            } else {
                None
            },
            None => None,
        }
    }
}

/// The request for a path from `from` to the slot of the given kind that
/// [`pick_nearest_locator`] chooses among `slots`.
pub open spec fn request_to_nearest<R>(
    locator: Locator,
    slots: Seq<LocatorSlot<R>>,
    from: Position,
    occupied: Set<Entity>,
) -> Option<PathRequest<R>> {
    match nearest_slot(slots, locator, from, occupied) {
        Some(i) => Some(
            PathRequest {
                from: from.on_ground(),
                to: slots[i].position.on_ground(),
                target_rotation: Some(slots[i].rotation),
                target_entity: Some(slots[i].entity),
            },
        ),
        None => None,
    }
}

/// The request for a path to a point, with nothing to face and no slot to
/// claim at its end.
pub fn request_path_to_point<R: Copy>(from: &Position, to: &Position) -> (request: PathRequest<R>)
    ensures
        request == (PathRequest::<R> {
            from: from.on_ground(),
            to: to.on_ground(),
            target_rotation: None,
            target_entity: None,
        }),
{
    PathRequest {
        from: from.grounded(),
        to: to.grounded(),
        target_rotation: None,
        target_entity: None,
    }
}

/// First half of planning a path to a container: chooses the slot as
/// [`pick_nearest_locator`] does and says what to ask the walkable mesh.
/// There is no request exactly when the container has no slot of the kind.
/// The answer goes to [`plan_path`].
pub fn make_path_to_nearest_locator<R: Copy>(
    locator: Locator,
    slots: &Vec<LocatorSlot<R>>,
    movable_position: &Position,
    occupancy: &Occupancy,
) -> (request: Option<PathRequest<R>>)
    ensures
        request == request_to_nearest(
            locator,
            slots@,
            *movable_position,
            occupancy@.occupied,
        ),
        request is None <==> forall|i: int| 0 <= i < slots.len() ==> slots[i].locator != locator,
{
    match pick_nearest_locator(locator, slots, movable_position, occupancy) {
        Some((position, rotation, entity)) => Some(
            PathRequest {
                from: movable_position.grounded(),
                to: position.grounded(),
                target_rotation: Some(rotation),
                target_entity: Some(entity),
            },
        ),
        None => None,
    }
}

/// Second half of planning: makes the path from what the walkable mesh
/// answered. A far end outside the mesh, a mesh without a route and an
/// empty route give no path; else the path walks the route in its order,
/// every waypoint on the ground, and carries the facing and the slot of the
/// request.
pub fn plan_path<R: Copy>(request: &PathRequest<R>, answer: &NavmeshAnswer) -> (path: Option<
    MovePath<R>,
>)
    ensures
        path is Some <==> answer.usable_route() is Some,
        path matches Some(p) ==> p@ == PathView::planned(
            answer.usable_route().unwrap(),
            request.target_rotation,
            request.target_entity,
        ),
{
    if !answer.target_in_mesh {
        return None;
    }
    match &answer.route {
        Some(route) => MovePath::from_route(route, request.target_rotation, request.target_entity),
        None => None,
    }
}

} // verus!
