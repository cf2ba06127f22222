//! Collision avoidance on final approach.
//!
//! Only a unit on the last leg of its path and within one diameter of its
//! waypoint is looked at. What is in its way is found by the caller; of
//! that the nearest counts. A unit bound for a slot is marked as blocked, so
//! that its task plans anew, unless the blocker walks to nearly the same
//! point and no such meeting was seen just before. A unit that roams freely
//! steps aside.

use crate::geometry::{
    all_eligible, clamp_coordinate, first_nearest, floor_sqrt, floor_sqrt_spec,
    lemma_floor_sqrt_unique, nearest_eligible, scale_towards_zero, step_coordinate, Entity,
    Position,
};
use crate::path::{MovePath, PathView};
use vstd::prelude::*;

verus! {

/// Something that touches a unit: which object it is, where it stands and,
/// where it follows a path itself, the waypoint it walks to.
#[derive(Clone, Copy, Debug, PartialEq, Eq, Structural)]
pub struct Blocker {
    pub entity: Entity,
    pub position: Position,
    pub heading_to: Option<Position>,
}

/// A moving unit as collision avoidance sees it.
pub struct AvoidanceProbe {
    pub entity: Entity,
    /// Where the unit stands.
    pub position: Position,
    /// The diameter of its footprint.
    pub diameter: u32,
    /// The waypoint it walks to.
    pub current: Position,
    /// How many waypoints wait after the current one.
    pub waypoints_left: usize,
    /// Whether its path leads to a given object.
    pub fixed_target: bool,
    /// What touches the unit at its place, the unit itself left out.
    pub blockers: Vec<Blocker>,
}

/// What collision avoidance decides for one unit.
#[derive(Clone, Copy, Debug, PartialEq, Eq, Structural)]
pub enum Avoidance {
    /// The unit is not on its final approach, or nothing touches it.
    Clear,
    /// The blocker walks to nearly the same point: the unit goes on for now.
    Tolerated,
    /// The path is to be marked as blocked.
    Obstruct,
    /// The current waypoint is to be moved to `target`, if the walkable
    /// mesh contains that point.
    Sidestep { target: Position },
}

/// Where a unit at `position` puts its waypoint to get clear of a blocker:
/// on the ground, away from the blocker along the line through both, by as
/// much as the two are closer than `diameter`. Lengths are rounded down to
/// whole units and the step is rounded towards zero. A unit that stands
/// where the blocker stands has no way to go and stays.
pub open spec fn disjoint_target_spec(position: Position, blocker: Position, diameter: int) -> Position {
    let dx = position.x - blocker.x;
    let dz = position.z - blocker.z;
    let length = floor_sqrt_spec(dx * dx + dz * dz);
    if length == 0 {
        position.on_ground()
    } else {
        Position {
            x: clamp_coordinate(position.x + scale_towards_zero(dx, diameter - length, length)) as i32,
            y: 0,
            z: clamp_coordinate(position.z + scale_towards_zero(dz, diameter - length, length)) as i32,
        }
    }
}

/// Where a unit at `position` puts its waypoint to get clear of a blocker
/// at `blocker`. See [`disjoint_target_spec`].
pub fn disjoint_target(position: &Position, blocker: &Position, diameter: u32) -> (target: Position)
    ensures
        target == disjoint_target_spec(*position, *blocker, diameter as int),
{
    let dx: i64 = position.x as i64 - blocker.x as i64;
    let dz: i64 = position.z as i64 - blocker.z as i64;
    let flat: u128 = position.ground_distance_squared(blocker);
    assert(flat == dx * dx + dz * dz);
    let length: u64 = floor_sqrt(flat);
    assert(length <= i64::MAX) by (nonlinear_arith)
        requires
            length * length <= flat,
            flat == dx * dx + dz * dz,
            -0x1_0000_0000 < dx < 0x1_0000_0000,
            -0x1_0000_0000 < dz < 0x1_0000_0000,
    ;
    proof {
        lemma_floor_sqrt_unique(flat as int, length as int, floor_sqrt_spec(flat as int));
    }
    if length == 0 {
        position.grounded()
    } else {
        let shortfall: i64 = diameter as i64 - length as i64;
        Position {
            x: step_coordinate(position.x, dx, shortfall, length),
            y: 0,
            z: step_coordinate(position.z, dz, shortfall, length),
        }
    }
}

impl AvoidanceProbe {
    /// Whether the unit is on its final approach: no waypoint waits after
    /// the current one, and the unit's place on the ground is no farther
    /// from it than one diameter.
    pub open spec fn on_final_approach(self) -> bool {
        self.waypoints_left == 0 && self.position.on_ground().within_or_at(
            self.current,
            self.diameter as int,
        )
    }

    /// The positions of what touches the unit, in their order.
    pub open spec fn blocker_positions(self) -> Seq<Position> {
        Seq::new(self.blockers@.len(), |i: int| self.blockers@[i].position)
    }

    /// The blocker that counts: the nearest in space, the first listed
    /// among equally near ones.
    pub open spec fn nearest_blocker(self) -> Option<Blocker> {
        match first_nearest(
            self.blocker_positions(),
            all_eligible(self.blockers@.len()),
            self.position,
        ) {
            Some(i) => Some(self.blockers@[i]),
            None => None,
        }
    }

    /// Whether a meeting at the unit's waypoint was let pass just before:
    /// the memory holds a waypoint within one diameter of it.
    pub open spec fn seen_before(self, last_close_target: Option<Position>) -> bool {
        last_close_target matches Some(seen) && seen.within(self.current, self.diameter as int)
    }

    /// What is decided for the unit, given the waypoint of the last meeting
    /// that was let pass, if one was since the tick began or since the last
    /// unit was marked as blocked by a blocker on a path of its own.
    pub open spec fn decision(self, last_close_target: Option<Position>) -> Avoidance {
        if !self.on_final_approach() {
            Avoidance::Clear
        } else {
            match self.nearest_blocker() {
                None => Avoidance::Clear,
                Some(blocker) => {
                    if !self.fixed_target {
                        Avoidance::Sidestep {
                            target: disjoint_target_spec(
                                self.position,
                                blocker.position,
                                self.diameter as int,
                            ),
                        }
                    } else if blocker.heading_to matches Some(other) && other.within(
                        self.current,
                        self.diameter as int,
                    ) && !self.seen_before(last_close_target) {
                        Avoidance::Tolerated
                    } else {
                        Avoidance::Obstruct
                    }
                },
            }
        }
    }

    /// The memory after the unit was looked at. A meeting that is let pass
    /// is remembered by the unit's waypoint; a blocker on a path of its own
    /// that is not let pass empties the memory; all else leaves it.
    pub open spec fn remembered(self, last_close_target: Option<Position>) -> Option<Position> {
        match self.decision(last_close_target) {
            Avoidance::Tolerated => Some(self.current),
            Avoidance::Obstruct => if self.nearest_blocker().unwrap().heading_to is Some {
                None
            } else {
                last_close_target
            },
            _ => last_close_target,
        }
    }

    /// Sums up a unit and its path for collision avoidance.
    pub fn new<R>(
        entity: Entity,
        position: Position,
        diameter: u32,
        path: &MovePath<R>,
        blockers: Vec<Blocker>,
    ) -> (probe: Self)
        ensures
            probe.entity == entity,
            probe.position == position,
            probe.diameter == diameter,
            probe.current == path.current,
            probe.waypoints_left == path.next@.len(),
            probe.fixed_target == path.target_entity.is_some(),
            probe.blockers == blockers,
    {
        Self {
            entity,
            position,
            diameter,
            current: path.current,
            waypoints_left: path.next.len(),
            fixed_target: path.target_entity.is_some(),
            blockers,
        }
    }

    /// Whether the unit is on its final approach, so that what touches it
    /// matters.
    pub fn is_on_final_approach(&self) -> (near: bool)
        ensures
            near == self.on_final_approach(),
    {
        self.waypoints_left == 0 && self.position.grounded().is_within_or_at(
            &self.current,
            self.diameter,
        )
    }

    /// The blocker that counts, if anything touches the unit.
    pub fn find_nearest_blocker(&self) -> (nearest: Option<Blocker>)
        ensures
            nearest == self.nearest_blocker(),
            nearest is None <==> self.blockers@.len() == 0,
    {
        let mut points: Vec<Position> = Vec::new();
        let mut eligible: Vec<bool> = Vec::new();
        let mut k: usize = 0;
        while k < self.blockers.len()
            invariant
                k <= self.blockers.len(),
                points.len() == k,
                eligible.len() == k,
                forall|j: int| 0 <= j < k ==> points[j] == self.blockers[j].position,
                forall|j: int| 0 <= j < k ==> eligible[j],
            decreases self.blockers.len() - k,
        {
            points.push(self.blockers[k].position);
            eligible.push(true);
            k += 1;
        }
        assert(points@ =~= self.blocker_positions());
        assert(eligible@ =~= all_eligible(self.blockers@.len()));
        match nearest_eligible(&self.position, &points, &eligible) {
            Some(i) => Some(self.blockers[i]),
            None => {
                assert(self.blockers.len() > 0 ==> eligible[0]);
                None
            },
        }
    }

    /// Decides for one unit and updates the memory of the last meeting that
    /// was let pass.
    pub fn avoid(&self, last_close_target: &mut Option<Position>) -> (decision: Avoidance)
        ensures
            decision == self.decision(*old(last_close_target)),
            *final(last_close_target) == self.remembered(*old(last_close_target)),
    {
        if !self.is_on_final_approach() {
            return Avoidance::Clear;
        }
        let blocker: Blocker = match self.find_nearest_blocker() {
            Some(blocker) => blocker,
            None => {
                return Avoidance::Clear;
            },
        };
        if !self.fixed_target {
            return Avoidance::Sidestep {
                target: disjoint_target(&self.position, &blocker.position, self.diameter),
            };
        }
        match blocker.heading_to {
            Some(other) => {
                let targets_are_close: bool = other.is_within(&self.current, self.diameter);
                let seen_before: bool = match last_close_target {
                    Some(seen) => seen.is_within(&self.current, self.diameter),
                    None => false,
                };
                if targets_are_close && !seen_before {
                    *last_close_target = Some(self.current);
                    Avoidance::Tolerated
                } else {
                    *last_close_target = None;
                    Avoidance::Obstruct
                }
            },
            None => Avoidance::Obstruct,
        }
    }
}

/// The decisions for the first `n` units of a tick, in their order, and the
/// memory after them. The memory is empty when the tick begins.
pub open spec fn decisions_upto(probes: Seq<AvoidanceProbe>, n: int) -> (
    Seq<Avoidance>,
    Option<Position>,
)
    decreases n,
{
    if n <= 0 {
        (Seq::empty(), None)
    } else {
        let (before, memory) = decisions_upto(probes, n - 1);
        (before.push(probes[n - 1].decision(memory)), probes[n - 1].remembered(memory))
    }
}

/// A meeting is let pass once: of two units bound for slots, each on its
/// final approach and touched first by the other, whose waypoints lie
/// within one diameter of each other, the one looked at first goes on and
/// the other is marked as blocked, wherever in the world they meet.
pub proof fn lemma_meeting_is_let_pass_once(first: AvoidanceProbe, second: AvoidanceProbe)
    requires
        first.on_final_approach() && first.fixed_target,
        second.on_final_approach() && second.fixed_target,
        first.nearest_blocker() matches Some(blocker) && blocker.heading_to == Some(
            second.current,
        ),
        second.nearest_blocker() matches Some(blocker) && blocker.heading_to == Some(
            first.current,
        ),
        second.current.within(first.current, first.diameter as int),
        first.current.within(second.current, second.diameter as int),
    ensures
        decisions_upto(seq![first, second], 2).0 == seq![Avoidance::Tolerated, Avoidance::Obstruct],
        decisions_upto(seq![first, second], 2).1 is None,
{
    let probes = seq![first, second];
    reveal_with_fuel(decisions_upto, 3);
    assert(decisions_upto(probes, 0).1 is None);
    assert(probes[0] == first && probes[1] == second);
    assert(first.decision(None) == Avoidance::Tolerated);
    assert(first.remembered(None) == Some(first.current));
    assert(second.decision(Some(first.current)) == Avoidance::Obstruct);
    assert(decisions_upto(probes, 1).0 =~= seq![Avoidance::Tolerated]);
    assert(decisions_upto(probes, 2).0 =~= seq![Avoidance::Tolerated, Avoidance::Obstruct]);
}

/// Collision avoidance for one tick: looks at the moving units in their
/// order and decides for each. Nothing is changed while the units are looked
/// at; the caller carries the decisions out afterwards, each on the path of
/// its unit, with [`apply_avoidance`].
pub fn movable_collision_avoidance(probes: &Vec<AvoidanceProbe>) -> (decisions: Vec<Avoidance>)
    ensures
        decisions@ == decisions_upto(probes@, probes.len() as int).0,
        decisions.len() == probes.len(),
{
    let mut decisions: Vec<Avoidance> = Vec::new();
    let mut last_close_target: Option<Position> = None;
    let mut k: usize = 0;
    while k < probes.len()
        invariant
            k <= probes.len(),
            decisions.len() == k,
            decisions@ == decisions_upto(probes@, k as int).0,
            last_close_target == decisions_upto(probes@, k as int).1,
        decreases probes.len() - k,
    {
        let decision: Avoidance = probes[k].avoid(&mut last_close_target);
        decisions.push(decision);
        k += 1;
    }
    decisions
}

/// The path after a decision was carried out. A sidestep is taken only if
/// the walkable mesh contains its target.
pub open spec fn avoided<R>(path: PathView<R>, decision: Avoidance, target_in_mesh: bool) -> PathView<
    R,
> {
    match decision {
        Avoidance::Obstruct => PathView { obstructed: true, ..path },
        Avoidance::Sidestep { target } => if target_in_mesh {
            PathView { current: target, altered: true, ..path }
        } else {
            path
        },
        _ => path,
    }
}

/// Carries a decision out on the path of its unit. For a sidestep the
/// caller says whether the walkable mesh contains the target.
pub fn apply_avoidance<R: Copy>(path: &mut MovePath<R>, decision: &Avoidance, target_in_mesh: bool)
    ensures
        final(path)@ == avoided(old(path)@, *decision, target_in_mesh),
{
    match decision {
        Avoidance::Obstruct => path.obstruct(),
        Avoidance::Sidestep { target } => {
            if target_in_mesh {
                path.alter(*target);
            }
        },
        _ => {},
    }
}

} // verus!
