//! The cycle of a collecting unit as a whole: the ticks of one unit, each
//! made of a step of movement and a step of its task, and the law that the
//! cycle closes within a number of ticks bounded by the lengths of its two
//! routes and the time its load takes.

use crate::geometry::{moved_towards, Position};
use crate::motion::{
    arrives_within, ground_gap, lemma_route_is_walked, route_gap, steps_fit, ticks_for_route,
    ticks_per_waypoint,
};
use crate::path::{
    grounded_route, lemma_crossing_takes_first, lemma_planned_keeps_route, position_after_move,
    position_after_step, step_length, PathView, ARRIVAL_EPSILON,
};
use crate::resource_collection::{ResourceCollectionStage, ResourceCollector};
use crate::task::{decide, Interactable, NpcTaskResourceCollection, TaskSignals};
use vstd::prelude::*;

verus! {

/// A collecting unit between two ticks.
pub struct UnitView<R> {
    pub task: NpcTaskResourceCollection,
    pub collector: ResourceCollector,
    pub position: Position,
    /// The path of the move in flight, if there is one.
    pub path: Option<PathView<R>>,
    /// The unit holds the mark of a finished move.
    pub finished: bool,
}

/// What the collaborators of a unit hand in for one tick.
pub struct TickInput {
    /// The length of the unit's step: its speed times the time that
    /// passed.
    pub step: int,
    /// The shards of the unit's collection, while one is under way.
    pub held: Option<nat>,
    /// The route that the walkable mesh knows to where the task wants to
    /// go, if it is asked and knows one.
    pub route: Option<Seq<Position>>,
}

/// The unit after the movement of a tick: it steps towards its waypoint;
/// a waypoint reached gives way to the next, and with the last one reached
/// the move is over and the unit stands on it.
pub open spec fn moved_unit<R>(unit: UnitView<R>, step: int) -> UnitView<R> {
    match unit.path {
        None => unit,
        Some(path) => {
            let stepped = moved_towards(unit.position, path.current, step);
            if path.arrives(stepped) {
                UnitView {
                    position: Position { x: path.current.x, y: stepped.y, z: path.current.z },
                    path: None,
                    finished: true,
                    ..unit
                }
            } else {
                UnitView { position: stepped, path: Some(path.followed(stepped)), ..unit }
            }
        },
    }
}

/// The movement of a tick is the tick of the follower: a unit on a path
/// stands where one tick of movement at its speed puts it, its move is over
/// exactly when that tick arrives, and else its path is the one that tick
/// leaves.
pub proof fn lemma_tick_moves_as_the_follower<R>(unit: UnitView<R>, speed: int, elapsed_micros: int)
    requires
        unit.path is Some,
    ensures
        ({
            let path = unit.path.unwrap();
            let moved = moved_unit(unit, step_length(speed, elapsed_micros));
            let stepped = position_after_step(path, unit.position, speed, elapsed_micros);
            &&& moved.position == position_after_move(path, unit.position, speed, elapsed_micros)
            &&& moved.path is None <==> path.arrives(stepped)
            &&& moved.finished == (unit.finished || path.arrives(stepped))
            &&& moved.path matches Some(onward) ==> onward == path.followed(stepped)
        }),
{
}

/// What the movement of a unit reports to its task.
pub open spec fn signals_of<R>(unit: UnitView<R>) -> TaskSignals {
    TaskSignals {
        move_finished: unit.finished,
        move_obstructed: match unit.path {
            Some(path) => Some(path.obstructed),
            None => None,
        },
    }
}

/// The unit after the task's part of a tick: the order is given, the mark
/// of the finished move is taken away where the order says so, and a path
/// that was asked for and could be planned becomes the unit's path.
pub open spec fn tasked_unit<R>(
    unit: UnitView<R>,
    input: TickInput,
    containers: Seq<Interactable>,
) -> UnitView<R> {
    let order = decide(
        unit.task,
        unit.collector,
        signals_of(unit),
        input.held,
        unit.position,
        containers,
    );
    let planned = order.wants_path() && input.route is Some && input.route.unwrap().len() > 0;
    let usage = NpcTaskResourceCollection::path_use(order, planned);
    UnitView {
        task: unit.task.ordered(order).concluded(order, planned),
        collector: unit.collector.ordered(order),
        position: unit.position,
        path: if usage is Nothing {
            unit.path
        } else {
            Some(PathView::planned(input.route.unwrap(), None, None))
        },
        finished: unit.finished && !(order is BeginCollecting || order is ReturnToResource),
    }
}

/// One tick of a unit: first it moves, then its task is looked at.
pub open spec fn unit_tick<R>(
    unit: UnitView<R>,
    input: TickInput,
    containers: Seq<Interactable>,
) -> UnitView<R> {
    tasked_unit(moved_unit(unit, input.step), input, containers)
}

/// The unit after the first `ticks` of the given ticks.
pub open spec fn unit_after<R>(
    unit: UnitView<R>,
    inputs: Seq<TickInput>,
    containers: Seq<Interactable>,
    ticks: nat,
) -> UnitView<R>
    decreases ticks,
{
    if ticks == 0 {
        unit
    } else {
        unit_after(
            unit_tick(unit, inputs[0], containers),
            inputs.skip(1),
            containers,
            (ticks - 1) as nat,
        )
    }
}

/// The lengths of the steps of the ticks.
pub open spec fn steps_of(inputs: Seq<TickInput>) -> Seq<int> {
    Seq::new(inputs.len(), |i: int| inputs[i].step)
}

/// The number of ticks within which a route is walked from `from`: its
/// length in whole units and 25 more for every waypoint.
pub open spec fn ticks_for(from: Position, route: Seq<Position>) -> int {
    route_gap(from, grounded_route(route)) + ticks_per_waypoint() * route.len()
}

/// What a cycle needs of the collaborators of a unit: every step is
/// between 3 units and the reach of a waypoint; the walkable mesh always
/// knows a route, which from `end` is walked within `base_ticks` ticks; and
/// from tick `full_from` on the unit holds a load of at least `limit`
/// shards.
pub open spec fn collaborators_serve(
    inputs: Seq<TickInput>,
    limit: usize,
    full_from: int,
    end: Position,
    base_ticks: int,
) -> bool {
    forall|i: int|
        0 <= i < inputs.len() ==> {
            &&& 3 <= (#[trigger] inputs[i]).step <= ARRIVAL_EPSILON
            &&& inputs[i].route is Some
            &&& inputs[i].route.unwrap().len() > 0
            &&& ticks_for(end, inputs[i].route.unwrap()) <= base_ticks
            &&& i >= full_from ==> inputs[i].held is Some && inputs[i].held.unwrap() >= limit
        }
}

/// Running `first` ticks and then `then` more is running `first + then`.
proof fn lemma_after_joins<R>(
    unit: UnitView<R>,
    inputs: Seq<TickInput>,
    containers: Seq<Interactable>,
    first: nat,
    then: nat,
)
    requires
        first <= inputs.len(),
    ensures
        unit_after(unit, inputs, containers, first + then) == unit_after(
            unit_after(unit, inputs, containers, first),
            inputs.skip(first as int),
            containers,
            then,
        ),
    decreases first,
{
    if first == 0 {
        assert(inputs.skip(0) =~= inputs);
    } else {
        let next = unit_tick(unit, inputs[0], containers);
        lemma_after_joins(next, inputs.skip(1), containers, (first - 1) as nat, then);
        assert(inputs.skip(1).skip(first - 1) =~= inputs.skip(first as int));
    }
}

/// Collaborators that serve go on serving when the first ticks are over.
proof fn lemma_serve_goes_on(
    inputs: Seq<TickInput>,
    limit: usize,
    full_from: int,
    end: Position,
    base_ticks: int,
    over: int,
)
    requires
        collaborators_serve(inputs, limit, full_from, end, base_ticks),
        0 <= over <= inputs.len(),
    ensures
        collaborators_serve(inputs.skip(over), limit, full_from - over, end, base_ticks),
        inputs.skip(over).len() == inputs.len() - over,
        steps_fit(steps_of(inputs)),
{
    assert forall|i: int| 0 <= i < inputs.skip(over).len() implies {
        &&& 3 <= (#[trigger] inputs.skip(over)[i]).step <= ARRIVAL_EPSILON
        &&& inputs.skip(over)[i].route is Some
        &&& inputs.skip(over)[i].route.unwrap().len() > 0
        &&& ticks_for(end, inputs.skip(over)[i].route.unwrap()) <= base_ticks
        &&& i >= full_from - over ==> inputs.skip(over)[i].held is Some && inputs.skip(
            over,
        )[i].held.unwrap() >= limit
    } by {
        assert(inputs.skip(over)[i] == inputs[i + over]);
    }
    assert forall|i: int| 0 <= i < steps_of(inputs).len() implies 3 <= #[trigger] steps_of(
        inputs,
    )[i] <= ARRIVAL_EPSILON by {
        assert(steps_of(inputs)[i] == inputs[i].step);
    }
}

/// Whether the unit is on a move that nothing blocks, on its way to its
/// deposit or to its base.
pub open spec fn walking<R>(unit: UnitView<R>) -> bool {
    &&& unit.path is Some
    &&& !unit.path.unwrap().obstructed
    &&& !unit.finished
    &&& unit.task.resource_entity is Some
    &&& (unit.task.stage is MovingToResource || unit.task.stage is MovingToBase)
}

/// Whether `after` is the unit at the end of the move that `before` was
/// on: it stands on the last waypoint of the path, and its task has taken
/// the next stage: collecting after the way to the deposit, on the way to
/// the deposit again after the way to the base.
pub open spec fn walk_ended<R>(before: UnitView<R>, after: UnitView<R>) -> bool {
    &&& after.task.resource_entity == before.task.resource_entity
    &&& after.collector == before.collector
    &&& after.position.x == before.path.unwrap().waypoints().last().x
    &&& after.position.z == before.path.unwrap().waypoints().last().z
    &&& before.task.stage is MovingToResource ==> {
        &&& after.task.stage is CollectingResource
        &&& after.path is None
        &&& !after.finished
    }
    &&& before.task.stage is MovingToBase ==> after.task.stage is MovingToResource
}

/// A move ends with the arrival: a walking unit whose path is walked
/// within `ticks` ticks has, after one of these ticks, arrived and taken the
/// next stage of its task. Until then its task waits.
proof fn lemma_walk_ends<R>(
    unit: UnitView<R>,
    inputs: Seq<TickInput>,
    containers: Seq<Interactable>,
    ticks: nat,
)
    requires
        walking(unit),
        ticks <= inputs.len(),
        forall|i: int|
            0 <= i < inputs.len() ==> (#[trigger] inputs[i]).route is Some
                && inputs[i].route.unwrap().len() > 0,
        arrives_within(unit.path.unwrap(), unit.position, steps_of(inputs), ticks),
    ensures
        exists|arrival: nat|
            1 <= arrival <= ticks && walk_ended(
                unit,
                #[trigger] unit_after(unit, inputs, containers, arrival),
            ),
    decreases ticks,
{
    let path = unit.path.unwrap();
    let input = inputs[0];
    let stepped = moved_towards(unit.position, path.current, input.step);
    assert(steps_of(inputs)[0] == input.step);
    let next = unit_tick(unit, input, containers);
    assert(unit_after(unit, inputs, containers, 1) == next) by {
        assert(unit_after(next, inputs.skip(1), containers, 0) == next);
    }
    assert(path.next.reverse().len() == path.next.len());
    if path.arrives(stepped) {
        assert(path.waypoints() =~= seq![path.current]);
        assert(walk_ended(unit, next));
    } else {
        let onward = path.followed(stepped);
        assert(next == (UnitView { position: stepped, path: Some(onward), ..unit }));
        assert(steps_of(inputs).skip(1) =~= steps_of(inputs.skip(1)));
        assert forall|i: int| 0 <= i < inputs.skip(1).len() implies (#[trigger] inputs.skip(
            1,
        )[i]).route is Some && inputs.skip(1)[i].route.unwrap().len() > 0 by {
            assert(inputs.skip(1)[i] == inputs[i + 1]);
        }
        lemma_walk_ends(next, inputs.skip(1), containers, (ticks - 1) as nat);
        let later = choose|arrival: nat|
            1 <= arrival <= ticks - 1 && walk_ended(
                next,
                #[trigger] unit_after(next, inputs.skip(1), containers, arrival),
            );
        assert(unit_after(unit, inputs, containers, later + 1) == unit_after(
            next,
            inputs.skip(1),
            containers,
            later,
        ));
        if path.reached(stepped) {
            lemma_crossing_takes_first(path);
            assert(onward.waypoints().last() == path.waypoints().last());
        }
        assert(walk_ended(unit, unit_after(unit, inputs, containers, later + 1)));
    }
}

/// Whether `after` is the unit `before` with its load full: nothing has
/// changed but the stage of the task, which is now the way to the base.
pub open spec fn load_filled<R>(before: UnitView<R>, after: UnitView<R>) -> bool {
    after == (UnitView {
        task: NpcTaskResourceCollection {
            stage: ResourceCollectionStage::MovingToBase,
            ..before.task
        },
        ..before
    })
}

/// The collection ends with the full load: a unit that collects, and that
/// from tick `full_from` on holds a load of at least its limit, turns to its
/// base after at most `full_from + 1` ticks.
proof fn lemma_load_fills<R>(
    unit: UnitView<R>,
    inputs: Seq<TickInput>,
    containers: Seq<Interactable>,
    full_from: nat,
)
    requires
        unit.task.stage is CollectingResource,
        unit.path is None,
        !unit.finished,
        full_from < inputs.len(),
        forall|i: int|
            full_from <= i < inputs.len() ==> (#[trigger] inputs[i]).held is Some
                && inputs[i].held.unwrap() >= unit.collector.limit,
    ensures
        exists|filled: nat|
            1 <= filled <= full_from + 1 && load_filled(
                unit,
                #[trigger] unit_after(unit, inputs, containers, filled),
            ),
    decreases full_from,
{
    let input = inputs[0];
    let next = unit_tick(unit, input, containers);
    assert(unit_after(unit, inputs, containers, 1) == next) by {
        assert(unit_after(next, inputs.skip(1), containers, 0) == next);
    }
    if input.held is Some && input.held.unwrap() >= unit.collector.limit {
        assert(load_filled(unit, next));
    } else {
        assert(next == unit);
        assert forall|i: int| full_from - 1 <= i < inputs.skip(1).len() implies (
        #[trigger] inputs.skip(1)[i]).held is Some && inputs.skip(1)[i].held.unwrap()
            >= unit.collector.limit by {
            assert(inputs.skip(1)[i] == inputs[i + 1]);
        }
        lemma_load_fills(unit, inputs.skip(1), containers, (full_from - 1) as nat);
        let later = choose|filled: nat|
            1 <= filled <= full_from && load_filled(
                unit,
                #[trigger] unit_after(unit, inputs.skip(1), containers, filled),
            );
        assert(unit_after(unit, inputs, containers, later + 1) == unit_after(
            next,
            inputs.skip(1),
            containers,
            later,
        ));
    }
}

/// The number of ticks within which the cycle of a unit closes at the
/// latest: the ticks for its route to the deposit, the ticks until its load
/// is full, the ticks for its route to the base, and two more, one in which
/// the load is found full and one in which the route to the base is planned.
pub open spec fn ticks_for_cycle<R>(unit: UnitView<R>, full_from: nat, base_ticks: int) -> int {
    ticks_for_route(unit.path.unwrap(), unit.position) + full_from + base_ticks + 2
}

/// The cycle closes in bounded time. Take a unit on its way to a deposit,
/// on a path that nothing blocks, whose steps are all between 3 units and the
/// reach of a waypoint. Let the walkable mesh know a route whenever it is
/// asked, one that is walked from the deposit within `base_ticks` ticks, and
/// let the unit hold a full load from tick `full_from` on. Then the task
/// reaches the way to the base, and after that the way to the same deposit
/// again, within as many ticks as its two routes and the filling of its load
/// take: the routes count by their length in whole units and by 25 for every
/// waypoint.
pub proof fn lemma_cycle_closes_in_time<R>(
    unit: UnitView<R>,
    inputs: Seq<TickInput>,
    containers: Seq<Interactable>,
    full_from: nat,
    base_ticks: int,
)
    requires
        walking(unit),
        unit.task.stage is MovingToResource,
        0 <= base_ticks,
        collaborators_serve(
            inputs,
            unit.collector.limit,
            full_from as int,
            unit.path.unwrap().waypoints().last(),
            base_ticks,
        ),
        inputs.len() >= ticks_for_cycle(unit, full_from, base_ticks),
    ensures
        exists|loaded: nat, back: nat|
            {
                &&& loaded < back <= ticks_for_cycle(unit, full_from, base_ticks)
                &&& (#[trigger] unit_after(unit, inputs, containers, loaded)).task.stage
                    is MovingToBase
                &&& (#[trigger] unit_after(unit, inputs, containers, back)).task.stage
                    is MovingToResource
                &&& unit_after(unit, inputs, containers, back).task.resource_entity
                    == unit.task.resource_entity
            },
{
    let path = unit.path.unwrap();
    let end = path.waypoints().last();
    let limit = unit.collector.limit;
    let there = ticks_for_route(path, unit.position);
    lemma_serve_goes_on(inputs, limit, full_from as int, end, base_ticks, 0);
    lemma_route_is_walked(path, unit.position, steps_of(inputs));
    lemma_walk_ends(unit, inputs, containers, there as nat);
    let arrival = choose|arrival: nat|
        1 <= arrival <= there && walk_ended(
            unit,
            #[trigger] unit_after(unit, inputs, containers, arrival),
        );
    let at_deposit = unit_after(unit, inputs, containers, arrival);

    let while_loading = inputs.skip(arrival as int);
    lemma_serve_goes_on(inputs, limit, full_from as int, end, base_ticks, arrival as int);
    let still: nat = if full_from >= arrival {
        (full_from - arrival) as nat
    } else {
        0
    };
    lemma_load_fills(at_deposit, while_loading, containers, still);
    let filled = choose|filled: nat|
        1 <= filled <= still + 1 && load_filled(
            at_deposit,
            #[trigger] unit_after(at_deposit, while_loading, containers, filled),
        );
    let full = unit_after(at_deposit, while_loading, containers, filled);
    let loaded = arrival + filled;
    lemma_after_joins(unit, inputs, containers, arrival, filled);
    assert(unit_after(unit, inputs, containers, loaded) == full);
    assert(loaded <= there + full_from + 1);

    let from_loaded = inputs.skip(loaded as int);
    lemma_serve_goes_on(inputs, limit, full_from as int, end, base_ticks, loaded as int);
    let input = from_loaded[0];
    let sent = unit_tick(full, input, containers);
    assert(unit_after(full, from_loaded, containers, 1) == sent) by {
        assert(unit_after(sent, from_loaded.skip(1), containers, 0) == sent);
    }
    lemma_after_joins(unit, inputs, containers, loaded, 1);
    assert(unit_after(unit, inputs, containers, loaded + 1) == sent);
    assert(moved_unit(full, input.step) == full);
    let route = input.route.unwrap();
    if input.held is None {
        assert(sent.task.stage is MovingToResource);
        assert(sent.task.resource_entity == unit.task.resource_entity);
        assert(loaded + 1 <= ticks_for_cycle(unit, full_from, base_ticks));
    } else {
        let to_base: PathView<R> = PathView::planned(route, None, None);
        assert(sent.path == Some(to_base));
        assert(sent.task.stage is MovingToBase);
        assert(walking(sent));
        lemma_planned_keeps_route::<R>(route, None, None);
        assert(grounded_route(route).len() == route.len());
        let walk = ticks_for_route(to_base, sent.position);
        assert(walk == ticks_for(sent.position, route));
        assert(ground_gap(sent.position, grounded_route(route)[0]) == ground_gap(
            end,
            grounded_route(route)[0],
        )) by {
            assert(sent.position.ground_dist_sq(grounded_route(route)[0]) == end.ground_dist_sq(
                grounded_route(route)[0],
            ));
        }
        assert(ticks_for(sent.position, route) == ticks_for(end, route));
        assert(walk <= base_ticks);
        let on_the_way = from_loaded.skip(1);
        lemma_serve_goes_on(from_loaded, limit, full_from - loaded, end, base_ticks, 1);
        lemma_serve_goes_on(on_the_way, limit, full_from - loaded - 1, end, base_ticks, 0);
        lemma_route_is_walked(to_base, sent.position, steps_of(on_the_way));
        lemma_walk_ends(sent, on_the_way, containers, walk as nat);
        let delivery = choose|arrival: nat|
            1 <= arrival <= walk && walk_ended(
                sent,
                #[trigger] unit_after(sent, on_the_way, containers, arrival),
            );
        let back = loaded + 1 + delivery;
        assert(inputs.skip((loaded + 1) as int) =~= on_the_way);
        lemma_after_joins(unit, inputs, containers, (loaded + 1) as nat, delivery);
        assert(unit_after(unit, inputs, containers, back) == unit_after(
            sent,
            on_the_way,
            containers,
            delivery,
        ));
        assert(unit_after(unit, inputs, containers, back).task.stage is MovingToResource);
        assert(back <= ticks_for_cycle(unit, full_from, base_ticks));
    }
}

} // verus!
