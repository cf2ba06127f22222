//! What the walkable mesh is built from: the boundary of the world and
//! the footprints of the obstacles, widened by the radius of a unit. The
//! mesh itself is triangulated by the caller, who also asks it for paths.

use crate::geometry::{clamp_coordinate, Entity, Position};
use itertools::Itertools;
use vstd::prelude::*;

verus! {

/// Half the side of the square world.
pub const GROUND_HSIZE: i32 = 500_000;

/// The margin by which obstacles are widened, so that a unit walking along
/// the edge of the mesh stays clear of them.
pub const AGENT_RADIUS: i32 = 400;

/// A point of the ground plane.
#[derive(Clone, Copy, Debug, PartialEq, Eq, Structural)]
pub struct GroundPoint {
    pub x: i32,
    pub z: i32,
}

/// A rectangle on the ground with sides along the axes, by its corners in
/// the order in which they are walked round.
#[derive(Clone, Copy, Debug, PartialEq, Eq, Structural)]
pub struct Footprint {
    pub v0: GroundPoint,
    pub v1: GroundPoint,
    pub v2: GroundPoint,
    pub v3: GroundPoint,
}

/// The bounding volume of an obstacle, by two opposite corners in the
/// world.
#[derive(Clone, Copy, Debug, PartialEq, Eq, Structural)]
pub struct ObstacleAabb {
    pub min: Position,
    pub max: Position,
}

/// A scene object below an obstacle container, and whether it has a
/// bounding volume.
#[derive(Clone, Copy, Debug, PartialEq, Eq, Structural)]
pub struct BoundedEntity {
    pub entity: Entity,
    pub has_bounds: bool,
}

/// What the mesh is triangulated from.
pub struct NavmeshInput {
    pub boundary: Footprint,
    pub obstacles: Vec<Footprint>,
}

/// The smaller of two coordinates.
pub open spec fn lower(a: int, b: int) -> int {
    if a <= b {
        a
    } else {
        b
    }
}

/// The larger of two coordinates.
pub open spec fn upper(a: int, b: int) -> int {
    if a <= b {
        b
    } else {
        a
    }
}

/// The rectangle from `(low_x, low_z)` to `(high_x, high_z)`.
pub open spec fn rectangle(low_x: int, low_z: int, high_x: int, high_z: int) -> Footprint {
    Footprint {
        v0: GroundPoint { x: low_x as i32, z: low_z as i32 },
        v1: GroundPoint { x: low_x as i32, z: high_z as i32 },
        v2: GroundPoint { x: high_x as i32, z: high_z as i32 },
        v3: GroundPoint { x: high_x as i32, z: low_z as i32 },
    }
}

/// The boundary of the world.
pub open spec fn world_boundary() -> Footprint {
    rectangle(
        -(GROUND_HSIZE as int),
        -(GROUND_HSIZE as int),
        GROUND_HSIZE as int,
        GROUND_HSIZE as int,
    )
}

impl ObstacleAabb {
    /// The projection of the volume onto the ground, widened on every side
    /// by `margin` and kept in the range of coordinates.
    pub open spec fn footprint(self, margin: int) -> Footprint {
        rectangle(
            clamp_coordinate(lower(self.min.x as int, self.max.x as int) - margin),
            clamp_coordinate(lower(self.min.z as int, self.max.z as int) - margin),
            clamp_coordinate(upper(self.min.x as int, self.max.x as int) + margin),
            clamp_coordinate(upper(self.min.z as int, self.max.z as int) + margin),
        )
    }

    /// Whether the ground point `(x, z)` lies in the projection of the
    /// volume onto the ground, its edge included.
    pub open spec fn covers(self, x: int, z: int) -> bool {
        &&& lower(self.min.x as int, self.max.x as int) <= x <= upper(
            self.min.x as int,
            self.max.x as int,
        )
        &&& lower(self.min.z as int, self.max.z as int) <= z <= upper(
            self.min.z as int,
            self.max.z as int,
        )
    }
}

impl Footprint {
    /// Whether the ground point `(x, z)` lies inside the rectangle, off its
    /// edge.
    pub open spec fn encloses(self, x: int, z: int) -> bool {
        self.v0.x < x < self.v2.x && self.v0.z < z < self.v2.z
    }

    /// The corners in the order in which they are walked round.
    pub fn corners(&self) -> (list: Vec<GroundPoint>)
        ensures
            list@ == seq![self.v0, self.v1, self.v2, self.v3],
    {
        let mut list: Vec<GroundPoint> = Vec::new();
        list.push(self.v0);
        list.push(self.v1);
        list.push(self.v2);
        list.push(self.v3);
        assert(list@ =~= seq![self.v0, self.v1, self.v2, self.v3]);
        list
    }
}

/// A widened footprint keeps units clear of the obstacle: a ground point
/// that the footprint does not enclose is at least the margin away from
/// every point that the obstacle covers, as long as the footprint lies in
/// the range of coordinates.
pub proof fn lemma_margin_keeps_clear(
    obstacle: ObstacleAabb,
    margin: int,
    x: int,
    z: int,
    ox: int,
    oz: int,
)
    requires
        0 <= margin,
        obstacle.covers(ox, oz),
        !obstacle.footprint(margin).encloses(x, z),
        i32::MIN <= lower(obstacle.min.x as int, obstacle.max.x as int) - margin,
        i32::MIN <= lower(obstacle.min.z as int, obstacle.max.z as int) - margin,
        upper(obstacle.min.x as int, obstacle.max.x as int) + margin <= i32::MAX,
        upper(obstacle.min.z as int, obstacle.max.z as int) + margin <= i32::MAX,
    ensures
        (x - ox) * (x - ox) + (z - oz) * (z - oz) >= margin * margin,
{
    let dx = x - ox;
    let dz = z - oz;
    assert(dx >= margin || dx <= -margin || dz >= margin || dz <= -margin);
    assert(dx * dx >= 0 && dz * dz >= 0) by (nonlinear_arith);
    if dx >= margin || dx <= -margin {
        assert(dx * dx >= margin * margin) by (nonlinear_arith)
            requires
                0 <= margin,
                dx >= margin || dx <= -margin,
        ;
    } else {
        assert(dz * dz >= margin * margin) by (nonlinear_arith)
            requires
                0 <= margin,
                dz >= margin || dz <= -margin,
        ;
    }
}

fn clamped(value: i64) -> (kept: i32)
    ensures
        kept == clamp_coordinate(value as int),
{
    if value < i32::MIN as i64 {
        i32::MIN
    } else if value > i32::MAX as i64 {
        i32::MAX
    } else {
        value as i32
    }
}

/// Whether the volume is the smallest one with sides along the axes that
/// holds every one of the points: on each axis it reaches from the least to
/// the greatest coordinate among them.
pub open spec fn bounds_all(volume: ObstacleAabb, corners: Seq<Position>) -> bool {
    &&& forall|i: int|
        0 <= i < corners.len() ==> {
            &&& volume.min.x <= (#[trigger] corners[i]).x <= volume.max.x
            &&& volume.min.y <= corners[i].y <= volume.max.y
            &&& volume.min.z <= corners[i].z <= volume.max.z
        }
    &&& exists|i: int| 0 <= i < corners.len() && (#[trigger] corners[i]).x == volume.min.x
    &&& exists|i: int| 0 <= i < corners.len() && (#[trigger] corners[i]).y == volume.min.y
    &&& exists|i: int| 0 <= i < corners.len() && (#[trigger] corners[i]).z == volume.min.z
    &&& exists|i: int| 0 <= i < corners.len() && (#[trigger] corners[i]).x == volume.max.x
    &&& exists|i: int| 0 <= i < corners.len() && (#[trigger] corners[i]).y == volume.max.y
    &&& exists|i: int| 0 <= i < corners.len() && (#[trigger] corners[i]).z == volume.max.z
}

/// The bounding volume of an obstacle in the world, from the corners of
/// its own volume as they stand in the world. However the obstacle is
/// turned, the result holds all of it. Without corners there is no volume.
pub fn bounding_volume(corners: &Vec<Position>) -> (volume: Option<ObstacleAabb>)
    ensures
        volume is None <==> corners.len() == 0,
        volume matches Some(v) ==> bounds_all(v, corners@),
{
    if corners.len() == 0 {
        return None;
    }
    let mut min: Position = corners[0];
    let mut max: Position = corners[0];
    let ghost mut at_min_x: int = 0;
    let ghost mut at_min_y: int = 0;
    let ghost mut at_min_z: int = 0;
    let ghost mut at_max_x: int = 0;
    let ghost mut at_max_y: int = 0;
    let ghost mut at_max_z: int = 0;
    let mut k: usize = 1;
    while k < corners.len()
        invariant
            1 <= k <= corners.len(),
            forall|i: int|
                0 <= i < k ==> {
                    &&& min.x <= (#[trigger] corners[i]).x <= max.x
                    &&& min.y <= corners[i].y <= max.y
                    &&& min.z <= corners[i].z <= max.z
                },
            0 <= at_min_x < k && corners[at_min_x].x == min.x,
            0 <= at_min_y < k && corners[at_min_y].y == min.y,
            0 <= at_min_z < k && corners[at_min_z].z == min.z,
            0 <= at_max_x < k && corners[at_max_x].x == max.x,
            0 <= at_max_y < k && corners[at_max_y].y == max.y,
            0 <= at_max_z < k && corners[at_max_z].z == max.z,
        decreases corners.len() - k,
    {
        let corner: Position = corners[k];
        if corner.x < min.x {
            min.x = corner.x;
            proof {
                at_min_x = k as int;
            }
        }
        if corner.y < min.y {
            min.y = corner.y;
            proof {
                at_min_y = k as int;
            }
        }
        if corner.z < min.z {
            min.z = corner.z;
            proof {
                at_min_z = k as int;
            }
        }
        if corner.x > max.x {
            max.x = corner.x;
            proof {
                at_max_x = k as int;
            }
        }
        if corner.y > max.y {
            max.y = corner.y;
            proof {
                at_max_y = k as int;
            }
        }
        if corner.z > max.z {
            max.z = corner.z;
            proof {
                at_max_z = k as int;
            }
        }
        k += 1;
    }
    Some(ObstacleAabb { min, max })
}

/// The footprint of an obstacle on the ground, widened by `margin`.
pub fn obstacle_footprint(obstacle: &ObstacleAabb, margin: i32) -> (footprint: Footprint)
    ensures
        footprint == obstacle.footprint(margin as int),
{
    let (low_x, high_x) = if obstacle.min.x <= obstacle.max.x {
        (obstacle.min.x, obstacle.max.x)
    } else {
        (obstacle.max.x, obstacle.min.x)
    };
    let (low_z, high_z) = if obstacle.min.z <= obstacle.max.z {
        (obstacle.min.z, obstacle.max.z)
    } else {
        (obstacle.max.z, obstacle.min.z)
    };
    let x0: i32 = clamped(low_x as i64 - margin as i64);
    let z0: i32 = clamped(low_z as i64 - margin as i64);
    let x1: i32 = clamped(high_x as i64 + margin as i64);
    let z1: i32 = clamped(high_z as i64 + margin as i64);
    Footprint {
        v0: GroundPoint { x: x0, z: z0 },
        v1: GroundPoint { x: x0, z: z1 },
        v2: GroundPoint { x: x1, z: z1 },
        v3: GroundPoint { x: x1, z: z0 },
    }
}

/// The objects below a new obstacle container that become obstacles of the
/// mesh: those with a bounding volume, in their order.
pub open spec fn bounded_entities(descendants: Seq<BoundedEntity>) -> Seq<Entity> {
    descendants.filter(|d: BoundedEntity| d.has_bounds).map_values(|d: BoundedEntity| d.entity)
}

/// Picks the obstacles of the mesh among the objects below a container
/// that has just appeared.
pub fn collect_navmesh_obstacles(descendants: &Vec<BoundedEntity>) -> (tagged: Vec<Entity>)
    ensures
        tagged@ == bounded_entities(descendants@),
{
    let ghost pred = |d: BoundedEntity| d.has_bounds;
    let ghost pick = |d: BoundedEntity| d.entity;
    let mut tagged: Vec<Entity> = Vec::new();
    let mut k: usize = 0;
    proof {
        assert(descendants@.take(0) =~= Seq::<BoundedEntity>::empty());
        descendants@.take(0).lemma_filter_len(pred);
        assert(descendants@.take(0).filter(pred) =~= Seq::<BoundedEntity>::empty());
        assert(tagged@ =~= descendants@.take(0).filter(pred).map_values(pick));
    }
    while k < descendants.len()
        invariant
            k <= descendants.len(),
            pred == |d: BoundedEntity| d.has_bounds,
            pick == |d: BoundedEntity| d.entity,
            tagged@ == descendants@.take(k as int).filter(pred).map_values(pick),
        decreases descendants.len() - k,
    {
        proof {
            let before = descendants@.take(k as int);
            assert(descendants@.take(k + 1) =~= before.push(descendants@[k as int]));
            before.lemma_filter_push(descendants@[k as int], pred);
            if descendants@[k as int].has_bounds {
                assert(before.filter(pred).push(descendants@[k as int]).map_values(pick)
                    =~= before.filter(pred).map_values(pick).push(descendants@[k as int].entity));
            }
        }
        if descendants[k].has_bounds {
            tagged.push(descendants[k].entity);
        }
        k += 1;
    }
    assert(descendants@.take(k as int) =~= descendants@);
    tagged
}

/// The footprints of the obstacles, each widened by the radius of a unit.
pub open spec fn widened_footprints(obstacles: Seq<ObstacleAabb>) -> Seq<Footprint> {
    Seq::new(obstacles.len(), |i: int| obstacles[i].footprint(AGENT_RADIUS as int))
}

/// Decides whether the mesh is built anew and from what.
///
/// `changed` counts the obstacles added or changed since the last build,
/// `removed` those taken away. If both are zero nothing is to be done. Else
/// the mesh is built from the boundary of the world and the footprint of
/// every obstacle in `obstacles`, widened by [`AGENT_RADIUS`]; the new mesh
/// replaces the old one.
pub fn update_navmesh_obstacles(changed: usize, removed: usize, obstacles: &Vec<ObstacleAabb>) -> (input:
    Option<NavmeshInput>)
    ensures
        input is None <==> changed == 0 && removed == 0,
        input matches Some(mesh) ==> mesh.boundary == world_boundary() && mesh.obstacles@
            == widened_footprints(obstacles@),
{
    if changed == 0 && removed == 0 {
        return None;
    }
    let mut footprints: Vec<Footprint> = Vec::new();
    let mut k: usize = 0;
    while k < obstacles.len()
        invariant
            k <= obstacles.len(),
            footprints.len() == k,
            forall|j: int|
                0 <= j < k ==> footprints[j] == obstacles[j].footprint(AGENT_RADIUS as int),
        decreases obstacles.len() - k,
    {
        footprints.push(obstacle_footprint(&obstacles[k], AGENT_RADIUS));
        k += 1;
    }
    assert(footprints@ =~= widened_footprints(obstacles@));
    let boundary = Footprint {
        v0: GroundPoint { x: -GROUND_HSIZE, z: -GROUND_HSIZE },
        v1: GroundPoint { x: -GROUND_HSIZE, z: GROUND_HSIZE },
        v2: GroundPoint { x: GROUND_HSIZE, z: GROUND_HSIZE },
        v3: GroundPoint { x: GROUND_HSIZE, z: -GROUND_HSIZE },
    };
    Some(NavmeshInput { boundary, obstacles: footprints })
}

/// What the mesh is built from depends on the obstacles alone: two builds
/// over the same obstacles start from the same boundary and the same
/// footprints, whatever made each of them necessary.
pub proof fn lemma_rebuild_repeats(
    first: NavmeshInput,
    second: NavmeshInput,
    obstacles: Seq<ObstacleAabb>,
)
    requires
        first.boundary == world_boundary(),
        first.obstacles@ == widened_footprints(obstacles),
        second.boundary == world_boundary(),
        second.obstacles@ == widened_footprints(obstacles),
    ensures
        first.boundary == second.boundary,
        first.obstacles@ == second.obstacles@,
{
}

/// A line between two vertices, by their numbers.
pub type Edge = (u32, u32);

/// The line without its direction: the smaller number first.
pub open spec fn undirected(edge: Edge) -> Edge {
    if edge.0 < edge.1 {
        (edge.0, edge.1)
    } else {
        (edge.1, edge.0)
    }
}

/// The line without its direction.
pub fn edge_key(edge: &Edge) -> (key: Edge)
    ensures
        key == undirected(*edge),
{
    if edge.0 < edge.1 {
        (edge.0, edge.1)
    } else {
        (edge.1, edge.0)
    }
}

/// Whether a line between the same two vertices as line `i` stands before
/// it in the list.
pub open spec fn drawn_before(edges: Seq<Edge>, i: int) -> bool {
    exists|j: int| 0 <= j < i && undirected(#[trigger] edges[j]) == undirected(edges[i])
}

/// The list without the lines that were drawn before, in either direction;
/// the lines that stay keep their order.
pub open spec fn first_of_each_line(edges: Seq<Edge>) -> Seq<Edge>
    decreases edges.len(),
{
    if edges.len() == 0 {
        Seq::empty()
    } else {
        let before = first_of_each_line(edges.drop_last());
        if drawn_before(edges, edges.len() - 1) {
            before
        } else {
            before.push(edges.last())
        }
    }
}

/// Calls `unique_by` of itertools on the lines, keyed by [`edge_key`]. The
/// adaptor drops every item whose key was produced before and returns the
/// others in the order in which they came, so of the lines between the same
/// two vertices the first stays.
#[verifier::external_body]
fn unique_edges(edges: Vec<Edge>) -> (kept: Vec<Edge>)
    ensures
        kept@ == first_of_each_line(edges@),
{
    edges.into_iter().unique_by(|edge| edge_key(edge)).collect()
}

/// The sides of a polygon: from each vertex to the next, and from the last
/// to the first.
pub open spec fn polygon_edges(vertices: Seq<u32>) -> Seq<Edge> {
    Seq::new(vertices.len(), |i: int| (vertices[i], vertices[(i + 1) % (vertices.len() as int)]))
}

/// The sides of the first `n` polygons, in their order.
pub open spec fn edges_upto(polygons: Seq<Vec<u32>>, n: int) -> Seq<Edge>
    decreases n,
{
    if n <= 0 {
        Seq::empty()
    } else {
        edges_upto(polygons, n - 1) + polygon_edges(polygons[n - 1]@)
    }
}

/// The ends of the lines, one after the other.
pub open spec fn line_list(edges: Seq<Edge>) -> Seq<u32> {
    Seq::new(
        2 * edges.len(),
        |i: int| if i % 2 == 0 {
            edges[i / 2].0
        } else {
            edges[i / 2].1
        },
    )
}

/// The wireframe of a mesh as a list of lines: the sides of all polygons,
/// each side shared by two polygons drawn once. `polygons` gives each
/// polygon by the numbers of its vertices; the result holds the two ends of
/// every line, one line after the other.
pub fn navmesh_to_wireframe(polygons: &Vec<Vec<u32>>) -> (indices: Vec<u32>)
    ensures
        indices@ == line_list(first_of_each_line(edges_upto(polygons@, polygons.len() as int))),
{
    let mut edges: Vec<Edge> = Vec::new();
    let mut p: usize = 0;
    while p < polygons.len()
        invariant
            p <= polygons.len(),
            edges@ == edges_upto(polygons@, p as int),
        decreases polygons.len() - p,
    {
        let vertices: &Vec<u32> = &polygons[p];
        let ghost before = edges@;
        let mut i: usize = 0;
        while i < vertices.len()
            invariant
                i <= vertices.len(),
                edges@ == before + polygon_edges(vertices@).take(i as int),
            decreases vertices.len() - i,
        {
            let following: usize = if i + 1 == vertices.len() {
                0
            } else {
                i + 1
            };
            assert(following == (i + 1) % (vertices.len() as int)) by {
                if i + 1 < vertices.len() {
                    vstd::arithmetic::div_mod::lemma_small_mod((i + 1) as nat, vertices.len() as nat);
                } else {
                    vstd::arithmetic::div_mod::lemma_mod_self_0(vertices.len() as int);
                }
            }
            edges.push((vertices[i], vertices[following]));
            assert(edges@ =~= before + polygon_edges(vertices@).take(i + 1));
            i += 1;
        }
        assert(polygon_edges(vertices@).take(i as int) =~= polygon_edges(vertices@));
        p += 1;
    }
    let kept: Vec<Edge> = unique_edges(edges);
    let mut indices: Vec<u32> = Vec::new();
    let mut k: usize = 0;
    while k < kept.len()
        invariant
            k <= kept.len(),
            indices.len() == 2 * k,
            forall|j: int| 0 <= j < 2 * k ==> indices[j] == line_list(kept@)[j],
        decreases kept.len() - k,
    {
        indices.push(kept[k].0);
        indices.push(kept[k].1);
        k += 1;
    }
    assert(indices@ =~= line_list(kept@));
    indices
}

} // verus!
