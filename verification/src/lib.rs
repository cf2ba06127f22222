//! Navigation and task execution for autonomous worker units.
//!
//! The crate holds the rules by which units pick interaction slots, follow
//! planned routes, avoid each other on final approach, cycle through the
//! stages of resource collection and are spawned in batches. Every length is
//! a whole number of millimetres and every scene object is known by a stable
//! integer identifier, so each rule is a function of plain values. Rendering,
//! physics queries and the triangulated mesh itself live with the caller, who
//! hands their answers in.
//!
//! - [`geometry`]: positions, exact squared distances, the nearest of a list.
//! - [`navmesh`]: what the walkable mesh is built from, and its wireframe.
//! - [`locator`] and [`occupancy`]: the slots of a container and who stands
//!   on them.
//! - [`path`] and [`motion`]: the path of a unit, one tick of its movement,
//!   and the laws of the walk.
//! - [`avoidance`]: collision avoidance on final approach.
//! - [`task`] and [`cycle`]: the cycle of resource collection, tick by
//!   tick, and the law that it closes in bounded time.
//! - [`spawner`]: spawning units in batches.
//! - [`click`], [`game`], [`handheld`], [`resource_collection`]: orders of
//!   the player, rules of play, the tool of a unit and what is collected.

pub mod avoidance;
pub mod click;
pub mod cycle;
pub mod game;
pub mod geometry;
pub mod handheld;
pub mod locator;
pub mod motion;
pub mod navmesh;
pub mod occupancy;
pub mod path;
pub mod resource_collection;
pub mod spawner;
pub mod task;
