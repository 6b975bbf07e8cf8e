//! Axis-aligned collision detection and resolution for small 2D worlds.
//!
//! The crate finds the contacts between moving bodies and static walls,
//! pushes touching pairs apart, and drives a world of levels through fixed
//! simulation steps. Everything here is pure computation on plain values:
//! keys arrive as an [`world::Input`], time as a count of nanoseconds, and
//! what there is to draw is read back through the getters of
//! [`world::World`].
//!
//! - [`geometry`]: rectangles, touching and overlap.
//! - [`collider`]: walls, bodies, collider identifiers and contacts.
//! - [`contacts`]: finding the contacts of a scene.
//! - [`priority`]: the order in which contacts are resolved.
//! - [`restitution`]: resolving a batch of contacts.
//! - [`separation`]: what restitution guarantees.
//! - [`tiles`]: scenery given as a grid of tiles.
//! - [`level`]: levels with walls, an exit and an entry point.
//! - [`world`]: the world and its step.
//! - [`timestep`]: the fixed-timestep driver.

pub mod collider;
pub mod contacts;
pub mod geometry;
pub mod level;
pub mod priority;
pub mod restitution;
pub mod separation;
pub mod tiles;
pub mod timestep;
pub mod world;
