//! Combat resolution core for a top-down action game.
//!
//! Each simulation tick decides what weapons do, what they hit, how damage
//! and death propagate, and how transient timers (hit flash, melee swing,
//! enemy spawn cadence) are sequenced.  Rendering, asset loading, physics
//! integration and input polling are external collaborators: they feed the
//! step functions plain values (elapsed milliseconds, input edges, collision
//! pairs, ray-cast results) and carry out the movement the step functions
//! decide.
//!
//! Unit conventions, chosen so that every quantity is an integer:
//! - lengths and coordinates are in thousandths of a world unit;
//! - times are in milliseconds;
//! - hit points are in thousandths of a hit point.
//!
//! The canonical order of the step functions within one tick is the order in
//! which the systems of the game loop run: player movement and dash, arrow
//! update, weapon switch, shooting (gun / laser / melee), collision
//! resolution, enemy spawning, attraction, contact damage, hit flash,
//! swing animation, swing re-arm.

pub mod enemy;
pub mod geom;
pub mod player;
pub mod timer;
pub mod world;
