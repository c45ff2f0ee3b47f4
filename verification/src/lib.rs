//! A toss-and-land game in fixed-point arithmetic: a lever that pivots and
//! throws a projectile, the flight of the projectile past barriers, and the
//! phases of a round.
//!
//! All quantities are integers that count millionths: of a unit of length for
//! positions and extents, of a degree for angles, of a unit of time for time
//! steps, and accordingly for velocities, forces and masses. The module
//! `fixed` holds the arithmetic, `trig` the sine and the cosine, `vector`,
//! `line`, `polygon` and `rectangle` the geometry with its collision tests,
//! `aligned` what holds of rectangles without rotation, `klapi`, `arm` and
//! `barrier` the bodies of the game, and `game` the phases and the step from
//! one to the next.

pub mod fixed;
pub mod trig;
pub mod vector;
pub mod line;
pub mod polygon;
pub mod rectangle;
pub mod aligned;
pub mod game_object;
pub mod klapi;
pub mod arm;
pub mod barrier;
pub mod game;
