//! The integer core of a steering simulation and of the ship-layout grid
//! that goes with it.
//!
//! * `offset`: moving an unsigned coordinate by a signed amount.
//! * `grid`: a rectangular grid of optional cells, with neighbours and
//!   rays.
//! * `repository`: the catalogue of component kinds.
//! * `design`: a ship layout and the placement rules it is held to.
//! * `cycle`: a cursor that wraps round a fixed number of positions.
//! * `formation`: which slot beside the leader each member of a formation
//!   takes.
//! * `separation`: which pairs of vehicles separation looks at.
//! * `schedule`: the order of the stages of a tick.
//!
//! The simulation itself computes in floating point and lives outside this
//! crate; what it decides on integers is decided here.

pub mod offset;
pub mod grid;
pub mod repository;
pub mod design;
pub mod cycle;
pub mod formation;
pub mod schedule;
pub mod separation;

pub use offset::add_u32;
pub use grid::{Grid, GridCoord};
pub use repository::{ComponentDef, ComponentId, ComponentProperties, ShipDesignRepository};
pub use design::{ComponentAt, ComponentError, ComponentErrorKind, ShipDesign, Size, P2};
pub use cycle::CycleIndex;
pub use formation::{FormationType, SteeringFormationLeader, SteeringFormationMember};
pub use schedule::Phase;
pub use separation::separation_pairs;
