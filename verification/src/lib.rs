//! An interpreter for hardware programs made of components, cells, groups and
//! control, together with what it guarantees.
//!
//! A program is a [`context::Context`]. [`environment::Environment`] lays it
//! out, and [`environment::simulator::Simulator`] runs it.

pub mod behaviour;
pub mod clock;
pub mod context;
pub mod control;
pub mod environment;
pub mod evaluation;
pub mod fabric;
pub mod graph;
pub mod guards;
pub mod index;
pub mod indexed_map;
pub mod json;
pub mod layout;
pub mod placement;
pub mod ports;
pub mod primitive;
pub mod progress;
pub mod rational;
pub mod serialization;
pub mod text;
pub mod validate;
pub mod validity;
pub mod values;
