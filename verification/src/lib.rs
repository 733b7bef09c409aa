//! A library for turning 2D vector outlines into laser-cutter motion programs.
//!
//! Coordinates are carried as fixed-point integers with six decimal places
//! (one unit is a millionth of a millimetre), which matches the six-decimal
//! coordinate format of the generated instruction text exactly.

pub mod builder;
pub mod decimal;
pub mod gcode;
pub mod geom;
pub mod laser;
pub mod model;
pub mod shape;
pub mod sheet;
pub mod stitch;
pub mod store;
pub mod transform;
pub mod ui;

pub use geom::Point;
pub use geom::Segment;
