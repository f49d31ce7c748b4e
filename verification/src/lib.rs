//! A justified image-grid layout engine: given an ordered sequence of
//! aspect ratios and a set of layout parameters, it deterministically packs
//! the items into rows that approximate a target row height while exactly
//! filling a fixed container width, and returns the bounding box of every
//! item.
//!
//! All geometry is fixed-point: an `i128` counts millionths of a display
//! unit (see `fixed::SCALE`), so every computation is exact, and `compute`
//! carries a contract that pins its result down to the mathematical model
//! of the packing state machine.  The engine-wide guarantees (width
//! conservation, height clamping, order preservation, widow suppression,
//! breakout isolation) are stated and proved in `laws`.

pub mod fixed;
pub mod laws;
pub mod layout;
pub mod models;
pub mod row;
pub mod utils;
