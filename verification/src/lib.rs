//! Drawing, rotation and command sequencing for the E0213A367 e-paper
//! display, with the frame buffer kept in a `fixedbitset::FixedBitSet`.
//!
//! The library decides what is sent to the panel; the bus, the pins and
//! the delays are driven by the caller, who hands back what happened.

pub mod geometry;
pub mod bitset;
pub mod error;
pub mod graphics;
pub mod transfer;
pub mod frame;
pub mod interface;
pub mod drivers;

pub use drivers::E0213A367;
pub use error::DisplayError;
pub use graphics::{DisplayRotation, EpdDisplay};
