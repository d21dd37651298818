//! The errors that talking to the panel can end in.

use vstd::prelude::*;

verus! {

/// What went wrong while talking to the display, one variant for each
/// failure that a display bus or controller can report.
#[derive(Clone, Copy, Debug, PartialEq, Eq, Structural)]
pub enum DisplayError {
    /// The data format is not valid for the bus.
    InvalidFormatError,
    /// Writing to the bus failed.
    BusWriteError,
    /// Setting the data/command line failed.
    DCError,
    /// Setting the chip select line failed.
    CSError,
    /// The data format is not implemented by the bus.
    DataFormatNotImplemented,
    /// Resetting the panel failed, or it did not become idle in time.
    RSError,
    /// A position lies outside the display.
    OutOfBoundsError,
}

} // verus!
