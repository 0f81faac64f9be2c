use vstd::prelude::*;

verus! {

/// Why a level could not be loaded.
#[derive(Clone, Copy, Debug, PartialEq, Eq, Structural)]
pub enum LoadLevelError {
    /// The level file could not be read.
    ReadError,
    /// The level file is not a valid level description.
    SerdeError,
}

} // verus!
