//! Interface state that is not drawing.
use vstd::prelude::*;

verus! {

/// The two pages of the main window.
#[derive(Debug, Clone, Copy, PartialEq, Eq, Structural)]
pub enum MainTab {
    /// Automatic fishing.
    Fishing,
    /// The acoustic studio.
    Studio,
}

} // verus!
