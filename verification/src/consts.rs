//! Named constants shared by the grid model and the synthesizer.
use vstd::prelude::*;

verus! {

/// Whole weeks in the grid beyond the first one.
pub const WEEKS: usize = 52;

/// Days in a week; also the number of cells per grid row.
pub const DAYS: usize = 7;

/// Total number of cells: one year of weekly columns.
pub const GRID_SIZE: usize = (WEEKS + 1) * DAYS;

/// Largest intensity a cell can carry.
pub const MAX_INTENSITY: u8 = 10;

/// Commit message used when none is configured.
pub const DEFAULT_MESSAGE: &'static str = "I am a work of art";

/// Author name used when none is configured.
pub const DEFAULT_AUTHOR: &'static str = "Anonymous";

/// Author email used when none is configured.
pub const DEFAULT_EMAIL: &'static str = "wearelegion@example.org";

/// Path of the marker file rewritten before every synthesized commit, so
/// that consecutive commits never share a tree.
pub const MARKER_FILE: &'static str = "marker";

} // verus!
