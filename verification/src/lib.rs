//! Pitch-sequence alignment with move/swap extensions.
//!
//! The crate computes a minimum-cost edit script between two integer pitch
//! sequences over a bounded-window edit-distance recurrence that also charges
//! reduced costs for local reorderings (moves and swaps), and reconstructs the
//! script with a deterministic backtrack.  Every step is specified against a
//! mathematical model of the cost grid and of the backtrack policy, and the
//! executable code is proved to produce exactly the modelled output.

pub mod alignment;
pub mod cost_grid;
pub mod costs;
pub mod laws;
pub mod script;
pub mod sections;
