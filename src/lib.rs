//! Simulated annealing over a caller-supplied search space.

pub mod anneal;
pub mod progress;
pub mod run;

pub use anneal::{accepts, Anneal};
pub use progress::Progress;
pub use run::{Move, Run};
