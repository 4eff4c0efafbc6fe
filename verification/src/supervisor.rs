//! The health states the training supervisor reports.
use vstd::prelude::*;

verus! {

/// The state of a training run as the supervisor judges it.
#[derive(Debug, Clone, Copy, PartialEq, Eq, Structural)]
pub enum TrainingHealthStatus {
    Optimal,
    PlateauAdjusting,
    RollbackTriggered,
    EarlyStopped,
    Diverged,
}

} // verus!
