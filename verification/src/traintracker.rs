//! Progress and metrics reporting for one training session, with its
//! cooperative cancellation signal.
//!
//! The tracker builds the training-progress and training-metrics events for
//! its session; the surrounding process sends them and awaits the session's
//! cancel waiter. Cancellation is advisory: resolving the waiter unblocks
//! whoever polls it, and nothing else.

use vstd::prelude::*;

use crate::async_waiter::{AsyncWaiter, AsyncWaiterProvider};
use crate::messages::EventMessage;

verus! {

/// The reporter for one training session.
pub struct TrainTrackerImpl {
    pub training_session_id: String,
}

impl TrainTrackerImpl {
    /// The training-progress event for this session, with the progress
    /// number already rendered in decimal.
    pub fn progress_event(&self, progress_repr: Vec<u8>) -> (e: EventMessage)
        ensures
            e matches EventMessage::TrainingProgress { training_session_id, progress_repr: r }
                && training_session_id@ == self.training_session_id@ && r == progress_repr,
    {
        EventMessage::TrainingProgress {
            training_session_id: self.training_session_id.clone(),
            progress_repr,
        }
    }

    /// The training-metrics event for this session: the metric names in
    /// order; the metric payloads ride along as extra segments in the same
    /// order.
    pub fn metrics_event(&self, names: Vec<String>) -> (e: EventMessage)
        ensures
            e matches EventMessage::TrainingMetrics { training_session_id, names: n }
                && training_session_id@ == self.training_session_id@ && n == names,
    {
        EventMessage::TrainingMetrics {
            training_session_id: self.training_session_id.clone(),
            names,
        }
    }
}

/// A fresh tracker for the session, with the waiter that carries its cancel
/// signal and the capability that `cancel-train` fires.
pub fn create_train_tracker(training_session_id: String) -> (r: (
    TrainTrackerImpl,
    AsyncWaiter<()>,
    AsyncWaiterProvider<()>,
))
    ensures
        r.0.training_session_id == training_session_id,
        r.1.wf(),
        r.1.is_queued(),
        r.1.queue() == Seq::<u64>::empty(),
        r.1.provider_is_alive(),
{
    let (waiter, provider) = AsyncWaiter::new();
    (TrainTrackerImpl { training_session_id }, waiter, provider)
}

} // verus!
