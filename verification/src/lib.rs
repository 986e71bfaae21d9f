pub mod arena;
pub mod laws;
pub mod notify;
pub mod taskset;

pub use arena::Arena;
pub use notify::WakeHandle;
pub use taskset::{OpPoll, Operation, PollOutcome, TaskSet, FAIRNESS_BOUND};
