pub mod child_session;
pub mod scheduler;
pub mod scheduler_laws;

pub use child_session::{Activity, ChildResult, ChildStatus, SpawnRequest, SpawnResult};
pub use scheduler::{MutationLease, Scheduler};
