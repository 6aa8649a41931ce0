pub mod capture;
pub mod outcome;
pub mod process_laws;
pub mod resolver;

pub use capture::{PipeCapture, ProcessProgress};
pub use outcome::{ProcessExecutionFacts, ProcessOutputBudget, ProcessRunOutput};
pub use resolver::ExecutableResolver;
