//! A Recursive Language Model engine: rather than sending a whole context
//! to a model, it asks the model for one script at a time, runs the script
//! against the context, keeps the output in a notebook, and stops when the
//! script calls `done(answer)` or a limit is reached.

pub mod env;
pub mod error;
pub mod protocol;
pub mod providers;
pub mod repl;
pub mod rlm;
pub mod run;
pub mod text;

pub use error::RlmError;
pub use protocol::{
    approx_token_count, truncate_output, Cell, Notebook, StepResult, TruncationPolicy,
    TruncationStrategy,
};
pub use rlm::{Message, Rlm, Role, DEFAULT_COMPACTION_THRESHOLD};
