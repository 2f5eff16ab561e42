//! Run a command so that it shows no window and cannot touch the caller's
//! interactive session, while its stdio bytes, exit status, environment and
//! working directory stay observably identical to a direct execution.
//!
//! This crate holds the verified core: the command model, the quoting grammar
//! used to rebuild a single command-line string, the environment-override
//! semantics, the helper process protocol's decision logic, and the runner's
//! launch planning. The thin layer that actually creates OS processes lives
//! outside the verified library and only performs the actions decided here.

pub mod command;
pub mod env;
pub mod helper;
pub mod machine;
pub mod quote;
pub mod runner;

pub use command::CommandSpec;
pub use runner::TransparentRunner;
