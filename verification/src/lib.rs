//! A runner of pre-commit hooks. Given the files that a commit changes and a
//! catalog of hooks, each a way to select files and the commands to run on
//! them, it decides which commands to run on which files, folds their results
//! into an outcome for each hook, and reports whether the run failed.
//!
//! The library decides; it starts no command and reads no repository. The
//! one who holds a `RunController` starts each command that it hands out and
//! tells it how the command ended.

pub mod catalog;
pub mod change;
pub mod command;
pub mod controller;
pub mod error;
pub mod install;
pub mod laws;
pub mod matcher;
pub mod plan;
pub mod report;
mod seqs;
pub mod text;
pub mod work;

pub use catalog::{is_known_hook_type, Catalog, Hook, HookCommand, Hooks, Selection};
pub use change::{ChangeKind, ChangedFile};
pub use command::{build, Invocation};
pub use controller::{Action, Event, RunController};
pub use error::{ConfigurationError, EnvironmentError};
pub use install::{launcher, script_gen, script_path, skip_argument, Launcher};
pub use matcher::Matcher;
pub use plan::{is_skipped, plan_hooks, HookPlan};
pub use report::{HookOutcome, RunReport};
pub use text::join;
