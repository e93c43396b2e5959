//! What can end a run before its report: a fault of the configuration, or a
//! command that cannot be started.

use vstd::prelude::*;

verus! {

/// The view of a fault of the configuration.
pub enum ConfigurationFault {
    DuplicateHook { name: Seq<char> },
    InvalidPattern { hook: Seq<char>, pattern: Seq<char> },
}

/// A fault of the configuration. It is found before any command runs and
/// ends the run.
#[derive(Clone, Debug, PartialEq, Eq)]
pub enum ConfigurationError {
    /// Two hooks of one bucket bear the same name.
    DuplicateHook { name: String },
    /// The regular expression by which a hook selects files is not one.
    InvalidPattern { hook: String, pattern: String },
}

impl View for ConfigurationError {
    type V = ConfigurationFault;

    open spec fn view(&self) -> ConfigurationFault {
        match self {
            ConfigurationError::DuplicateHook { name } => ConfigurationFault::DuplicateHook {
                name: name@,
            },
            ConfigurationError::InvalidPattern { hook, pattern } => {
                ConfigurationFault::InvalidPattern { hook: hook@, pattern: pattern@ }
            },
        }
    }
}

/// The view of the report of a command that could not be started.
pub struct EnvironmentFault {
    pub hook: Seq<char>,
    pub program: Seq<char>,
}

/// A command of a hook could not be started at all. This ends the run, and
/// is no failure of the hook: a hook fails when a command that ran reports
/// so.
#[derive(Clone, Debug, PartialEq, Eq)]
pub struct EnvironmentError {
    pub hook: String,
    pub program: String,
}

impl View for EnvironmentError {
    type V = EnvironmentFault;

    open spec fn view(&self) -> EnvironmentFault {
        EnvironmentFault { hook: self.hook@, program: self.program@ }
    }
}

} // verus!
