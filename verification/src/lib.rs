//! Planning for autotools-style native builds.
//!
//! The crate decides *what* has to happen to build a vendored native source
//! tree: which directories to create, which files to copy, which command
//! lines to run and how a finished process is judged. Performing those
//! actions (touching the file system, spawning processes, printing) is left
//! to the caller, who feeds the observations back in.

pub mod artifacts;
pub mod command;
pub mod configure;
pub mod copy;
pub mod effect;
pub mod faithful;
pub mod project;
pub mod remains;
pub mod text;
pub mod walk;

pub use crate::artifacts::Artifacts;
pub use crate::command::run_command;
pub use crate::configure::Configure;
pub use crate::project::Project;
