//! The logic of a set of tools that release versioned documentation: they
//! tag the sources, deploy every tagged version to a publish branch, and
//! keep an alias pointing to the latest release.
//!
//! The centre is the deployment run in `deploy`: it reads the release tags
//! of the canonical branch (`tags`), finds out which of them the publish
//! branch already holds (`probe`), decides what to deploy (`plan`), deploys
//! one tag after the other whether or not the one before succeeded, and moves
//! the alias. Around it stand the command line (`cli`), the tagging of a new
//! version (`version`, `bump`) and the start of the development environment
//! (`startup`). `text` holds the handling of characters that all of them
//! share.
//!
//! Nothing here runs a command or reads a file. Whatever has to happen
//! outside is asked of the caller as a value, and its outcome comes back as
//! a value.

pub mod bump;
pub mod cli;
pub mod deploy;
pub mod plan;
pub mod probe;
pub mod startup;
pub mod tags;
pub mod text;
pub mod version;
