//! Incremental-build decision engine for a document-compilation pipeline.
//!
//! The library decides whether a rebuild of a typeset document is necessary
//! and when a multi-pass compilation has converged.  It works on a plain-value
//! snapshot of the relevant part of the filesystem, so every decision is a
//! pure, verified function of that snapshot; the surrounding process (reading
//! directories, invoking the compiler, parsing the configuration file) hands
//! values in and carries actions out.

pub mod build_check;
pub mod error;
pub mod generate;
pub mod includes;
pub mod log;
pub mod paths;
pub mod project;
pub mod rebuild;
pub mod resolve;
pub mod snapshot;

pub use build_check::can_build;
pub use build_check::NeedsBuildChecker;
pub use build_check::Phase;
pub use error::Error;
pub use generate::MakeDependency;
pub use generate::MakeTarget;
pub use generate::Makefile;
pub use includes::Includes;
pub use log::StdErrLogger;
pub use project::Project;
pub use project::ProjectConfig;
pub use project::ConfigField;
pub use project::ConfigIncludes;
pub use rebuild::is_stale;
pub use rebuild::needs_rebuild;
pub use resolve::resolve_includes;
pub use snapshot::Node;
pub use snapshot::Snapshot;
