//! Builds every direct dependency of a package on its own, pinned to the
//! version its lockfile records: the resolution of dependency names to
//! versions, and the decisions of the build loop, are verified here.

pub mod document;
pub mod packages;
pub mod resolve;
pub mod orchestrate;

pub use document::Document;
pub use packages::{DependencySet, Packages};
pub use resolve::{get_dependencies, get_lock_dependencies, get_packages, get_toml_dependencies, version_no_later};
pub use orchestrate::{apply_exclusions, build_args, effective_profile, BuildRun, Outcome, RunConfig, RunError, Step, Verdict};
