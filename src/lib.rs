//! Ingest pipeline for release artifacts of a package index: the decisions
//! that turn archives into content-addressed trees, commits and a merged
//! fast-import history.

pub mod artifact;
pub mod filter;
pub mod index;
pub mod members;
pub mod merge;
pub mod naming;
pub mod order;
pub mod partition;
pub mod paths;
pub mod publish;
pub mod release;
pub mod runner;
pub mod store;
pub mod text;

pub use filter::{is_excluded_package, skip_archive_entry};
pub use naming::package_name_to_path;
pub use publish::{APIError, CreatedRepo, NewRepo, RepoStatistics};
pub use runner::PackageResult;
