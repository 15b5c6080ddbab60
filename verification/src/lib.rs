//! A unified, cross-repository view of version-control state for a root
//! repository and its nested sub-repositories: merged commit history,
//! aggregated status with drift detection, and recursive file listings.

pub mod filter;
pub mod forest;
pub mod format;
pub mod history;
pub mod ls_files;
pub mod model;
pub mod pathspec;
pub mod status_agg;
pub mod walker;

pub use filter::DiffFilter;
