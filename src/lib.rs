//! Provisioning of project directories: the paths that a tracking database
//! expects under a root directory are compared with the directories that are
//! there, and each missing one is seeded from a template tree.
//!
//! The library holds the decisions; reading the database, listing and
//! copying directories are done by the program around it, which hands the
//! results in as plain values.

pub mod config;
pub mod path;
pub mod resolve;
pub mod seeding;
pub mod sets;

pub use config::{ConfigError, ConfigKey, DbConfig};
pub use path::ProjectPath;
pub use resolve::{resolve_checked, Cli, PathError};
pub use seeding::SeedRun;
pub use sets::{actual_set, expected_set, reconcile, ListedEntry};
