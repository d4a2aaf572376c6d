//! Layered `.env` configuration: dimension-aware file resolution, merging with
//! deterministic precedence, and values kept encrypted at rest.
//!
//! Every operation works on explicit values: a configuration view (the
//! variables that dimensions are resolved against) and a snapshot of the
//! directory that files are loaded from. Nothing here reads the process
//! environment or the file system.

pub mod candidates;
pub mod commands;
pub mod dimension;
pub mod error;
pub mod format;
pub mod keys;
pub mod loader;
pub mod manager;
pub mod order;
pub mod parser;
pub mod patterns;
pub mod text;
pub mod varmap;

pub use crate::candidates::{Dimensions, FileEntry, FileRead};
pub use crate::commands::CommandError;
pub use crate::dimension::{Arch, Os};
pub use crate::error::{SecretsError, SecretsResult};
pub use crate::format::DumpOptions;
pub use crate::loader::{EnvLoader, Found, LoadProgress};
pub use crate::manager::{SecretManager, ValueKind};
pub use crate::parser::EnvLine;
pub use crate::patterns::AutoDetectPatterns;
pub use crate::varmap::VarMap;
