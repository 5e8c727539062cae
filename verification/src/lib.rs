//! Audits a Cargo workspace for workspace-level dependency declarations that
//! no member package references, and removes them from the workspace manifest
//! while preserving the manifest's formatting.

pub mod model;
pub mod reader;
pub mod collector;
pub mod order;
pub mod calculator;
pub mod editor;
pub mod audit;

pub use audit::audit_workspace;
pub use audit::AuditOutcome;
pub use calculator::compute_unused;
pub use collector::list_package_workspace_deps;
pub use editor::remove_deps_from_workspace;
pub use model::AuditError;
pub use model::TomlNode;
pub use reader::read_workspace_deps;
