//! Builds a customized, self-contained installer executable: it rewrites
//! selected resources of a template Windows binary (icon, string table
//! entries, one embedded data blob) and composes the heterogeneous
//! installation artifacts into one bundle that becomes that blob.
//!
//! The two verified subsystems are the resource patching engine (`pe`,
//! `restree`, `resource_patcher`) and the bundle composition model
//! (`bundle`, `artifacts_bundle`).

pub mod artifacts_bundle;
pub mod bundle;
pub mod bytes;
pub mod cse_options;
pub mod decimal;
pub mod download;
pub mod error;
pub mod icon;
pub mod laws;
pub mod patcher;
pub mod patchset;
pub mod pe;
pub mod resbuild;
pub mod resparse;
pub mod resource_patcher;
pub mod restree;
pub mod signing;
pub mod strres;
pub mod version;
