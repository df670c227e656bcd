//! A verified project-structure generator: it renders a declarative module
//! tree into a modelled directory and file layout under a three-tier
//! protection policy, splices per-directory aggregator files between marker
//! lines, and assembles per-project and workspace manifests.  Generation is
//! proved idempotent, protected files are proved untouched, and every
//! aggregator is proved to converge to exactly its declared exports.

pub mod errors;
pub mod fs;
pub mod generate;
pub mod init;
pub mod lang;
pub mod models;
pub mod parser;
pub mod plan;
pub mod splice;
pub mod text;
pub mod walker;
