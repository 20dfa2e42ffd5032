//! A verification-gated, transactional editor for frontend code.
//!
//! Two engines: batches of whole-file edits and creations, validated,
//! applied together and kept or rolled back as one (`batch`, `transaction`,
//! `plan`, `verification`); and syntax-directed edits compiled from a parse
//! into byte-range replacements (`edit`, `operations`, `surgeon` and the
//! operation modules), accepted only when the result parses clean.

pub mod batch;
pub mod edit;
pub mod extract;
pub mod format;
pub mod functions;
pub mod import_paths;
pub mod imports;
pub mod lang;
pub mod lint_reports;
pub mod mcp;
pub mod operations;
pub mod paths;
pub mod plan;
pub mod protocol;
pub mod rename;
pub mod style;
pub mod surgeon;
pub mod syntax;
pub mod test_reports;
pub mod text;
pub mod transaction;
pub mod tsc;
pub mod verification;
pub mod wrap;
