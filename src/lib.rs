//! Conventional-commit changelog generation: commit parsing, section
//! classification, aggregation, rendering and release-number bumping.

mod text;
mod order;
pub mod error;
pub mod sections;
pub mod commit;
pub mod version;
pub mod clog;
pub mod aggregate;
pub mod writer;

pub use error::ClogError;
pub use sections::{Section, SectionMap};
pub use commit::{parse_raw_commit, parse_log, parse_subject_line, Commit};
pub use version::{bump_version, apply_bump, render_version, Bump, SemVer};
pub use clog::{grep_pattern, CliArgs, Clog, FileConfig, LinkStyle};
pub use aggregate::{aggregate, group_section, ComponentGroup, SectionGroup};
pub use writer::{commit_link_text, issue_link_text, render, write_header, write_section};
