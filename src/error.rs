use vstd::prelude::*;

verus! {

/// Why a configuration or a version computation was rejected.
#[derive(Debug, Clone, PartialEq, Eq)]
pub enum ClogError {
    /// An alias was claimed by a second section; holds the alias.
    DuplicateAlias(String),
    /// A link style name that is not one of the known styles; holds the name.
    UnknownLinkStyle(String),
    /// The prior tag is not a semantic version; holds the parser's message.
    InvalidVersion(String),
}

} // verus!
