//! Rules that filter or mask log lines before they are buffered.

use vstd::prelude::*;

verus! {

/// What a rule does with a log line that its pattern matches.
#[derive(Clone, Copy, Debug, PartialEq, Eq, Structural)]
pub enum Kind {
    ExcludeAtMatch,
    IncludeAtMatch,
    MaskSequences,
}

/// One rule: its kind, its name, the pattern, and what replaces a match
/// where the rule masks.
#[derive(Clone, Debug, PartialEq)]
pub struct ProcessingRule {
    pub kind: Kind,
    pub name: String,
    pub pattern: String,
    pub replace_placeholder: Option<String>,
}

} // verus!
