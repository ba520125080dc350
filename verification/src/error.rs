//! Errors that stop a resolution at once.

use vstd::prelude::*;

verus! {

/// What is wrong with a rule source.
#[derive(Clone, Copy, Debug, PartialEq, Eq, Structural)]
pub enum ParseErrorKind {
    /// The source does not follow the grammar of the rule language.
    Malformed,
    /// A call in a rule chain is none of `requires`, `optional`, `excludes`
    /// and `default`.
    UnknownCall,
    /// A directive has a key that the rule language does not know.
    UnknownDirective,
    /// A directive, or a `default` call, has a value of the wrong kind.
    InvalidValue,
    /// A group reference names a group that is not defined.
    UndefinedGroup,
    /// The source declares no context.
    NoContexts,
}

/// An error in a rule source, with the byte offset at which it was found.
#[derive(Clone, Copy, Debug, PartialEq, Eq, Structural)]
pub struct ParseError {
    pub kind: ParseErrorKind,
    pub position: usize,
}

} // verus!
