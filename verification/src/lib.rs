//! Resolution of per-context field rules.
//!
//! An entity has a fixed list of named fields. A rule source names contexts
//! (use cases such as `Create` or `Update`) and says, for each, which fields
//! are required, optional or excluded. This crate parses the rule source,
//! expands field groups, checks the rules for conflicts and gaps, and computes
//! for each context the table of fields with their types and overlays.

use vstd::prelude::*;
use crate::error::ParseError;
use crate::model::{FieldDescriptor, FieldModel, RuleSet, RuleSetModel};
use crate::parser::{parse_mixed_args, rule_source};
use crate::session::{
    outcome_view, resolution, resolve, FailureModel, ResolveError, ResolvedTable, TableModel,
};
use crate::text::views;

pub mod attrs;
pub mod classify;
pub mod error;
pub mod groups;
pub mod laws;
pub mod lexer;
pub mod model;
pub mod parser;
pub mod progress;
pub mod rust_syntax;
pub mod session;
pub mod text;
pub mod validate;

verus! {

/// What a session makes of the outcome of parsing: the parse error, or the
/// resolution of the parsed rules.
pub open spec fn session_outcome(fields: Seq<FieldModel>, parsed: Result<RuleSetModel, ParseError>)
    -> Result<TableModel, FailureModel> {
    match parsed {
        Err(e) => Err(FailureModel::Parse(e)),
        Ok(rules) => resolution(fields, rules),
    }
}

/// Resolves a rule source against the declared fields of an entity.
///
/// The source is parsed, its groups are expanded, every context is checked
/// for conflicts and gaps, and the table of every context is computed. The
/// result is the complete table, or the parse error that stopped the
/// session, or the complete list of findings.
pub fn variants(args: &[u8], fields: &Vec<FieldDescriptor>) -> (r: Result<
    ResolvedTable,
    ResolveError,
>)
    ensures
        outcome_view(r) == session_outcome(views(fields@), rule_source(args@, false)),
{
    match parse_mixed_args(args) {
        Err(e) => Err(ResolveError::Parse(e)),
        Ok(rules) => resolve(rules, fields),
    }
}

/// Resolves a rule source of the older surface against the declared fields
/// of an entity: contexts by their bare names or with a chain after an
/// equals sign, and the directives `prefix` and `suffix`.
pub fn context_variants(args: &[u8], fields: &Vec<FieldDescriptor>) -> (r: Result<
    ResolvedTable,
    ResolveError,
>)
    ensures
        outcome_view(r) == session_outcome(views(fields@), rule_source(args@, true)),
{
    match RuleSet::from_args(args) {
        Err(e) => Err(ResolveError::Parse(e)),
        Ok(rules) => resolve(rules, fields),
    }
}

} // verus!
