//! The resolution session: from the declared fields and the rules to the
//! table of every context, or to the reasons why there is none.

use vstd::prelude::*;
use crate::classify::{resolve_field, resolved_field, ResolvedField, ResolvedFieldModel};
use crate::error::ParseError;
use crate::groups::{expand_field_groups, expanded_rules};
use crate::model::{
    names_of, Context, ContextModel, FieldDescriptor, FieldModel, RuleSet, RuleSetModel,
};
use crate::text::{append_text, copy_text, views};
use crate::validate::{diagnostics, validate_fluent_contexts, Diagnostic, DiagnosticModel};

verus! {

/// The table of one context: its fields in declaration order, the excluded
/// ones left out.
#[derive(Clone, Debug, PartialEq, Eq)]
pub struct ResolvedContext {
    pub name: Vec<u8>,
    /// The name of the record to emit: prefix, context name, suffix.
    pub output_name: Vec<u8>,
    pub fields: Vec<ResolvedField>,
}

/// Model of a [`ResolvedContext`].
pub struct ResolvedContextModel {
    pub name: Seq<u8>,
    pub output_name: Seq<u8>,
    pub fields: Seq<ResolvedFieldModel>,
}

impl View for ResolvedContext {
    type V = ResolvedContextModel;

    open spec fn view(&self) -> ResolvedContextModel {
        ResolvedContextModel {
            name: self.name@,
            output_name: self.output_name@,
            fields: views(self.fields@),
        }
    }
}

/// The result of a resolution: the table of every context, in declaration
/// order, and what the rules say of the unmodified entity record.
#[derive(Clone, Debug, PartialEq, Eq)]
pub struct ResolvedTable {
    pub contexts: Vec<ResolvedContext>,
    /// Whether the entity record is emitted too.
    pub build_base: bool,
    /// Whether the fields of the entity record are each made optional.
    pub optional_base: bool,
}

/// Model of a [`ResolvedTable`].
pub struct TableModel {
    pub contexts: Seq<ResolvedContextModel>,
    pub build_base: bool,
    pub optional_base: bool,
}

impl View for ResolvedTable {
    type V = TableModel;

    open spec fn view(&self) -> TableModel {
        TableModel {
            contexts: views(self.contexts@),
            build_base: self.build_base,
            optional_base: self.optional_base,
        }
    }
}

/// Why a resolution gave no table.
#[derive(Clone, Debug, PartialEq, Eq)]
pub enum ResolveError {
    /// The rule source is wrong in its form; resolution stopped there.
    Parse(ParseError),
    /// The rules are wrong in what they say; every finding is listed.
    Invalid(Vec<Diagnostic>),
}

/// Model of a [`ResolveError`].
pub enum FailureModel {
    Parse(ParseError),
    Invalid(Seq<DiagnosticModel>),
}

impl View for ResolveError {
    type V = FailureModel;

    open spec fn view(&self) -> FailureModel {
        match self {
            ResolveError::Parse(e) => FailureModel::Parse(*e),
            ResolveError::Invalid(findings) => FailureModel::Invalid(views(findings@)),
        }
    }
}

/// The entries of the first `n` declared fields in the table of a context.
pub open spec fn resolved_fields_upto(
    fields: Seq<FieldModel>,
    ctx: ContextModel,
    rules: RuleSetModel,
    n: int,
) -> Seq<ResolvedFieldModel>
    decreases n,
{
    if n <= 0 {
        Seq::empty()
    } else {
        let before = resolved_fields_upto(fields, ctx, rules, n - 1);
        match resolved_field(fields[n - 1], ctx, rules, names_of(fields)) {
            Some(entry) => before.push(entry),
            None => before,
        }
    }
}

/// The bytes of a prefix or suffix; none where the rules set none.
pub open spec fn affix(part: Option<Seq<u8>>) -> Seq<u8> {
    match part {
        Some(bytes) => bytes,
        None => Seq::empty(),
    }
}

/// The table of a context.
pub open spec fn resolved_context(fields: Seq<FieldModel>, ctx: ContextModel, rules: RuleSetModel)
    -> ResolvedContextModel {
    ResolvedContextModel {
        name: ctx.name,
        output_name: affix(rules.prefix) + ctx.name + affix(rules.suffix),
        fields: resolved_fields_upto(fields, ctx, rules, fields.len() as int),
    }
}

/// The table of every context of the rules, in declaration order.
pub open spec fn resolved_table(fields: Seq<FieldModel>, rules: RuleSetModel) -> TableModel {
    TableModel {
        contexts: Seq::new(
            rules.contexts.len(),
            |c: int| resolved_context(fields, rules.contexts[c], rules),
        ),
        build_base: rules.build_base,
        optional_base: rules.optional_base,
    }
}

/// What validation and classification make of expanded rules: the findings
/// where there is any, else the table.
pub open spec fn expansion(fields: Seq<FieldModel>, rules: RuleSetModel) -> Result<
    TableModel,
    FailureModel,
> {
    let findings = diagnostics(rules.contexts, rules.global_default, names_of(fields));
    if findings.len() > 0 {
        Err(FailureModel::Invalid(findings))
    } else {
        Ok(resolved_table(fields, rules))
    }
}

/// What a resolution makes of parsed rules: the error of the group
/// expansion where it fails, else what validation and classification make of
/// the expanded rules.
pub open spec fn resolution(fields: Seq<FieldModel>, rules: RuleSetModel) -> Result<
    TableModel,
    FailureModel,
> {
    match expanded_rules(rules, names_of(fields)) {
        Err(e) => Err(FailureModel::Parse(e)),
        Ok(expanded) => expansion(fields, expanded),
    }
}

/// The view of the outcome of a resolution.
pub open spec fn outcome_view(r: Result<ResolvedTable, ResolveError>) -> Result<
    TableModel,
    FailureModel,
> {
    match r {
        Ok(table) => Ok(table@),
        Err(e) => Err(e@),
    }
}

/// The names of the declared fields, in declaration order.
pub fn field_names(fields: &Vec<FieldDescriptor>) -> (r: Vec<Vec<u8>>)
    ensures
        views(r@) == names_of(views(fields@)),
{
    let mut names: Vec<Vec<u8>> = Vec::new();
    let mut i: usize = 0;
    while i < fields.len()
        invariant
            i <= fields.len(),
            names@.len() == i,
            forall|j: int| 0 <= j < i ==> names@[j]@ == fields@[j]@.name,
        decreases fields.len() - i,
    {
        names.push(copy_text(fields[i].name.as_slice()));
        i = i + 1;
    }
    assert(views(names@) =~= names_of(views(fields@)));
    names
}

/// Computes the table of one context; `all` holds the names of the fields.
fn resolve_context(
    ctx: &Context,
    rules: &RuleSet,
    fields: &Vec<FieldDescriptor>,
    all: &Vec<Vec<u8>>,
) -> (r: ResolvedContext)
    requires
        views(all@) == names_of(views(fields@)),
    ensures
        r@ == resolved_context(views(fields@), ctx@, rules@),
{
    let mut entries: Vec<ResolvedField> = Vec::new();
    let mut i: usize = 0;
    assert(views(entries@) =~= Seq::<ResolvedFieldModel>::empty());
    while i < fields.len()
        invariant
            i <= fields.len(),
            views(all@) == names_of(views(fields@)),
            views(entries@) == resolved_fields_upto(views(fields@), ctx@, rules@, i as int),
        decreases fields.len() - i,
    {
        match resolve_field(&fields[i], ctx, rules, all) {
            Some(entry) => {
                let ghost before = entries@;
                entries.push(entry);
                assert(views(entries@) =~= views(before).push(entries@.last()@));
            },
            None => {},
        }
        i = i + 1;
    }
    let mut output_name: Vec<u8> = Vec::new();
    match &rules.prefix {
        Some(prefix) => append_text(&mut output_name, prefix.as_slice()),
        None => {},
    }
    append_text(&mut output_name, ctx.name.as_slice());
    match &rules.suffix {
        Some(suffix) => append_text(&mut output_name, suffix.as_slice()),
        None => {},
    }
    assert(output_name@ =~= affix(rules@.prefix) + ctx@.name + affix(rules@.suffix));
    ResolvedContext { name: copy_text(ctx.name.as_slice()), output_name, fields: entries }
}

/// Validates expanded rules against the declared fields and, where nothing
/// is found wrong, computes the table of every context.
///
/// All findings are collected before the outcome is decided: the result is
/// the complete list of them, or the complete table.
pub fn expand_context_variants(rules: &RuleSet, fields: &Vec<FieldDescriptor>) -> (r: Result<
    ResolvedTable,
    ResolveError,
>)
    ensures
        outcome_view(r) == expansion(views(fields@), rules@),
{
    let all = field_names(fields);
    let findings = validate_fluent_contexts(rules, &all);
    if findings.len() > 0 {
        return Err(ResolveError::Invalid(findings));
    }
    let mut contexts: Vec<ResolvedContext> = Vec::new();
    let mut i: usize = 0;
    while i < rules.contexts.len()
        invariant
            i <= rules.contexts.len(),
            views(all@) == names_of(views(fields@)),
            contexts@.len() == i,
            forall|c: int|
                0 <= c < i ==> contexts@[c]@ == resolved_context(
                    views(fields@),
                    rules@.contexts[c],
                    rules@,
                ),
        decreases rules.contexts.len() - i,
    {
        contexts.push(resolve_context(&rules.contexts[i], rules, fields, &all));
        i = i + 1;
    }
    let table = ResolvedTable {
        contexts,
        build_base: rules.build_base,
        optional_base: rules.optional_base,
    };
    assert(table@.contexts =~= resolved_table(views(fields@), rules@).contexts);
    Ok(table)
}

/// Resolves parsed rules against the declared fields: expands the groups,
/// validates, and computes the table of every context.
pub fn resolve(rules: RuleSet, fields: &Vec<FieldDescriptor>) -> (r: Result<
    ResolvedTable,
    ResolveError,
>)
    ensures
        outcome_view(r) == resolution(views(fields@), rules@),
{
    let mut rules = rules;
    let all = field_names(fields);
    match expand_field_groups(&mut rules, &all) {
        Err(e) => Err(ResolveError::Parse(e)),
        Ok(()) => expand_context_variants(&rules, fields),
    }
}

} // verus!
