//! The validator: conflicts between the lists of a context, and fields that
//! a context leaves without a fate.

use vstd::prelude::*;
use vstd::string::StringSliceAdditionalSpecFns;
use crate::classify::{find_match, list_matches};
use crate::model::{Classification, Context, ContextModel, RuleSet};
use crate::text::{append_text, copy_text, join_texts, joined, option_view, views};

verus! {

/// A finding of the validator.
#[derive(Clone, Debug, PartialEq, Eq)]
pub enum Diagnostic {
    /// A field that more than one list of a context names.
    Conflict { context: Vec<u8>, field: Vec<u8>, lists: Vec<Classification>, position: usize },
    /// The fields that no list of a context names, where nothing gives the
    /// unmentioned a fate.
    Coverage { context: Vec<u8>, fields: Vec<Vec<u8>>, position: usize },
}

/// Model of a [`Diagnostic`].
pub enum DiagnosticModel {
    Conflict { context: Seq<u8>, field: Seq<u8>, lists: Seq<Classification>, position: usize },
    Coverage { context: Seq<u8>, fields: Seq<Seq<u8>>, position: usize },
}

impl View for Diagnostic {
    type V = DiagnosticModel;

    open spec fn view(&self) -> DiagnosticModel {
        match self {
            Diagnostic::Conflict { context, field, lists, position } => DiagnosticModel::Conflict {
                context: context@,
                field: field@,
                lists: lists@,
                position: *position,
            },
            Diagnostic::Coverage { context, fields, position } => DiagnosticModel::Coverage {
                context: context@,
                fields: views(fields@),
                position: *position,
            },
        }
    }
}

/// The lists of a context that name a field, in the order required,
/// optional, excluded.
pub open spec fn matching_lists(ctx: ContextModel, name: Seq<u8>, all: Seq<Seq<u8>>) -> Seq<
    Classification,
> {
    let required = if list_matches(ctx.required, name, all) {
        seq![Classification::Required]
    } else {
        Seq::empty()
    };
    let optional = if list_matches(ctx.optional, name, all) {
        seq![Classification::Optional]
    } else {
        Seq::empty()
    };
    let excluded = if list_matches(ctx.excluded, name, all) {
        seq![Classification::Excluded]
    } else {
        Seq::empty()
    };
    required + optional + excluded
}

/// The conflicts of a context among the first `n` declared fields, in
/// declaration order.
pub open spec fn conflicts_upto(ctx: ContextModel, all: Seq<Seq<u8>>, n: int) -> Seq<
    DiagnosticModel,
>
    decreases n,
{
    if n <= 0 {
        Seq::empty()
    } else {
        let before = conflicts_upto(ctx, all, n - 1);
        let lists = matching_lists(ctx, all[n - 1], all);
        if lists.len() >= 2 {
            before.push(
                DiagnosticModel::Conflict {
                    context: ctx.name,
                    field: all[n - 1],
                    lists,
                    position: ctx.end_position,
                },
            )
        } else {
            before
        }
    }
}

/// Those of the first `n` declared fields that no list of the context names,
/// in declaration order.
pub open spec fn unmentioned_upto(ctx: ContextModel, all: Seq<Seq<u8>>, n: int) -> Seq<Seq<u8>>
    decreases n,
{
    if n <= 0 {
        Seq::empty()
    } else {
        let before = unmentioned_upto(ctx, all, n - 1);
        if matching_lists(ctx, all[n - 1], all).len() == 0 {
            before.push(all[n - 1])
        } else {
            before
        }
    }
}

/// Whether the context owes every field an explicit fate: it has a rule
/// chain, and neither it nor the rule source sets a default.
pub open spec fn coverage_owed(ctx: ContextModel, global: Option<Classification>) -> bool {
    ctx.has_chain && ctx.default_behavior is None && global is None
}

/// The findings on one context: its conflicts in field order, then its
/// coverage gap if it has one.
pub open spec fn context_diagnostics(
    ctx: ContextModel,
    global: Option<Classification>,
    all: Seq<Seq<u8>>,
) -> Seq<DiagnosticModel> {
    let conflicts = conflicts_upto(ctx, all, all.len() as int);
    let missing = unmentioned_upto(ctx, all, all.len() as int);
    if coverage_owed(ctx, global) && missing.len() > 0 {
        conflicts.push(
            DiagnosticModel::Coverage {
                context: ctx.name,
                fields: missing,
                position: ctx.end_position,
            },
        )
    } else {
        conflicts
    }
}

/// The findings on the first `n` contexts, in declaration order.
pub open spec fn diagnostics_upto(
    contexts: Seq<ContextModel>,
    global: Option<Classification>,
    all: Seq<Seq<u8>>,
    n: int,
) -> Seq<DiagnosticModel>
    decreases n,
{
    if n <= 0 {
        Seq::empty()
    } else {
        diagnostics_upto(contexts, global, all, n - 1) + context_diagnostics(
            contexts[n - 1],
            global,
            all,
        )
    }
}

/// All findings on the contexts.
pub open spec fn diagnostics(
    contexts: Seq<ContextModel>,
    global: Option<Classification>,
    all: Seq<Seq<u8>>,
) -> Seq<DiagnosticModel> {
    diagnostics_upto(contexts, global, all, contexts.len() as int)
}

/// Finds the lists of a context that name a field.
pub fn find_matching_lists(ctx: &Context, name: &[u8], all: &Vec<Vec<u8>>) -> (r: Vec<
    Classification,
>)
    ensures
        r@ == matching_lists(ctx@, name@, views(all@)),
{
    let mut lists: Vec<Classification> = Vec::new();
    if find_match(&ctx.required, name, all).is_some() {
        lists.push(Classification::Required);
    }
    if find_match(&ctx.optional, name, all).is_some() {
        lists.push(Classification::Optional);
    }
    if find_match(&ctx.excluded, name, all).is_some() {
        lists.push(Classification::Excluded);
    }
    assert(lists@ =~= matching_lists(ctx@, name@, views(all@)));
    lists
}

/// Checks one context and appends its findings.
pub fn validate_context(
    ctx: &Context,
    global: Option<Classification>,
    all: &Vec<Vec<u8>>,
    findings: &mut Vec<Diagnostic>,
)
    ensures
        views(final(findings)@) == views(old(findings)@) + context_diagnostics(
            ctx@,
            global,
            views(all@),
        ),
{
    let mut missing: Vec<Vec<u8>> = Vec::new();
    let mut i: usize = 0;
    while i < all.len()
        invariant
            i <= all.len(),
            views(findings@) == views(old(findings)@) + conflicts_upto(
                ctx@,
                views(all@),
                i as int,
            ),
            views(missing@) == unmentioned_upto(ctx@, views(all@), i as int),
        decreases all.len() - i,
    {
        let lists = find_matching_lists(ctx, all[i].as_slice(), all);
        let ghost found = findings@;
        let ghost unnamed = missing@;
        if lists.len() >= 2 {
            findings.push(
                Diagnostic::Conflict {
                    context: copy_text(ctx.name.as_slice()),
                    field: copy_text(all[i].as_slice()),
                    lists,
                    position: ctx.end_position,
                },
            );
            assert(views(findings@) =~= views(found).push(findings@.last()@));
        } else if lists.len() == 0 {
            missing.push(copy_text(all[i].as_slice()));
            assert(views(missing@) =~= views(unnamed).push(all@[i as int]@));
        }
        assert(views(findings@) =~= views(old(findings)@) + conflicts_upto(
            ctx@,
            views(all@),
            i + 1,
        ));
        i = i + 1;
    }
    let owed = ctx.has_chain && ctx.default_behavior.is_none() && global.is_none();
    if owed && missing.len() > 0 {
        let ghost found = findings@;
        findings.push(
            Diagnostic::Coverage {
                context: copy_text(ctx.name.as_slice()),
                fields: missing,
                position: ctx.end_position,
            },
        );
        assert(views(findings@) =~= views(found).push(findings@.last()@));
    }
    assert(views(findings@) =~= views(old(findings)@) + context_diagnostics(
        ctx@,
        global,
        views(all@),
    ));
}

/// Checks every context of the rules against the declared fields and
/// collects all findings: for each context in declaration order its
/// conflicts in field order, then its coverage gap.
pub fn validate_fluent_contexts(rules: &RuleSet, all_field_names: &Vec<Vec<u8>>) -> (r: Vec<
    Diagnostic,
>)
    ensures
        views(r@) == diagnostics(rules@.contexts, rules@.global_default, views(all_field_names@)),
{
    let mut findings: Vec<Diagnostic> = Vec::new();
    let mut i: usize = 0;
    assert(views(findings@) =~= Seq::<DiagnosticModel>::empty());
    while i < rules.contexts.len()
        invariant
            i <= rules.contexts.len(),
            views(findings@) == diagnostics_upto(
                rules@.contexts,
                rules@.global_default,
                views(all_field_names@),
                i as int,
            ),
        decreases rules.contexts.len() - i,
    {
        validate_context(&rules.contexts[i], rules.global_default, all_field_names, &mut findings);
        i = i + 1;
    }
    findings
}

/// The word by which a finding names a list.
pub open spec fn list_word(c: Classification) -> Seq<u8> {
    match c {
        Classification::Required => "required".spec_bytes(),
        Classification::Optional => "optional".spec_bytes(),
        Classification::Excluded => "excluded".spec_bytes(),
    }
}

/// The words of the lists, in order.
pub open spec fn list_words(lists: Seq<Classification>) -> Seq<Seq<u8>> {
    Seq::new(lists.len(), |i: int| list_word(lists[i]))
}

/// What a finding says: the context, the field or fields, and what is wrong
/// with them.
pub open spec fn message_text(d: DiagnosticModel) -> Seq<u8> {
    match d {
        DiagnosticModel::Conflict { context, field, lists, .. } => "context '".spec_bytes()
            + context + "': field '".spec_bytes() + field
            + "' mentioned multiple times: ".spec_bytes() + joined(
            list_words(lists),
            ", ".spec_bytes(),
        ),
        DiagnosticModel::Coverage { context, fields, .. } => "context '".spec_bytes() + context
            + "': missing fields: ".spec_bytes() + joined(fields, ", ".spec_bytes()),
    }
}

/// The rule that a finding suggests to add: for a coverage gap, the calls
/// that would give the missing fields a fate.
pub open spec fn suggestion_text(d: DiagnosticModel) -> Option<Seq<u8>> {
    match d {
        DiagnosticModel::Conflict { .. } => None,
        DiagnosticModel::Coverage { fields, .. } => {
            let names = joined(fields, ",".spec_bytes());
            Some(
                "add .requires(".spec_bytes() + names + "), .optional(".spec_bytes() + names
                    + "), .excludes(".spec_bytes() + names
                    + "), or .default(optional/required/exclude)".spec_bytes(),
            )
        },
    }
}

fn words_of(lists: &Vec<Classification>) -> (r: Vec<Vec<u8>>)
    ensures
        views(r@) == list_words(lists@),
{
    let mut words: Vec<Vec<u8>> = Vec::new();
    let mut i: usize = 0;
    while i < lists.len()
        invariant
            i <= lists.len(),
            words@.len() == i,
            forall|j: int| 0 <= j < i ==> words@[j]@ == list_word(lists@[j]),
        decreases lists.len() - i,
    {
        let word = match lists[i] {
            Classification::Required => "required".as_bytes(),
            Classification::Optional => "optional".as_bytes(),
            Classification::Excluded => "excluded".as_bytes(),
        };
        words.push(copy_text(word));
        i = i + 1;
    }
    assert(views(words@) =~= list_words(lists@));
    words
}

impl Diagnostic {
    /// What the finding says.
    pub fn message(&self) -> (r: Vec<u8>)
        ensures
            r@ == message_text(self@),
    {
        let mut out = copy_text("context '".as_bytes());
        match self {
            Diagnostic::Conflict { context, field, lists, .. } => {
                append_text(&mut out, context.as_slice());
                append_text(&mut out, "': field '".as_bytes());
                append_text(&mut out, field.as_slice());
                append_text(&mut out, "' mentioned multiple times: ".as_bytes());
                let words = words_of(lists);
                let list = join_texts(&words, ", ".as_bytes());
                append_text(&mut out, list.as_slice());
            },
            Diagnostic::Coverage { context, fields, .. } => {
                append_text(&mut out, context.as_slice());
                append_text(&mut out, "': missing fields: ".as_bytes());
                let list = join_texts(fields, ", ".as_bytes());
                append_text(&mut out, list.as_slice());
            },
        }
        out
    }

    /// The rule that the finding suggests to add, where it suggests one.
    pub fn suggestion(&self) -> (r: Option<Vec<u8>>)
        ensures
            option_view(r) == suggestion_text(self@),
    {
        match self {
            Diagnostic::Conflict { .. } => None,
            Diagnostic::Coverage { fields, .. } => {
                let names = join_texts(fields, ",".as_bytes());
                let mut out = copy_text("add .requires(".as_bytes());
                append_text(&mut out, names.as_slice());
                append_text(&mut out, "), .optional(".as_bytes());
                append_text(&mut out, names.as_slice());
                append_text(&mut out, "), .excludes(".as_bytes());
                append_text(&mut out, names.as_slice());
                append_text(&mut out, "), or .default(optional/required/exclude)".as_bytes());
                Some(out)
            },
        }
    }
}

} // verus!
