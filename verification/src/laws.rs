//! What holds of every resolution, proved from the definitions that the
//! contracts of the library speak of.

use vstd::prelude::*;
use crate::classify::{
    effective_type, fate, lemma_list_matches, list_matches, ref_matches, resolved_field, wrapped,
    ResolvedFieldModel,
};
use crate::groups::{
    concrete_members, expanded_contexts_upto, expanded_ref, expanded_refs_upto, expanded_rules,
    find_group, literals_upto, members_upto, names_field,
};
use crate::model::{
    names_of, Classification, ContextModel, FieldModel, GroupModel, RefModel, RuleSetModel,
    TypeModel,
};
use crate::parser::rule_source;
use crate::session::{
    expansion, outcome_view, resolution, resolved_fields_upto, ResolveError, ResolvedTable,
};
use crate::session_outcome;
use crate::validate::{
    conflicts_upto, context_diagnostics, coverage_owed, diagnostics, diagnostics_upto,
    matching_lists, unmentioned_upto, DiagnosticModel,
};

verus! {

/// Determinism: two resolutions of the same rule source against the same
/// fields, each with the outcome that `variants` promises, have the same
/// outcome, byte for byte.
pub proof fn lemma_resolution_deterministic(
    fields_a: Seq<FieldModel>,
    source_a: Seq<u8>,
    outcome_a: Result<ResolvedTable, ResolveError>,
    fields_b: Seq<FieldModel>,
    source_b: Seq<u8>,
    outcome_b: Result<ResolvedTable, ResolveError>,
)
    requires
        fields_a == fields_b,
        source_a == source_b,
        outcome_view(outcome_a) == session_outcome(fields_a, rule_source(source_a, false)),
        outcome_view(outcome_b) == session_outcome(fields_b, rule_source(source_b, false)),
    ensures
        outcome_view(outcome_a) == outcome_view(outcome_b),
{
}

/// Determinism of the engine: two resolutions of the same rules against the
/// same fields, each with the outcome that `resolve` promises, have the same
/// outcome.
pub proof fn lemma_rules_deterministic(
    fields_a: Seq<FieldModel>,
    rules_a: RuleSetModel,
    outcome_a: Result<ResolvedTable, ResolveError>,
    fields_b: Seq<FieldModel>,
    rules_b: RuleSetModel,
    outcome_b: Result<ResolvedTable, ResolveError>,
)
    requires
        fields_a == fields_b,
        rules_a == rules_b,
        outcome_view(outcome_a) == resolution(fields_a, rules_a),
        outcome_view(outcome_b) == resolution(fields_b, rules_b),
    ensures
        outcome_view(outcome_a) == outcome_view(outcome_b),
{
}

/// Making a type optional twice is making it optional once.
pub proof fn lemma_wrap_idempotent(t: TypeModel)
    ensures
        wrapped(t).optional,
        wrapped(wrapped(t)) == wrapped(t),
{
}

/// A type that already denotes optionality is not wrapped: where a field is
/// optional in a context, its type there is its declared or overriding type
/// itself if that type is optional already.
pub proof fn lemma_optional_not_wrapped_twice(
    declared: TypeModel,
    type_override: Option<TypeModel>,
)
    ensures
        effective_type(declared, type_override, Classification::Optional).optional,
        type_override is None && declared.optional ==> effective_type(
            declared,
            type_override,
            Classification::Optional,
        ) == declared,
        type_override matches Some(t) ==> (t.optional ==> effective_type(
            declared,
            type_override,
            Classification::Optional,
        ) == t),
{
}

/// The wildcard law: a wildcard names a field exactly if the field is
/// declared and is none of the wildcard's exceptions.
pub proof fn lemma_wildcard_matches(except: Seq<Seq<u8>>, name: Seq<u8>, all: Seq<Seq<u8>>)
    ensures
        ref_matches(RefModel::AllFields { except }, name, all) <==> all.contains(name)
            && !except.contains(name),
{
}

/// The literals of a list of names name a field exactly if the field is one
/// of the first `n` names and is not excepted.
pub proof fn lemma_literals_match(
    names: Seq<Seq<u8>>,
    except: Seq<Seq<u8>>,
    n: int,
    name: Seq<u8>,
    all: Seq<Seq<u8>>,
)
    requires
        0 <= n <= names.len(),
    ensures
        list_matches(literals_upto(names, except, n), name, all) <==> names.subrange(
            0,
            n,
        ).contains(name) && !except.contains(name),
    decreases n,
{
    let refs = literals_upto(names, except, n);
    lemma_list_matches(refs, name, all);
    if n > 0 {
        let before = literals_upto(names, except, n - 1);
        lemma_literals_match(names, except, n - 1, name, all);
        lemma_list_matches(before, name, all);
        if list_matches(refs, name, all) {
            let i = choose|i: int| 0 <= i < refs.len() && ref_matches(refs[i], name, all);
            if i < before.len() {
                assert(ref_matches(before[i], name, all));
                let shorter = names.subrange(0, n - 1);
                let j = choose|j: int| 0 <= j < shorter.len() && shorter[j] == name;
                assert(names.subrange(0, n)[j] == name);
            } else {
                assert(names.subrange(0, n)[n - 1] == name);
            }
        }
        if names.subrange(0, n).contains(name) && !except.contains(name) {
            let longer = names.subrange(0, n);
            let j = choose|j: int| 0 <= j < longer.len() && longer[j] == name;
            if j < n - 1 {
                assert(names.subrange(0, n - 1)[j] == name);
                let i = choose|i: int| 0 <= i < before.len() && ref_matches(before[i], name, all);
                assert(ref_matches(refs[i], name, all));
            } else {
                assert(ref_matches(refs[refs.len() - 1], name, all));
            }
        }
    } else {
        assert(!names.subrange(0, 0).contains(name));
    }
}

/// A group stands for a field among the first `n` declared ones exactly if
/// one of its members names the field.
pub proof fn lemma_members_upto(members: Seq<RefModel>, all: Seq<Seq<u8>>, n: int, name: Seq<u8>)
    requires
        0 <= n <= all.len(),
    ensures
        members_upto(members, all, n).contains(name) <==> all.subrange(0, n).contains(name)
            && list_matches(members, name, all),
    decreases n,
{
    let found = members_upto(members, all, n);
    if n > 0 {
        let before = members_upto(members, all, n - 1);
        lemma_members_upto(members, all, n - 1, name);
        if found.contains(name) {
            let i = choose|i: int| 0 <= i < found.len() && found[i] == name;
            if i < before.len() {
                assert(before[i] == name);
                let shorter = all.subrange(0, n - 1);
                let j = choose|j: int| 0 <= j < shorter.len() && shorter[j] == name;
                assert(all.subrange(0, n)[j] == name);
            } else {
                assert(all.subrange(0, n)[n - 1] == name);
            }
        }
        if all.subrange(0, n).contains(name) && list_matches(members, name, all) {
            let longer = all.subrange(0, n);
            let j = choose|j: int| 0 <= j < longer.len() && longer[j] == name;
            if j < n - 1 {
                assert(all.subrange(0, n - 1)[j] == name);
                let i = choose|i: int| 0 <= i < before.len() && before[i] == name;
                assert(found[i] == name);
            } else {
                assert(found[found.len() - 1] == name);
            }
        }
    } else {
        assert(!all.subrange(0, 0).contains(name));
    }
}

/// A group stands for exactly the declared fields that its members name.
pub proof fn lemma_concrete_members(group: GroupModel, all: Seq<Seq<u8>>, name: Seq<u8>)
    ensures
        concrete_members(group, all).contains(name) <==> all.contains(name) && list_matches(
            group.members,
            name,
            all,
        ),
{
    lemma_members_upto(group.members, all, all.len() as int, name);
    assert(all.subrange(0, all.len() as int) =~= all);
}

/// The group law: what a reference to a defined group with exceptions
/// becomes names a field exactly if the group stands for the field and the
/// field is none of the exceptions.
pub proof fn lemma_group_matches(
    groups: Seq<GroupModel>,
    group_name: Seq<u8>,
    except: Seq<Seq<u8>>,
    position: usize,
    name: Seq<u8>,
    all: Seq<Seq<u8>>,
)
    requires
        find_group(groups, group_name) is Some,
    ensures
        expanded_ref(RefModel::Group { name: group_name, except, position }, groups, all) is Ok,
        list_matches(
            expanded_ref(
                RefModel::Group { name: group_name, except, position },
                groups,
                all,
            )->Ok_0,
            name,
            all,
        ) <==> concrete_members(groups[find_group(groups, group_name)->0], all).contains(name)
            && !except.contains(name),
{
    let group = groups[find_group(groups, group_name)->0];
    let members = concrete_members(group, all);
    lemma_literals_match(members, except, members.len() as int, name, all);
    assert(members.subrange(0, members.len() as int) =~= members);
}

/// A list made of two names a field exactly if one of the two does.
pub proof fn lemma_concat_matches(
    a: Seq<RefModel>,
    b: Seq<RefModel>,
    name: Seq<u8>,
    all: Seq<Seq<u8>>,
)
    ensures
        list_matches(a + b, name, all) <==> list_matches(a, name, all) || list_matches(
            b,
            name,
            all,
        ),
{
    let both = a + b;
    lemma_list_matches(a, name, all);
    lemma_list_matches(b, name, all);
    lemma_list_matches(both, name, all);
    if list_matches(both, name, all) {
        let i = choose|i: int| 0 <= i < both.len() && ref_matches(both[i], name, all);
        if i < a.len() {
            assert(ref_matches(a[i], name, all));
        } else {
            assert(ref_matches(b[i - a.len()], name, all));
        }
    }
    if list_matches(a, name, all) {
        let i = choose|i: int| 0 <= i < a.len() && ref_matches(a[i], name, all);
        assert(ref_matches(both[i], name, all));
    }
    if list_matches(b, name, all) {
        let i = choose|i: int| 0 <= i < b.len() && ref_matches(b[i], name, all);
        assert(ref_matches(both[a.len() + i], name, all));
    }
}

/// What a reference becomes names the fields that the reference, read with
/// the groups, names.
pub proof fn lemma_expanded_ref_matches(
    r: RefModel,
    groups: Seq<GroupModel>,
    name: Seq<u8>,
    all: Seq<Seq<u8>>,
)
    requires
        expanded_ref(r, groups, all) is Ok,
    ensures
        list_matches(expanded_ref(r, groups, all)->Ok_0, name, all) <==> names_field(
            r,
            groups,
            name,
            all,
        ),
{
    let out = expanded_ref(r, groups, all)->Ok_0;
    lemma_list_matches(out, name, all);
    match r {
        RefModel::Field { name: n } => match find_group(groups, n) {
            Some(g) => {
                let members = concrete_members(groups[g], all);
                lemma_literals_match(members, Seq::empty(), members.len() as int, name, all);
                assert(members.subrange(0, members.len() as int) =~= members);
            },
            None => {
                if names_field(r, groups, name, all) {
                    assert(ref_matches(out[0], name, all));
                }
            },
        },
        RefModel::Group { name: n, except, position } => {
            lemma_group_matches(groups, n, except, position, name, all);
        },
        _ => {
            if names_field(r, groups, name, all) {
                assert(ref_matches(out[0], name, all));
            }
        },
    }
}

/// Expansion keeps the meaning of a list: what the first `n` references
/// become names a field exactly if one of them, read with the groups, names
/// it.
pub proof fn lemma_expansion_keeps_meaning(
    refs: Seq<RefModel>,
    groups: Seq<GroupModel>,
    n: int,
    name: Seq<u8>,
    all: Seq<Seq<u8>>,
)
    requires
        0 <= n <= refs.len(),
        expanded_refs_upto(refs, groups, all, n) is Ok,
    ensures
        list_matches(expanded_refs_upto(refs, groups, all, n)->Ok_0, name, all) <==> exists|
            i: int,
        |
            0 <= i < n && names_field(#[trigger] refs[i], groups, name, all),
    decreases n,
{
    let out = expanded_refs_upto(refs, groups, all, n)->Ok_0;
    if n > 0 {
        let before = expanded_refs_upto(refs, groups, all, n - 1)->Ok_0;
        let more = expanded_ref(refs[n - 1], groups, all)->Ok_0;
        lemma_expansion_keeps_meaning(refs, groups, n - 1, name, all);
        lemma_expanded_ref_matches(refs[n - 1], groups, name, all);
        lemma_concat_matches(before, more, name, all);
        if list_matches(out, name, all) {
            if list_matches(before, name, all) {
                let i = choose|i: int|
                    0 <= i < n - 1 && names_field(#[trigger] refs[i], groups, name, all);
                assert(names_field(refs[i], groups, name, all));
            } else {
                assert(names_field(refs[n - 1], groups, name, all));
            }
        }
    } else {
        lemma_list_matches(out, name, all);
    }
}

/// Whether no two of the fields share a name.
pub open spec fn distinct_names(fields: Seq<FieldModel>) -> bool {
    forall|i: int, j: int|
        0 <= i < j < fields.len() ==> (#[trigger] fields[i]).name != (#[trigger] fields[j]).name
}

/// How many entries of a table have the given name.
pub open spec fn occurrences(entries: Seq<ResolvedFieldModel>, name: Seq<u8>) -> nat
    decreases entries.len(),
{
    if entries.len() == 0 {
        0
    } else {
        let rest = occurrences(entries.drop_last(), name);
        if entries.last().name == name {
            rest + 1
        } else {
            rest
        }
    }
}

/// Among the entries of the first `n` fields, a field has one entry if it is
/// one of those fields and is not excluded, else none; and its entry has its
/// fate.
pub proof fn lemma_entries_upto(
    fields: Seq<FieldModel>,
    ctx: ContextModel,
    rules: RuleSetModel,
    n: int,
    i: int,
)
    requires
        distinct_names(fields),
        0 <= n <= fields.len(),
        0 <= i < fields.len(),
    ensures
        occurrences(resolved_fields_upto(fields, ctx, rules, n), fields[i].name) == (if i < n
            && fate(ctx, rules.global_default, fields[i].name, names_of(fields))
            != Classification::Excluded {
            1nat
        } else {
            0nat
        }),
        forall|k: int|
            0 <= k < resolved_fields_upto(fields, ctx, rules, n).len() && (
            #[trigger] resolved_fields_upto(fields, ctx, rules, n)[k]).name == fields[i].name
                ==> resolved_fields_upto(fields, ctx, rules, n)[k].classification == fate(
                ctx,
                rules.global_default,
                fields[i].name,
                names_of(fields),
            ),
    decreases n,
{
    if n > 0 {
        lemma_entries_upto(fields, ctx, rules, n - 1, i);
        let before = resolved_fields_upto(fields, ctx, rules, n - 1);
        match resolved_field(fields[n - 1], ctx, rules, names_of(fields)) {
            Some(entry) => {
                assert(before.push(entry).drop_last() =~= before);
                if i != n - 1 {
                    if i < n - 1 {
                        assert(fields[i].name != fields[n - 1].name);
                    } else {
                        assert(fields[n - 1].name != fields[i].name);
                    }
                }
            },
            None => {},
        }
    }
}

/// Expansion keeps the number of contexts.
pub proof fn lemma_expansion_keeps_count(
    contexts: Seq<ContextModel>,
    groups: Seq<GroupModel>,
    all: Seq<Seq<u8>>,
    n: int,
)
    requires
        0 <= n,
    ensures
        expanded_contexts_upto(contexts, groups, all, n) matches Ok(expanded) ==> expanded.len()
            == n,
    decreases n,
{
    if n > 0 {
        lemma_expansion_keeps_count(contexts, groups, all, n - 1);
    }
}

/// Coverage closure: where a resolution succeeds, its table has one table
/// for each context, and in the table of a context every declared field has
/// exactly one fate: a field that is excluded there has no entry, and any
/// other field has exactly one entry, which carries its fate.
pub proof fn lemma_coverage_closure(
    fields: Seq<FieldModel>,
    rules: RuleSetModel,
    c: int,
    i: int,
)
    requires
        distinct_names(fields),
        resolution(fields, rules) is Ok,
        0 <= c < rules.contexts.len(),
        0 <= i < fields.len(),
    ensures
        ({
            let table = resolution(fields, rules)->Ok_0;
            let expanded = expanded_rules(rules, names_of(fields))->Ok_0;
            let f = fate(
                expanded.contexts[c],
                rules.global_default,
                fields[i].name,
                names_of(fields),
            );
            &&& table.contexts.len() == rules.contexts.len()
            &&& expanded.contexts.len() == rules.contexts.len()
            &&& occurrences(table.contexts[c].fields, fields[i].name) == (if f
                == Classification::Excluded {
                0nat
            } else {
                1nat
            })
            &&& forall|k: int|
                0 <= k < table.contexts[c].fields.len() && (
                #[trigger] table.contexts[c].fields[k]).name == fields[i].name
                    ==> table.contexts[c].fields[k].classification == f
        }),
{
    let all = names_of(fields);
    lemma_expansion_keeps_count(rules.contexts, rules.groups, all, rules.contexts.len() as int);
    let expanded = expanded_rules(rules, all)->Ok_0;
    lemma_entries_upto(fields, expanded.contexts[c], expanded, fields.len() as int, i);
}

/// No conflict among the first `n` fields means that at most one list names
/// each of them.
pub proof fn lemma_no_conflict_upto(ctx: ContextModel, all: Seq<Seq<u8>>, n: int, i: int)
    requires
        0 <= i < n <= all.len(),
        conflicts_upto(ctx, all, n).len() == 0,
    ensures
        matching_lists(ctx, all[i], all).len() <= 1,
    decreases n,
{
    if i < n - 1 {
        lemma_no_conflict_upto(ctx, all, n - 1, i);
    }
}

/// No unmentioned field among the first `n` means that some list names each
/// of them.
pub proof fn lemma_all_mentioned_upto(ctx: ContextModel, all: Seq<Seq<u8>>, n: int, i: int)
    requires
        0 <= i < n <= all.len(),
        unmentioned_upto(ctx, all, n).len() == 0,
    ensures
        matching_lists(ctx, all[i], all).len() >= 1,
    decreases n,
{
    if i < n - 1 {
        lemma_all_mentioned_upto(ctx, all, n - 1, i);
    }
}

/// No finding on the first `n` contexts means none on each of them.
pub proof fn lemma_no_findings_upto(
    contexts: Seq<ContextModel>,
    global: Option<Classification>,
    all: Seq<Seq<u8>>,
    n: int,
    c: int,
)
    requires
        0 <= c < n <= contexts.len(),
        diagnostics_upto(contexts, global, all, n).len() == 0,
    ensures
        context_diagnostics(contexts[c], global, all).len() == 0,
    decreases n,
{
    if c < n - 1 {
        lemma_no_findings_upto(contexts, global, all, n - 1, c);
    }
}

/// What validation guarantees: where it finds nothing, at most one list of
/// each context names each declared field, and in a context that owes every
/// field an explicit fate exactly one list does.
pub proof fn lemma_valid_rules(
    contexts: Seq<ContextModel>,
    global: Option<Classification>,
    all: Seq<Seq<u8>>,
    c: int,
    i: int,
)
    requires
        diagnostics(contexts, global, all).len() == 0,
        0 <= c < contexts.len(),
        0 <= i < all.len(),
    ensures
        matching_lists(contexts[c], all[i], all).len() <= 1,
        coverage_owed(contexts[c], global) ==> matching_lists(contexts[c], all[i], all).len()
            == 1,
{
    lemma_no_findings_upto(contexts, global, all, contexts.len() as int, c);
    lemma_no_conflict_upto(contexts[c], all, all.len() as int, i);
    if coverage_owed(contexts[c], global) {
        lemma_all_mentioned_upto(contexts[c], all, all.len() as int, i);
    }
}

/// What validation reports: a conflict of a field with more than one list
/// naming it is among the findings on its context.
pub proof fn lemma_conflict_reported(ctx: ContextModel, all: Seq<Seq<u8>>, n: int, i: int)
    requires
        0 <= i < n <= all.len(),
        matching_lists(ctx, all[i], all).len() >= 2,
    ensures
        conflicts_upto(ctx, all, n).contains(
            DiagnosticModel::Conflict {
                context: ctx.name,
                field: all[i],
                lists: matching_lists(ctx, all[i], all),
                position: ctx.end_position,
            },
        ),
    decreases n,
{
    let found = conflicts_upto(ctx, all, n);
    let wanted = DiagnosticModel::Conflict {
        context: ctx.name,
        field: all[i],
        lists: matching_lists(ctx, all[i], all),
        position: ctx.end_position,
    };
    if i < n - 1 {
        lemma_conflict_reported(ctx, all, n - 1, i);
        let before = conflicts_upto(ctx, all, n - 1);
        let k = choose|k: int| 0 <= k < before.len() && before[k] == wanted;
        assert(found[k] == wanted);
    } else {
        assert(found[found.len() - 1] == wanted);
    }
}

/// Where at most one list names each of the first `n` fields, there is no
/// conflict among them.
pub proof fn lemma_conflicts_absent(ctx: ContextModel, all: Seq<Seq<u8>>, n: int)
    requires
        0 <= n <= all.len(),
        forall|i: int| 0 <= i < n ==> matching_lists(ctx, #[trigger] all[i], all).len() <= 1,
    ensures
        conflicts_upto(ctx, all, n).len() == 0,
    decreases n,
{
    if n > 0 {
        lemma_conflicts_absent(ctx, all, n - 1);
        assert(matching_lists(ctx, all[n - 1], all).len() <= 1);
    }
}

/// Where some list names each of the first `n` fields, none of them is
/// unmentioned.
pub proof fn lemma_unmentioned_absent(ctx: ContextModel, all: Seq<Seq<u8>>, n: int)
    requires
        0 <= n <= all.len(),
        forall|i: int| 0 <= i < n ==> matching_lists(ctx, #[trigger] all[i], all).len() >= 1,
    ensures
        unmentioned_upto(ctx, all, n).len() == 0,
    decreases n,
{
    if n > 0 {
        lemma_unmentioned_absent(ctx, all, n - 1);
        assert(matching_lists(ctx, all[n - 1], all).len() >= 1);
    }
}

/// Whether a context is in order: at most one of its lists names each
/// declared field, and exactly one does where the context owes every field
/// an explicit fate.
pub open spec fn context_in_order(
    ctx: ContextModel,
    global: Option<Classification>,
    all: Seq<Seq<u8>>,
) -> bool {
    forall|i: int|
        0 <= i < all.len() ==> {
            let lists = matching_lists(ctx, #[trigger] all[i], all);
            lists.len() <= 1 && (coverage_owed(ctx, global) ==> lists.len() == 1)
        }
}

/// Validation finds nothing on a context exactly if the context is in
/// order.
pub proof fn lemma_context_passes(
    ctx: ContextModel,
    global: Option<Classification>,
    all: Seq<Seq<u8>>,
)
    ensures
        context_diagnostics(ctx, global, all).len() == 0 <==> context_in_order(ctx, global, all),
{
    if context_in_order(ctx, global, all) {
        lemma_conflicts_absent(ctx, all, all.len() as int);
        if coverage_owed(ctx, global) {
            lemma_unmentioned_absent(ctx, all, all.len() as int);
        }
    }
    if context_diagnostics(ctx, global, all).len() == 0 {
        assert forall|i: int| 0 <= i < all.len() implies {
            let lists = matching_lists(ctx, #[trigger] all[i], all);
            lists.len() <= 1 && (coverage_owed(ctx, global) ==> lists.len() == 1)
        } by {
            lemma_no_conflict_upto(ctx, all, all.len() as int, i);
            if coverage_owed(ctx, global) {
                lemma_all_mentioned_upto(ctx, all, all.len() as int, i);
            }
        }
    }
}

/// Validation finds nothing on the first `n` contexts exactly if each of
/// them is in order.
pub proof fn lemma_contexts_pass(
    contexts: Seq<ContextModel>,
    global: Option<Classification>,
    all: Seq<Seq<u8>>,
    n: int,
)
    requires
        0 <= n <= contexts.len(),
    ensures
        diagnostics_upto(contexts, global, all, n).len() == 0 <==> forall|c: int|
            0 <= c < n ==> context_in_order(#[trigger] contexts[c], global, all),
    decreases n,
{
    if n > 0 {
        lemma_contexts_pass(contexts, global, all, n - 1);
        lemma_context_passes(contexts[n - 1], global, all);
    }
}

/// When a resolution of expanded rules succeeds: exactly when every context
/// is in order.
pub proof fn lemma_success_owed(fields: Seq<FieldModel>, rules: RuleSetModel)
    ensures
        expansion(fields, rules) is Ok <==> forall|c: int|
            0 <= c < rules.contexts.len() ==> context_in_order(
                #[trigger] rules.contexts[c],
                rules.global_default,
                names_of(fields),
            ),
{
    lemma_contexts_pass(
        rules.contexts,
        rules.global_default,
        names_of(fields),
        rules.contexts.len() as int,
    );
}

/// Whether a reference is none to a group.
pub open spec fn is_resolved(r: RefModel) -> bool {
    !(r is Group)
}

/// What a reference becomes holds no reference to a group.
pub proof fn lemma_expanded_ref_resolved(
    r: RefModel,
    groups: Seq<GroupModel>,
    all: Seq<Seq<u8>>,
    k: int,
)
    requires
        expanded_ref(r, groups, all) matches Ok(out) && 0 <= k < out.len(),
    ensures
        is_resolved(expanded_ref(r, groups, all)->Ok_0[k]),
{
    match r {
        RefModel::Field { name } => match find_group(groups, name) {
            Some(g) => {
                let members = concrete_members(groups[g], all);
                lemma_literals_resolved(members, Seq::empty(), members.len() as int, k);
            },
            None => {},
        },
        RefModel::Group { name, except, .. } => {
            let members = concrete_members(groups[find_group(groups, name)->0], all);
            lemma_literals_resolved(members, except, members.len() as int, k);
        },
        _ => {},
    }
}

/// Literal references hold no reference to a group.
pub proof fn lemma_literals_resolved(names: Seq<Seq<u8>>, except: Seq<Seq<u8>>, n: int, k: int)
    requires
        0 <= k < literals_upto(names, except, n).len(),
    ensures
        is_resolved(literals_upto(names, except, n)[k]),
    decreases n,
{
    if n > 0 {
        let before = literals_upto(names, except, n - 1);
        if k < before.len() {
            lemma_literals_resolved(names, except, n - 1, k);
        }
    }
}

/// Expansion leaves no reference to a group: what the first `n` references
/// of a list become holds none.
pub proof fn lemma_expansion_resolves_groups(
    refs: Seq<RefModel>,
    groups: Seq<GroupModel>,
    all: Seq<Seq<u8>>,
    n: int,
    k: int,
)
    requires
        0 <= n <= refs.len(),
        expanded_refs_upto(refs, groups, all, n) matches Ok(out) && 0 <= k < out.len(),
    ensures
        is_resolved(expanded_refs_upto(refs, groups, all, n)->Ok_0[k]),
    decreases n,
{
    if n > 0 {
        let before = expanded_refs_upto(refs, groups, all, n - 1)->Ok_0;
        if k < before.len() {
            lemma_expansion_resolves_groups(refs, groups, all, n - 1, k);
        } else {
            lemma_expanded_ref_resolved(refs[n - 1], groups, all, k - before.len());
        }
    }
}

/// Every conflict that validation reports is one: it names the context, a
/// declared field that more than one list names, and those lists.
pub proof fn lemma_conflicts_are_real(ctx: ContextModel, all: Seq<Seq<u8>>, n: int, k: int)
    requires
        0 <= n <= all.len(),
        0 <= k < conflicts_upto(ctx, all, n).len(),
    ensures
        exists|i: int|
            0 <= i < n && matching_lists(ctx, #[trigger] all[i], all).len() >= 2
                && conflicts_upto(ctx, all, n)[k] == (DiagnosticModel::Conflict {
                context: ctx.name,
                field: all[i],
                lists: matching_lists(ctx, all[i], all),
                position: ctx.end_position,
            }),
    decreases n,
{
    let before = conflicts_upto(ctx, all, n - 1);
    if k < before.len() {
        lemma_conflicts_are_real(ctx, all, n - 1, k);
        let i = choose|i: int|
            0 <= i < n - 1 && matching_lists(ctx, #[trigger] all[i], all).len() >= 2 && before[k]
                == (DiagnosticModel::Conflict {
                context: ctx.name,
                field: all[i],
                lists: matching_lists(ctx, all[i], all),
                position: ctx.end_position,
            });
        assert(matching_lists(ctx, all[i], all).len() >= 2);
    } else {
        assert(matching_lists(ctx, all[n - 1], all).len() >= 2);
    }
}

/// The fields that a coverage gap lists are the declared fields that no list
/// of the context names.
pub proof fn lemma_unmentioned_are_unnamed(
    ctx: ContextModel,
    all: Seq<Seq<u8>>,
    n: int,
    name: Seq<u8>,
)
    requires
        0 <= n <= all.len(),
    ensures
        unmentioned_upto(ctx, all, n).contains(name) <==> all.subrange(0, n).contains(name)
            && matching_lists(ctx, name, all).len() == 0,
    decreases n,
{
    let found = unmentioned_upto(ctx, all, n);
    if n > 0 {
        let before = unmentioned_upto(ctx, all, n - 1);
        lemma_unmentioned_are_unnamed(ctx, all, n - 1, name);
        let shorter = all.subrange(0, n - 1);
        let longer = all.subrange(0, n);
        if found.contains(name) {
            let k = choose|k: int| 0 <= k < found.len() && found[k] == name;
            if k < before.len() {
                assert(before[k] == name);
                let j = choose|j: int| 0 <= j < shorter.len() && shorter[j] == name;
                assert(longer[j] == name);
            } else {
                assert(longer[n - 1] == name);
            }
        }
        if longer.contains(name) && matching_lists(ctx, name, all).len() == 0 {
            let j = choose|j: int| 0 <= j < longer.len() && longer[j] == name;
            if j < n - 1 {
                assert(shorter[j] == name);
                let k = choose|k: int| 0 <= k < before.len() && before[k] == name;
                assert(found[k] == name);
            } else {
                assert(found[found.len() - 1] == name);
            }
        }
    } else {
        assert(!all.subrange(0, 0).contains(name));
    }
}

} // verus!
