//! The group expander: turns the references of each context to named groups
//! into references to the fields that the groups stand for.

use vstd::prelude::*;
use crate::classify::{find_match, list_matches, ref_matches};
use crate::error::{ParseError, ParseErrorKind};
use crate::model::{
    Context, ContextModel, FieldGroup, FieldRef, GroupModel, RefModel, RuleSet, RuleSetModel,
};
use crate::text::{bytes_eq, contains_text, copy_text, copy_texts, views};

verus! {

/// The index of the last of the first `n` groups that has the given name.
pub open spec fn find_group_upto(groups: Seq<GroupModel>, name: Seq<u8>, n: int) -> Option<int>
    decreases n,
{
    if n <= 0 {
        None
    } else if groups[n - 1].name == name {
        Some(n - 1)
    } else {
        find_group_upto(groups, name, n - 1)
    }
}

/// The index of the group that a name stands for: the last definition wins.
pub open spec fn find_group(groups: Seq<GroupModel>, name: Seq<u8>) -> Option<int> {
    find_group_upto(groups, name, groups.len() as int)
}

/// Those of the first `n` declared fields that the members of a group name,
/// in declaration order.
pub open spec fn members_upto(members: Seq<RefModel>, all: Seq<Seq<u8>>, n: int) -> Seq<Seq<u8>>
    decreases n,
{
    if n <= 0 {
        Seq::empty()
    } else {
        let before = members_upto(members, all, n - 1);
        if list_matches(members, all[n - 1], all) {
            before.push(all[n - 1])
        } else {
            before
        }
    }
}

/// The fields that a group stands for: the declared fields that its members
/// name, in declaration order.
pub open spec fn concrete_members(group: GroupModel, all: Seq<Seq<u8>>) -> Seq<Seq<u8>> {
    members_upto(group.members, all, all.len() as int)
}

/// Literal references to those of the first `n` names that are not excepted.
pub open spec fn literals_upto(names: Seq<Seq<u8>>, except: Seq<Seq<u8>>, n: int) -> Seq<RefModel>
    decreases n,
{
    if n <= 0 {
        Seq::empty()
    } else {
        let before = literals_upto(names, except, n - 1);
        if except.contains(names[n - 1]) {
            before
        } else {
            before.push(RefModel::Field { name: names[n - 1] })
        }
    }
}

/// Literal references to the members of a group that are not excepted.
pub open spec fn group_literals(group: GroupModel, except: Seq<Seq<u8>>, all: Seq<Seq<u8>>) -> Seq<
    RefModel,
> {
    let members = concrete_members(group, all);
    literals_upto(members, except, members.len() as int)
}

/// Whether a reference, read with the groups, names the field `name`: a
/// literal whose name is that of a group names the group's members, and a
/// group reference names the group's members outside its exceptions.
pub open spec fn names_field(
    r: RefModel,
    groups: Seq<GroupModel>,
    name: Seq<u8>,
    all: Seq<Seq<u8>>,
) -> bool {
    match r {
        RefModel::Field { name: n } => match find_group(groups, n) {
            Some(g) => concrete_members(groups[g], all).contains(name),
            None => n == name,
        },
        RefModel::Group { name: n, except, .. } => match find_group(groups, n) {
            Some(g) => concrete_members(groups[g], all).contains(name) && !except.contains(name),
            None => false,
        },
        _ => ref_matches(r, name, all),
    }
}

/// What one reference becomes. A literal whose name is that of a group, and
/// a group reference, become literal references to the group's members; any
/// other reference stays. A group reference to an unknown name is an error.
pub open spec fn expanded_ref(r: RefModel, groups: Seq<GroupModel>, all: Seq<Seq<u8>>) -> Result<
    Seq<RefModel>,
    ParseError,
> {
    match r {
        RefModel::Field { name } => match find_group(groups, name) {
            Some(g) => Ok(group_literals(groups[g], Seq::empty(), all)),
            None => Ok(seq![r]),
        },
        RefModel::Group { name, except, position } => match find_group(groups, name) {
            Some(g) => Ok(group_literals(groups[g], except, all)),
            None => Err(ParseError { kind: ParseErrorKind::UndefinedGroup, position }),
        },
        _ => Ok(seq![r]),
    }
}

/// What the first `n` references of a list become, in order; the first
/// error among them where there is one.
pub open spec fn expanded_refs_upto(
    refs: Seq<RefModel>,
    groups: Seq<GroupModel>,
    all: Seq<Seq<u8>>,
    n: int,
) -> Result<Seq<RefModel>, ParseError>
    decreases n,
{
    if n <= 0 {
        Ok(Seq::empty())
    } else {
        match expanded_refs_upto(refs, groups, all, n - 1) {
            Err(e) => Err(e),
            Ok(before) => match expanded_ref(refs[n - 1], groups, all) {
                Err(e) => Err(e),
                Ok(more) => Ok(before + more),
            },
        }
    }
}

/// What a list of references becomes.
pub open spec fn expanded_refs(refs: Seq<RefModel>, groups: Seq<GroupModel>, all: Seq<Seq<u8>>)
    -> Result<Seq<RefModel>, ParseError> {
    expanded_refs_upto(refs, groups, all, refs.len() as int)
}

/// What a context becomes: its three lists expanded, the rest unchanged. The
/// lists are taken in the order required, optional, excluded, and the first
/// error is the context's.
pub open spec fn expanded_context(ctx: ContextModel, groups: Seq<GroupModel>, all: Seq<Seq<u8>>)
    -> Result<ContextModel, ParseError> {
    match expanded_refs(ctx.required, groups, all) {
        Err(e) => Err(e),
        Ok(required) => match expanded_refs(ctx.optional, groups, all) {
            Err(e) => Err(e),
            Ok(optional) => match expanded_refs(ctx.excluded, groups, all) {
                Err(e) => Err(e),
                Ok(excluded) => Ok(ContextModel { required, optional, excluded, ..ctx }),
            },
        },
    }
}

/// What the first `n` contexts become; the first error among them where there
/// is one.
pub open spec fn expanded_contexts_upto(
    contexts: Seq<ContextModel>,
    groups: Seq<GroupModel>,
    all: Seq<Seq<u8>>,
    n: int,
) -> Result<Seq<ContextModel>, ParseError>
    decreases n,
{
    if n <= 0 {
        Ok(Seq::empty())
    } else {
        match expanded_contexts_upto(contexts, groups, all, n - 1) {
            Err(e) => Err(e),
            Ok(before) => match expanded_context(contexts[n - 1], groups, all) {
                Err(e) => Err(e),
                Ok(ctx) => Ok(before.push(ctx)),
            },
        }
    }
}

/// The rules with every context expanded.
pub open spec fn expanded_rules(rules: RuleSetModel, all: Seq<Seq<u8>>) -> Result<
    RuleSetModel,
    ParseError,
> {
    match expanded_contexts_upto(rules.contexts, rules.groups, all, rules.contexts.len() as int) {
        Err(e) => Err(e),
        Ok(contexts) => Ok(RuleSetModel { contexts, ..rules }),
    }
}

/// The view of a list inside a result.
pub open spec fn list_result_view<T: View>(r: Result<Vec<T>, ParseError>) -> Result<
    Seq<T::V>,
    ParseError,
> {
    match r {
        Ok(v) => Ok(views(v@)),
        Err(e) => Err(e),
    }
}

/// Finds the group that a name stands for.
pub fn lookup_group(groups: &Vec<FieldGroup>, name: &[u8]) -> (r: Option<usize>)
    ensures
        match r {
            Some(g) => g < groups.len() && find_group(views(groups@), name@) == Some(g as int),
            None => find_group(views(groups@), name@) is None,
        },
{
    let mut n: usize = groups.len();
    while n > 0
        invariant
            n <= groups.len(),
            find_group(views(groups@), name@) == find_group_upto(views(groups@), name@, n as int),
        decreases n,
    {
        if bytes_eq(groups[n - 1].name.as_slice(), name) {
            return Some(n - 1);
        }
        n = n - 1;
    }
    None
}

/// Appends literal references to the members of a group that are not
/// excepted.
pub fn append_group_literals(
    group: &FieldGroup,
    except: &Vec<Vec<u8>>,
    all: &Vec<Vec<u8>>,
    out: &mut Vec<FieldRef>,
)
    ensures
        views(final(out)@) == views(old(out)@) + group_literals(
            group@,
            views(except@),
            views(all@),
        ),
{
    let ghost members = concrete_members(group@, views(all@));
    let ghost mut seen: Seq<Seq<u8>> = Seq::empty();
    let mut i: usize = 0;
    while i < all.len()
        invariant
            i <= all.len(),
            seen == members_upto(group@.members, views(all@), i as int),
            views(out@) == views(old(out)@) + literals_upto(
                seen,
                views(except@),
                seen.len() as int,
            ),
        decreases all.len() - i,
    {
        let name = all[i].as_slice();
        if find_match(&group.members, name, all).is_some() {
            let ghost grown = seen.push(name@);
            proof {
                lemma_literals_prefix(seen, grown, views(except@), seen.len() as int);
            }
            if !contains_text(except, name) {
                let ghost before = out@;
                out.push(FieldRef::Field { name: copy_text(name) });
                assert(views(out@) =~= views(before).push(RefModel::Field { name: name@ }));
            }
            proof {
                seen = grown;
            }
            assert(views(out@) =~= views(old(out)@) + literals_upto(
                seen,
                views(except@),
                seen.len() as int,
            ));
        }
        i = i + 1;
    }
}

/// The literals of the first `n` names depend on those names alone.
pub proof fn lemma_literals_prefix(
    a: Seq<Seq<u8>>,
    b: Seq<Seq<u8>>,
    except: Seq<Seq<u8>>,
    n: int,
)
    requires
        0 <= n <= a.len(),
        n <= b.len(),
        forall|i: int| 0 <= i < n ==> a[i] == b[i],
    ensures
        literals_upto(a, except, n) == literals_upto(b, except, n),
    decreases n,
{
    if n > 0 {
        lemma_literals_prefix(a, b, except, n - 1);
    }
}

/// A copy of a reference.
pub fn copy_ref(r: &FieldRef) -> (c: FieldRef)
    ensures
        c@ == r@,
{
    match r {
        FieldRef::Field { name } => FieldRef::Field { name: copy_text(name.as_slice()) },
        FieldRef::Typed { name, ty } => FieldRef::Typed {
            name: copy_text(name.as_slice()),
            ty: ty.duplicate(),
        },
        FieldRef::AllFields { except } => FieldRef::AllFields { except: copy_texts(except) },
        FieldRef::Group { name, except, position } => FieldRef::Group {
            name: copy_text(name.as_slice()),
            except: copy_texts(except),
            position: *position,
        },
    }
}

/// Expands a list of references.
pub fn expand_refs(refs: &Vec<FieldRef>, groups: &Vec<FieldGroup>, all: &Vec<Vec<u8>>) -> (r:
    Result<Vec<FieldRef>, ParseError>)
    ensures
        list_result_view(r) == expanded_refs(views(refs@), views(groups@), views(all@)),
{
    let mut out: Vec<FieldRef> = Vec::new();
    let no_exceptions: Vec<Vec<u8>> = Vec::new();
    let mut i: usize = 0;
    assert(views(out@) =~= Seq::<RefModel>::empty());
    assert(views(no_exceptions@) =~= Seq::<Seq<u8>>::empty());
    while i < refs.len()
        invariant
            i <= refs.len(),
            views(no_exceptions@) == Seq::<Seq<u8>>::empty(),
            expanded_refs_upto(views(refs@), views(groups@), views(all@), i as int) == Ok::<
                Seq<RefModel>,
                ParseError,
            >(views(out@)),
        decreases refs.len() - i,
    {
        let ghost before = out@;
        match &refs[i] {
            FieldRef::Field { name } => match lookup_group(groups, name.as_slice()) {
                Some(g) => {
                    append_group_literals(&groups[g], &no_exceptions, all, &mut out);
                },
                None => {
                    out.push(copy_ref(&refs[i]));
                    assert(views(out@) =~= views(before) + seq![refs@[i as int]@]);
                },
            },
            FieldRef::Group { name, except, position } => match lookup_group(
                groups,
                name.as_slice(),
            ) {
                Some(g) => {
                    append_group_literals(&groups[g], except, all, &mut out);
                },
                None => {
                    proof {
                        assert(expanded_refs_upto(
                            views(refs@),
                            views(groups@),
                            views(all@),
                            i + 1,
                        ) is Err);
                        lemma_refs_error_stays(
                            views(refs@),
                            views(groups@),
                            views(all@),
                            i + 1,
                            refs@.len() as int,
                        );
                    }
                    return Err(
                        ParseError { kind: ParseErrorKind::UndefinedGroup, position: *position },
                    );
                },
            },
            _ => {
                out.push(copy_ref(&refs[i]));
                assert(views(out@) =~= views(before) + seq![refs@[i as int]@]);
            },
        }
        i = i + 1;
    }
    Ok(out)
}

/// Once the expansion of a prefix of a list fails, that of every longer
/// prefix fails with the same error.
pub proof fn lemma_refs_error_stays(
    refs: Seq<RefModel>,
    groups: Seq<GroupModel>,
    all: Seq<Seq<u8>>,
    n: int,
    m: int,
)
    requires
        0 <= n <= m,
        expanded_refs_upto(refs, groups, all, n) is Err,
    ensures
        expanded_refs_upto(refs, groups, all, m) == expanded_refs_upto(refs, groups, all, n),
    decreases m - n,
{
    if n < m {
        lemma_refs_error_stays(refs, groups, all, n, m - 1);
    }
}

/// Expands the three lists of a context.
pub fn expand_context(ctx: &Context, groups: &Vec<FieldGroup>, all: &Vec<Vec<u8>>) -> (r: Result<
    Context,
    ParseError,
>)
    ensures
        match r {
            Ok(c) => expanded_context(ctx@, views(groups@), views(all@)) == Ok::<
                ContextModel,
                ParseError,
            >(c@),
            Err(e) => expanded_context(ctx@, views(groups@), views(all@)) == Err::<
                ContextModel,
                ParseError,
            >(e),
        },
{
    let required = match expand_refs(&ctx.required, groups, all) {
        Ok(v) => v,
        Err(e) => {
            return Err(e);
        },
    };
    let optional = match expand_refs(&ctx.optional, groups, all) {
        Ok(v) => v,
        Err(e) => {
            return Err(e);
        },
    };
    let excluded = match expand_refs(&ctx.excluded, groups, all) {
        Ok(v) => v,
        Err(e) => {
            return Err(e);
        },
    };
    Ok(
        Context {
            name: copy_text(ctx.name.as_slice()),
            required,
            optional,
            excluded,
            default_behavior: ctx.default_behavior,
            has_chain: ctx.has_chain,
            end_position: ctx.end_position,
        },
    )
}

/// Expands the group references in every context of the rules, against the
/// declared fields of the entity. On an error the rules are left as they
/// were.
pub fn expand_field_groups(rules: &mut RuleSet, all_field_names: &Vec<Vec<u8>>) -> (r: Result<
    (),
    ParseError,
>)
    ensures
        match r {
            Ok(()) => expanded_rules(old(rules)@, views(all_field_names@)) == Ok::<
                RuleSetModel,
                ParseError,
            >(final(rules)@),
            Err(e) => final(rules)@ == old(rules)@ && expanded_rules(
                old(rules)@,
                views(all_field_names@),
            ) == Err::<RuleSetModel, ParseError>(e),
        },
{
    let mut contexts: Vec<Context> = Vec::new();
    let mut i: usize = 0;
    assert(views(contexts@) =~= Seq::<ContextModel>::empty());
    while i < rules.contexts.len()
        invariant
            i <= rules.contexts.len(),
            *rules == *old(rules),
            expanded_contexts_upto(
                rules@.contexts,
                rules@.groups,
                views(all_field_names@),
                i as int,
            ) == Ok::<Seq<ContextModel>, ParseError>(views(contexts@)),
        decreases rules.contexts.len() - i,
    {
        match expand_context(&rules.contexts[i], &rules.groups, all_field_names) {
            Ok(ctx) => {
                let ghost before = contexts@;
                contexts.push(ctx);
                assert(views(contexts@) =~= views(before).push(contexts@.last()@));
            },
            Err(e) => {
                assert(expanded_contexts_upto(
                    rules@.contexts,
                    rules@.groups,
                    views(all_field_names@),
                    i + 1,
                ) == Err::<Seq<ContextModel>, ParseError>(e));
                proof {
                    lemma_expansion_error_stays(
                        rules@.contexts,
                        rules@.groups,
                        views(all_field_names@),
                        i + 1,
                        rules@.contexts.len() as int,
                    );
                }
                return Err(e);
            },
        }
        i = i + 1;
    }
    rules.contexts = contexts;
    Ok(())
}

/// Once the expansion of a prefix of the contexts fails, that of every
/// longer prefix fails with the same error.
pub proof fn lemma_expansion_error_stays(
    contexts: Seq<ContextModel>,
    groups: Seq<GroupModel>,
    all: Seq<Seq<u8>>,
    n: int,
    m: int,
)
    requires
        0 <= n <= m,
        expanded_contexts_upto(contexts, groups, all, n) is Err,
    ensures
        expanded_contexts_upto(contexts, groups, all, m) == expanded_contexts_upto(
            contexts,
            groups,
            all,
            n,
        ),
    decreases m - n,
{
    if n < m {
        lemma_expansion_error_stays(contexts, groups, all, n, m - 1);
    }
}

} // verus!
