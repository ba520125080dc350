//! The field classifier: which references name a field, the fate of a field
//! in a context, and the type and overlay it takes there.

use vstd::prelude::*;
use vstd::string::StringSliceAdditionalSpecFns;
use crate::model::{
    Classification, Context, ContextModel, FieldDescriptor, FieldModel, FieldRef, RefModel,
    RuleSet, RuleSetModel, TypeExpr, TypeModel,
};
use crate::text::{
    append_text, append_texts, bytes_eq, contains_text, copy_text, copy_texts, join_texts, joined,
    option_view, views,
};

verus! {

/// Whether a reference names the field `name` of an entity whose declared
/// fields are `all`.
///
/// A literal names the field with its own name. A wildcard names every
/// declared field outside its exceptions. A group reference that was not
/// expanded names nothing.
pub open spec fn ref_matches(r: RefModel, name: Seq<u8>, all: Seq<Seq<u8>>) -> bool {
    match r {
        RefModel::Field { name: n } => n == name,
        RefModel::Typed { name: n, .. } => n == name,
        RefModel::AllFields { except } => all.contains(name) && !except.contains(name),
        RefModel::Group { .. } => false,
    }
}

/// The index of the first reference at or after `from` that names the field.
pub open spec fn first_match_from(
    refs: Seq<RefModel>,
    name: Seq<u8>,
    all: Seq<Seq<u8>>,
    from: int,
) -> Option<int>
    decreases refs.len() - from,
{
    if from < 0 || from >= refs.len() {
        None
    } else if ref_matches(refs[from], name, all) {
        Some(from)
    } else {
        first_match_from(refs, name, all, from + 1)
    }
}

/// The index of the first reference of the list that names the field.
pub open spec fn first_match(refs: Seq<RefModel>, name: Seq<u8>, all: Seq<Seq<u8>>) -> Option<
    int,
> {
    first_match_from(refs, name, all, 0)
}

/// Whether some reference of the list names the field.
pub open spec fn list_matches(refs: Seq<RefModel>, name: Seq<u8>, all: Seq<Seq<u8>>) -> bool {
    first_match(refs, name, all) is Some
}

/// What `first_match_from` finds is the least matching index from `from` on,
/// and it finds nothing only where nothing matches.
pub proof fn lemma_first_match_from(
    refs: Seq<RefModel>,
    name: Seq<u8>,
    all: Seq<Seq<u8>>,
    from: int,
)
    requires
        0 <= from,
    ensures
        match first_match_from(refs, name, all, from) {
            Some(i) => from <= i < refs.len() && ref_matches(refs[i], name, all) && forall|j: int|
                from <= j < i ==> !ref_matches(#[trigger] refs[j], name, all),
            None => forall|j: int|
                from <= j < refs.len() ==> !ref_matches(#[trigger] refs[j], name, all),
        },
    decreases refs.len() - from,
{
    if from < refs.len() && !ref_matches(refs[from], name, all) {
        lemma_first_match_from(refs, name, all, from + 1);
    }
}

/// A list names a field exactly if one of its references does.
pub proof fn lemma_list_matches(refs: Seq<RefModel>, name: Seq<u8>, all: Seq<Seq<u8>>)
    ensures
        list_matches(refs, name, all) <==> exists|i: int|
            0 <= i < refs.len() && ref_matches(#[trigger] refs[i], name, all),
{
    lemma_first_match_from(refs, name, all, 0);
    if list_matches(refs, name, all) {
        let i = first_match(refs, name, all)->0;
        assert(ref_matches(refs[i], name, all));
    }
}

/// A reference as the rule language writes it.
pub open spec fn ref_text(r: RefModel) -> Seq<u8> {
    match r {
        RefModel::Field { name } => name,
        RefModel::Typed { name, ty } => name + " as ".spec_bytes() + ty.text,
        RefModel::AllFields { except } => if except.len() == 0 {
            "all_fields()".spec_bytes()
        } else {
            "all_fields().except(".spec_bytes() + joined(except, ", ".spec_bytes())
                + ")".spec_bytes()
        },
        RefModel::Group { name, except, .. } => name + ".except(".spec_bytes() + joined(
            except,
            ", ".spec_bytes(),
        ) + ")".spec_bytes(),
    }
}

impl FieldRef {
    /// Writes this reference as the rule language does.
    pub fn to_text(&self) -> (r: Vec<u8>)
        ensures
            r@ == ref_text(self@),
    {
        match self {
            FieldRef::Field { name } => copy_text(name.as_slice()),
            FieldRef::Typed { name, ty } => {
                let mut out = copy_text(name.as_slice());
                append_text(&mut out, " as ".as_bytes());
                append_text(&mut out, ty.text.as_slice());
                out
            },
            FieldRef::AllFields { except } => {
                if except.len() == 0 {
                    copy_text("all_fields()".as_bytes())
                } else {
                    let mut out = copy_text("all_fields().except(".as_bytes());
                    let names = join_texts(except, ", ".as_bytes());
                    append_text(&mut out, names.as_slice());
                    append_text(&mut out, ")".as_bytes());
                    out
                }
            },
            FieldRef::Group { name, except, .. } => {
                let mut out = copy_text(name.as_slice());
                append_text(&mut out, ".except(".as_bytes());
                let names = join_texts(except, ", ".as_bytes());
                append_text(&mut out, names.as_slice());
                append_text(&mut out, ")".as_bytes());
                out
            },
        }
    }

    /// Whether this reference names the field `field_name` of an entity whose
    /// declared fields are `all_fields`.
    pub fn matches_field(&self, field_name: &[u8], all_fields: &Vec<Vec<u8>>) -> (r: bool)
        ensures
            r == ref_matches(self@, field_name@, views(all_fields@)),
    {
        match self {
            FieldRef::Field { name } => bytes_eq(name.as_slice(), field_name),
            FieldRef::Typed { name, .. } => bytes_eq(name.as_slice(), field_name),
            FieldRef::AllFields { except } => {
                contains_text(all_fields, field_name) && !contains_text(except, field_name)
            },
            FieldRef::Group { .. } => false,
        }
    }
}

/// Finds the first reference of the list that names the field.
pub fn find_match(refs: &Vec<FieldRef>, name: &[u8], all: &Vec<Vec<u8>>) -> (r: Option<usize>)
    ensures
        match r {
            Some(i) => i < refs.len() && first_match(views(refs@), name@, views(all@)) == Some(
                i as int,
            ),
            None => first_match(views(refs@), name@, views(all@)) is None,
        },
{
    let mut i: usize = 0;
    while i < refs.len()
        invariant
            i <= refs.len(),
            first_match(views(refs@), name@, views(all@)) == first_match_from(
                views(refs@),
                name@,
                views(all@),
                i as int,
            ),
        decreases refs.len() - i,
    {
        if refs[i].matches_field(name, all) {
            return Some(i);
        }
        i = i + 1;
    }
    None
}

/// The fate that the lists of a context give a field: excluded before
/// optional before required, and none where no list names it.
pub open spec fn explicit_fate(ctx: ContextModel, name: Seq<u8>, all: Seq<Seq<u8>>) -> Option<
    Classification,
> {
    if list_matches(ctx.excluded, name, all) {
        Some(Classification::Excluded)
    } else if list_matches(ctx.optional, name, all) {
        Some(Classification::Optional)
    } else if list_matches(ctx.required, name, all) {
        Some(Classification::Required)
    } else {
        None
    }
}

/// The fate of an unmentioned field: the default of the context, else the
/// global default, else optional.
pub open spec fn fallback_fate(
    ctx_default: Option<Classification>,
    global: Option<Classification>,
) -> Classification {
    match ctx_default {
        Some(c) => c,
        None => match global {
            Some(g) => g,
            None => Classification::Optional,
        },
    }
}

/// The fate of a field in a context.
pub open spec fn fate(
    ctx: ContextModel,
    global: Option<Classification>,
    name: Seq<u8>,
    all: Seq<Seq<u8>>,
) -> Classification {
    match explicit_fate(ctx, name, all) {
        Some(c) => c,
        None => fallback_fate(ctx.default_behavior, global),
    }
}

/// The type that the first matching reference of a list gives the field.
pub open spec fn override_in(refs: Seq<RefModel>, name: Seq<u8>, all: Seq<Seq<u8>>) -> Option<
    TypeModel,
> {
    match first_match(refs, name, all) {
        Some(i) => match refs[i] {
            RefModel::Typed { ty, .. } => Some(ty),
            _ => None,
        },
        None => None,
    }
}

/// The type override of a field in a context: that of the first matching
/// reference in the list that decides the field's fate.
pub open spec fn type_override(ctx: ContextModel, name: Seq<u8>, all: Seq<Seq<u8>>) -> Option<
    TypeModel,
> {
    if list_matches(ctx.excluded, name, all) {
        override_in(ctx.excluded, name, all)
    } else if list_matches(ctx.optional, name, all) {
        override_in(ctx.optional, name, all)
    } else if list_matches(ctx.required, name, all) {
        override_in(ctx.required, name, all)
    } else {
        None
    }
}

/// What a field is given by the lists of a context.
#[derive(Clone, Debug, PartialEq, Eq)]
pub struct Mention {
    pub fate: Option<Classification>,
    pub type_override: Option<TypeExpr>,
}

impl TypeExpr {
    /// A copy of this type.
    pub fn duplicate(&self) -> (r: TypeExpr)
        ensures
            r@ == self@,
    {
        TypeExpr { text: copy_text(self.text.as_slice()), optional: self.optional }
    }

    /// This type made optional: itself where it already denotes optionality,
    /// else wrapped in the optional container.
    pub fn wrap_optional(&self) -> (r: TypeExpr)
        ensures
            r@ == wrapped(self@),
    {
        if self.optional {
            self.duplicate()
        } else {
            let mut text = copy_text("::core::option::Option<".as_bytes());
            append_text(&mut text, self.text.as_slice());
            append_text(&mut text, ">".as_bytes());
            TypeExpr { text, optional: true }
        }
    }
}

/// A type made optional.
pub open spec fn wrapped(t: TypeModel) -> TypeModel {
    if t.optional {
        t
    } else {
        TypeModel {
            text: "::core::option::Option<".spec_bytes() + t.text + ">".spec_bytes(),
            optional: true,
        }
    }
}

fn override_at(refs: &Vec<FieldRef>, name: &[u8], all: &Vec<Vec<u8>>) -> (r: (
    bool,
    Option<TypeExpr>,
))
    ensures
        r.0 == list_matches(views(refs@), name@, views(all@)),
        option_view(r.1) == override_in(views(refs@), name@, views(all@)),
{
    match find_match(refs, name, all) {
        Some(i) => match &refs[i] {
            FieldRef::Typed { ty, .. } => (true, Some(ty.duplicate())),
            _ => (true, None),
        },
        None => (false, None),
    }
}

/// Looks a field up in the three lists of a context.
pub fn find_mention(ctx: &Context, name: &[u8], all: &Vec<Vec<u8>>) -> (r: Mention)
    ensures
        r.fate == explicit_fate(ctx@, name@, views(all@)),
        option_view(r.type_override) == type_override(ctx@, name@, views(all@)),
{
    let excluded = override_at(&ctx.excluded, name, all);
    if excluded.0 {
        return Mention { fate: Some(Classification::Excluded), type_override: excluded.1 };
    }
    let optional = override_at(&ctx.optional, name, all);
    if optional.0 {
        return Mention { fate: Some(Classification::Optional), type_override: optional.1 };
    }
    let required = override_at(&ctx.required, name, all);
    if required.0 {
        return Mention { fate: Some(Classification::Required), type_override: required.1 };
    }
    Mention { fate: None, type_override: None }
}

/// Decides the fate of a field in a context.
pub fn classify_field(
    ctx: &Context,
    global: Option<Classification>,
    name: &[u8],
    all: &Vec<Vec<u8>>,
) -> (r: Classification)
    ensures
        r == fate(ctx@, global, name@, views(all@)),
{
    let mention = find_mention(ctx, name, all);
    match mention.fate {
        Some(c) => c,
        None => match ctx.default_behavior {
            Some(c) => c,
            None => match global {
                Some(g) => g,
                None => Classification::Optional,
            },
        },
    }
}

/// A field as one context sees it.
#[derive(Clone, Debug, PartialEq, Eq)]
pub struct ResolvedField {
    pub name: Vec<u8>,
    /// Required or optional; an excluded field has no entry.
    pub classification: Classification,
    pub ty: TypeExpr,
    pub overlay: Vec<Vec<u8>>,
}

/// Model of a [`ResolvedField`].
pub struct ResolvedFieldModel {
    pub name: Seq<u8>,
    pub classification: Classification,
    pub ty: TypeModel,
    pub overlay: Seq<Seq<u8>>,
}

impl View for ResolvedField {
    type V = ResolvedFieldModel;

    open spec fn view(&self) -> ResolvedFieldModel {
        ResolvedFieldModel {
            name: self.name@,
            classification: self.classification,
            ty: self.ty@,
            overlay: views(self.overlay@),
        }
    }
}

/// The type of a field in a context: the override where there is one, else
/// the declared type; made optional where the field is optional.
pub open spec fn effective_type(
    declared: TypeModel,
    type_override: Option<TypeModel>,
    c: Classification,
) -> TypeModel {
    let base = match type_override {
        Some(t) => t,
        None => declared,
    };
    if c == Classification::Optional {
        wrapped(base)
    } else {
        base
    }
}

/// The overlay of a field in a context: the field's own tags for its fate,
/// then the tags that the rules give every field of that fate, unless the
/// field declines them. The field's base-only tags never enter.
pub open spec fn effective_overlay(field: FieldModel, rules: RuleSetModel, c: Classification) -> Seq<
    Seq<u8>,
> {
    let own = if c == Classification::Required {
        field.when_required
    } else {
        field.when_optional
    };
    let shared = if field.skip_defaults {
        Seq::empty()
    } else if c == Classification::Required {
        rules.required_attrs
    } else {
        rules.optional_attrs
    };
    own + shared
}

/// The entry of a field in the table of a context; none where the field is
/// excluded there.
pub open spec fn resolved_field(
    field: FieldModel,
    ctx: ContextModel,
    rules: RuleSetModel,
    all: Seq<Seq<u8>>,
) -> Option<ResolvedFieldModel> {
    let c = fate(ctx, rules.global_default, field.name, all);
    if c == Classification::Excluded {
        None
    } else {
        Some(
            ResolvedFieldModel {
                name: field.name,
                classification: c,
                ty: effective_type(field.ty, type_override(ctx, field.name, all), c),
                overlay: effective_overlay(field, rules, c),
            },
        )
    }
}

/// Computes the entry of a field in the table of a context.
pub fn resolve_field(
    field: &FieldDescriptor,
    ctx: &Context,
    rules: &RuleSet,
    all: &Vec<Vec<u8>>,
) -> (r: Option<ResolvedField>)
    ensures
        option_view(r) == resolved_field(field@, ctx@, rules@, views(all@)),
{
    let mention = find_mention(ctx, field.name.as_slice(), all);
    let c = match mention.fate {
        Some(c) => c,
        None => match ctx.default_behavior {
            Some(c) => c,
            None => match rules.global_default {
                Some(g) => g,
                None => Classification::Optional,
            },
        },
    };
    let required = match c {
        Classification::Excluded => {
            return None;
        },
        Classification::Required => true,
        Classification::Optional => false,
    };
    let base = match mention.type_override {
        Some(t) => t,
        None => field.ty.duplicate(),
    };
    let ty = if required {
        base
    } else {
        base.wrap_optional()
    };
    let mut overlay = if required {
        copy_texts(&field.when_required)
    } else {
        copy_texts(&field.when_optional)
    };
    if !field.skip_defaults {
        if required {
            append_texts(&mut overlay, &rules.required_attrs);
        } else {
            append_texts(&mut overlay, &rules.optional_attrs);
        }
    }
    proof {
        let own = if required {
            field@.when_required
        } else {
            field@.when_optional
        };
        assert(own + Seq::<Seq<u8>>::empty() =~= own);
    }
    Some(ResolvedField { name: copy_text(field.name.as_slice()), classification: c, ty, overlay })
}

} // verus!
