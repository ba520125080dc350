//! The data of a resolution: fields, references, contexts, groups and rules,
//! each with the mathematical model that the contracts speak of.

use vstd::prelude::*;
use crate::text::{option_view, views};

verus! {

/// The fate of one field in one context.
#[derive(Clone, Copy, Debug, PartialEq, Eq, Structural)]
pub enum Classification {
    Required,
    Optional,
    Excluded,
}

/// A type as the rule source or the entity writes it, with the knowledge of
/// whether it already denotes optionality.
#[derive(Clone, Debug, PartialEq, Eq)]
pub struct TypeExpr {
    pub text: Vec<u8>,
    pub optional: bool,
}

/// Model of a [`TypeExpr`].
pub struct TypeModel {
    pub text: Seq<u8>,
    pub optional: bool,
}

impl View for TypeExpr {
    type V = TypeModel;

    open spec fn view(&self) -> TypeModel {
        TypeModel { text: self.text@, optional: self.optional }
    }
}

/// One declared field of the entity.
#[derive(Clone, Debug, PartialEq, Eq)]
pub struct FieldDescriptor {
    pub name: Vec<u8>,
    pub ty: TypeExpr,
    /// Tags that belong to the unmodified entity record alone.
    pub base_only: Vec<Vec<u8>>,
    /// Tags added where the field is required.
    pub when_required: Vec<Vec<u8>>,
    /// Tags added where the field is optional.
    pub when_optional: Vec<Vec<u8>>,
    /// Whether the field declines the tags that the rules give to every
    /// required or optional field.
    pub skip_defaults: bool,
}

/// Model of a [`FieldDescriptor`].
pub struct FieldModel {
    pub name: Seq<u8>,
    pub ty: TypeModel,
    pub base_only: Seq<Seq<u8>>,
    pub when_required: Seq<Seq<u8>>,
    pub when_optional: Seq<Seq<u8>>,
    pub skip_defaults: bool,
}

impl View for FieldDescriptor {
    type V = FieldModel;

    open spec fn view(&self) -> FieldModel {
        FieldModel {
            name: self.name@,
            ty: self.ty@,
            base_only: views(self.base_only@),
            when_required: views(self.when_required@),
            when_optional: views(self.when_optional@),
            skip_defaults: self.skip_defaults,
        }
    }
}

/// A reference to fields inside a rule.
#[derive(Clone, Debug, PartialEq, Eq)]
pub enum FieldRef {
    /// One field by its name. Before group expansion the name may be that of
    /// a group.
    Field { name: Vec<u8> },
    /// One field by its name, with the type it takes in this context.
    Typed { name: Vec<u8>, ty: TypeExpr },
    /// Every declared field but the named ones.
    AllFields { except: Vec<Vec<u8>> },
    /// The members of a named group but the named ones.
    Group { name: Vec<u8>, except: Vec<Vec<u8>>, position: usize },
}

/// Model of a [`FieldRef`].
pub enum RefModel {
    Field { name: Seq<u8> },
    Typed { name: Seq<u8>, ty: TypeModel },
    AllFields { except: Seq<Seq<u8>> },
    Group { name: Seq<u8>, except: Seq<Seq<u8>>, position: usize },
}

impl View for FieldRef {
    type V = RefModel;

    open spec fn view(&self) -> RefModel {
        match self {
            FieldRef::Field { name } => RefModel::Field { name: name@ },
            FieldRef::Typed { name, ty } => RefModel::Typed { name: name@, ty: ty@ },
            FieldRef::AllFields { except } => RefModel::AllFields { except: views(except@) },
            FieldRef::Group { name, except, position } => RefModel::Group {
                name: name@,
                except: views(except@),
                position: *position,
            },
        }
    }
}

/// A named, reusable list of field references. Its members are literal
/// names and wildcards; a group does not refer to another group.
#[derive(Clone, Debug, PartialEq, Eq)]
pub struct FieldGroup {
    pub name: Vec<u8>,
    pub members: Vec<FieldRef>,
}

/// Model of a [`FieldGroup`].
pub struct GroupModel {
    pub name: Seq<u8>,
    pub members: Seq<RefModel>,
}

impl View for FieldGroup {
    type V = GroupModel;

    open spec fn view(&self) -> GroupModel {
        GroupModel { name: self.name@, members: views(self.members@) }
    }
}

/// A named use case with its three lists of references.
#[derive(Clone, Debug, PartialEq, Eq)]
pub struct Context {
    pub name: Vec<u8>,
    pub required: Vec<FieldRef>,
    pub optional: Vec<FieldRef>,
    pub excluded: Vec<FieldRef>,
    /// The fate of a field that no list mentions, where the context sets one.
    pub default_behavior: Option<Classification>,
    /// Whether the context was declared with a rule chain. A context declared
    /// by its bare name has none, and leaves every field to the defaults.
    pub has_chain: bool,
    /// Where the declaration ends in the rule source; diagnostics point here.
    pub end_position: usize,
}

/// Model of a [`Context`].
pub struct ContextModel {
    pub name: Seq<u8>,
    pub required: Seq<RefModel>,
    pub optional: Seq<RefModel>,
    pub excluded: Seq<RefModel>,
    pub default_behavior: Option<Classification>,
    pub has_chain: bool,
    pub end_position: usize,
}

impl View for Context {
    type V = ContextModel;

    open spec fn view(&self) -> ContextModel {
        ContextModel {
            name: self.name@,
            required: views(self.required@),
            optional: views(self.optional@),
            excluded: views(self.excluded@),
            default_behavior: self.default_behavior,
            has_chain: self.has_chain,
            end_position: self.end_position,
        }
    }
}

/// Everything a rule source declares.
#[derive(Clone, Debug, PartialEq, Eq)]
pub struct RuleSet {
    pub contexts: Vec<Context>,
    pub groups: Vec<FieldGroup>,
    /// The fate of an unmentioned field in a context without a default.
    pub global_default: Option<Classification>,
    /// What stands before a context's name in the name of its record.
    pub prefix: Option<Vec<u8>>,
    /// What stands after it.
    pub suffix: Option<Vec<u8>>,
    /// Whether the unmodified entity record is emitted too.
    pub build_base: bool,
    /// Whether the fields of that record are each made optional.
    pub optional_base: bool,
    /// Tags for every optional field that does not decline them.
    pub optional_attrs: Vec<Vec<u8>>,
    /// Tags for every required field that does not decline them.
    pub required_attrs: Vec<Vec<u8>>,
}

/// Model of a [`RuleSet`].
pub struct RuleSetModel {
    pub contexts: Seq<ContextModel>,
    pub groups: Seq<GroupModel>,
    pub global_default: Option<Classification>,
    pub prefix: Option<Seq<u8>>,
    pub suffix: Option<Seq<u8>>,
    pub build_base: bool,
    pub optional_base: bool,
    pub optional_attrs: Seq<Seq<u8>>,
    pub required_attrs: Seq<Seq<u8>>,
}

impl View for RuleSet {
    type V = RuleSetModel;

    open spec fn view(&self) -> RuleSetModel {
        RuleSetModel {
            contexts: views(self.contexts@),
            groups: views(self.groups@),
            global_default: self.global_default,
            prefix: option_view(self.prefix),
            suffix: option_view(self.suffix),
            build_base: self.build_base,
            optional_base: self.optional_base,
            optional_attrs: views(self.optional_attrs@),
            required_attrs: views(self.required_attrs@),
        }
    }
}

/// The names of the fields, in declaration order.
pub open spec fn names_of(fields: Seq<FieldModel>) -> Seq<Seq<u8>> {
    Seq::new(fields.len(), |i: int| fields[i].name)
}

} // verus!
