//! What this library takes from Rust's own syntax: the value of a string
//! literal and the last segment of a type path. Both are read by `syn`; the
//! contracts here are believed, not proved.

use vstd::prelude::*;
use vstd::string::StringSliceAdditionalSpecFns;
use crate::text::{bytes_eq, option_view};

verus! {

/// The string that `syn` reads from the text of a string literal; none where
/// the text is not one string literal.
pub uninterp spec fn literal_value(text: Seq<u8>) -> Option<Seq<u8>>;

/// What `syn` finds at the end of a type: nothing where the text is not a
/// Rust type; else the identifier of the last segment of the path, where the
/// type is a path with a segment.
pub uninterp spec fn type_tail(text: Seq<u8>) -> Option<Option<Seq<u8>>>;

/// The view of a type's tail.
pub open spec fn tail_view(tail: Option<Option<Vec<u8>>>) -> Option<Option<Seq<u8>>> {
    match tail {
        Some(inner) => Some(option_view(inner)),
        None => None,
    }
}

/// Calls `syn::parse_str` for a `syn::LitStr` and then `LitStr::value`.
///
/// Claimed: the result is a function of the text alone. Nothing is claimed
/// of which texts are literals or of what their values are.
#[verifier::external_body]
pub(crate) fn decode_literal(text: &[u8]) -> (r: Option<Vec<u8>>)
    ensures
        option_view(r) == literal_value(text@),
{
    let source = std::str::from_utf8(text).ok()?;
    let literal = syn::parse_str::<syn::LitStr>(source).ok()?;
    Some(literal.value().into_bytes())
}

/// Calls `syn::parse_str` for a `syn::Type` and, where the type is a path,
/// takes the identifier of its last segment.
///
/// Claimed: the result is a function of the text alone. Nothing is claimed
/// of which texts are types or of what their paths are.
#[verifier::external_body]
pub(crate) fn read_type_tail(text: &[u8]) -> (r: Option<Option<Vec<u8>>>)
    ensures
        tail_view(r) == type_tail(text@),
{
    let source = std::str::from_utf8(text).ok()?;
    match syn::parse_str::<syn::Type>(source).ok()? {
        syn::Type::Path(p) => Some(p.path.segments.last().map(|s| s.ident.to_string().into_bytes())),
        _ => Some(None),
    }
}

/// Whether a type with the given tail denotes optionality: its path ends in
/// `Option`.
pub open spec fn tail_is_option(tail: Option<Option<Seq<u8>>>) -> bool {
    tail == Some(Some("Option".spec_bytes()))
}

/// Decides from the tail of a type whether the type denotes optionality.
pub fn option_tail(tail: &Option<Option<Vec<u8>>>) -> (r: bool)
    ensures
        r == tail_is_option(tail_view(*tail)),
{
    match tail {
        Some(Some(name)) => bytes_eq(name.as_slice(), "Option".as_bytes()),
        _ => false,
    }
}

/// Whether the text is a Rust type that denotes optionality: a path whose
/// last segment is `Option`.
pub fn is_option_type(text: &[u8]) -> (r: bool)
    ensures
        r == tail_is_option(type_tail(text@)),
{
    let tail = read_type_tail(text);
    option_tail(&tail)
}

} // verus!
