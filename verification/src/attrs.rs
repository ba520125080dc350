//! Which attributes of the entity record stay with it alone: an attribute
//! is held back from the records of the contexts where its path matches one
//! of the patterns that the entity names as base-only.

use vstd::prelude::*;
use vstd::string::StringSliceAdditionalSpecFns;
use crate::text::{append_text, bytes_eq, copy_text, views};

verus! {

/// Whether `text` ends in `tail`.
pub open spec fn ends_with(text: Seq<u8>, tail: Seq<u8>) -> bool {
    text.len() >= tail.len() && text.subrange(text.len() - tail.len(), text.len() as int) == tail
}

/// Whether the path of an attribute matches a pattern: the path is the
/// pattern, or ends in the pattern after a path separator.
pub open spec fn pattern_matches(path: Seq<u8>, pattern: Seq<u8>) -> bool {
    path == pattern || ends_with(path, "::".spec_bytes() + pattern)
}

/// Whether the path of an attribute matches one of the patterns.
pub open spec fn held_back(path: Seq<u8>, patterns: Seq<Seq<u8>>) -> bool {
    exists|i: int| 0 <= i < patterns.len() && pattern_matches(path, #[trigger] patterns[i])
}

/// Whether the path of an attribute matches a pattern.
pub fn attr_matches_pattern(path: &[u8], pattern: &[u8]) -> (r: bool)
    ensures
        r == pattern_matches(path@, pattern@),
{
    if bytes_eq(path, pattern) {
        return true;
    }
    let mut tail = copy_text("::".as_bytes());
    append_text(&mut tail, pattern);
    if path.len() < tail.len() {
        return false;
    }
    let end = vstd::slice::slice_subrange(path, path.len() - tail.len(), path.len());
    bytes_eq(end, tail.as_slice())
}

/// Whether an attribute with the given path is held back from the records
/// of the contexts.
pub fn should_exclude_from_variants(path: &[u8], base_only: &Vec<Vec<u8>>) -> (r: bool)
    ensures
        r == held_back(path@, views(base_only@)),
{
    let mut i: usize = 0;
    while i < base_only.len()
        invariant
            i <= base_only.len(),
            forall|j: int| 0 <= j < i ==> !pattern_matches(path@, #[trigger] views(base_only@)[j]),
        decreases base_only.len() - i,
    {
        if attr_matches_pattern(path, base_only[i].as_slice()) {
            assert(pattern_matches(path@, views(base_only@)[i as int]));
            return true;
        }
        i = i + 1;
    }
    false
}

} // verus!
