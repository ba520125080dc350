//! Byte strings: comparison, search, copying and joining.

use vstd::prelude::*;

verus! {

/// The views of the elements of a sequence, in order.
pub open spec fn views<T: View>(s: Seq<T>) -> Seq<T::V> {
    Seq::new(s.len(), |i: int| s[i]@)
}

/// The view of what an option holds.
pub open spec fn option_view<T: View>(o: Option<T>) -> Option<T::V> {
    match o {
        Some(t) => Some(t@),
        None => None,
    }
}

/// Viewing a concatenation is concatenating the views.
pub proof fn lemma_views_concat<T: View>(a: Seq<T>, b: Seq<T>)
    ensures
        views(a + b) == views(a) + views(b),
{
    assert(views(a + b) =~= views(a) + views(b));
}

/// Whether two byte strings hold the same bytes.
pub fn bytes_eq(a: &[u8], b: &[u8]) -> (r: bool)
    ensures
        r == (a@ == b@),
{
    if a.len() != b.len() {
        return false;
    }
    let mut i: usize = 0;
    while i < a.len()
        invariant
            i <= a.len(),
            a.len() == b.len(),
            forall|j: int| 0 <= j < i ==> a@[j] == b@[j],
        decreases a.len() - i,
    {
        if a[i] != b[i] {
            return false;
        }
        i = i + 1;
    }
    assert(a@ =~= b@);
    true
}

/// Whether the list holds the given byte string.
pub fn contains_text(list: &Vec<Vec<u8>>, item: &[u8]) -> (r: bool)
    ensures
        r == views(list@).contains(item@),
{
    let mut i: usize = 0;
    while i < list.len()
        invariant
            i <= list.len(),
            forall|j: int| 0 <= j < i ==> views(list@)[j] != item@,
        decreases list.len() - i,
    {
        if bytes_eq(list[i].as_slice(), item) {
            assert(views(list@)[i as int] == item@);
            return true;
        }
        i = i + 1;
    }
    false
}

/// A copy of a byte string.
pub fn copy_text(src: &[u8]) -> (r: Vec<u8>)
    ensures
        r@ == src@,
{
    let mut out: Vec<u8> = Vec::new();
    let mut i: usize = 0;
    while i < src.len()
        invariant
            i <= src.len(),
            out@ == src@.subrange(0, i as int),
        decreases src.len() - i,
    {
        out.push(src[i]);
        assert(out@ =~= src@.subrange(0, i + 1));
        i = i + 1;
    }
    assert(out@ =~= src@);
    out
}

/// Appends the bytes of `src` to `dst`.
pub fn append_text(dst: &mut Vec<u8>, src: &[u8])
    ensures
        final(dst)@ == old(dst)@ + src@,
{
    let mut i: usize = 0;
    while i < src.len()
        invariant
            i <= src.len(),
            dst@ == old(dst)@ + src@.subrange(0, i as int),
        decreases src.len() - i,
    {
        dst.push(src[i]);
        assert(dst@ =~= old(dst)@ + src@.subrange(0, i + 1));
        i = i + 1;
    }
    assert(dst@ =~= old(dst)@ + src@);
}

/// Appends a copy of each byte string of `src` to `dst`.
pub fn append_texts(dst: &mut Vec<Vec<u8>>, src: &Vec<Vec<u8>>)
    ensures
        views(final(dst)@) == views(old(dst)@) + views(src@),
{
    let mut i: usize = 0;
    while i < src.len()
        invariant
            i <= src.len(),
            views(dst@) == views(old(dst)@) + views(src@).subrange(0, i as int),
        decreases src.len() - i,
    {
        let item = copy_text(src[i].as_slice());
        let ghost before = dst@;
        dst.push(item);
        proof {
            assert(views(dst@) =~= views(before).push(src@[i as int]@));
            assert(views(src@).subrange(0, i + 1) =~= views(src@).subrange(0, i as int).push(
                src@[i as int]@,
            ));
        }
        i = i + 1;
    }
    assert(views(dst@) =~= views(old(dst)@) + views(src@));
}

/// A copy of a list of byte strings.
pub fn copy_texts(src: &Vec<Vec<u8>>) -> (r: Vec<Vec<u8>>)
    ensures
        views(r@) == views(src@),
{
    let mut out: Vec<Vec<u8>> = Vec::new();
    append_texts(&mut out, src);
    assert(views(out@) =~= views(src@));
    out
}

/// The byte strings of `items` in order, with `sep` between neighbours.
pub open spec fn joined(items: Seq<Seq<u8>>, sep: Seq<u8>) -> Seq<u8>
    decreases items.len(),
{
    if items.len() == 0 {
        Seq::empty()
    } else if items.len() == 1 {
        items[0]
    } else {
        joined(items.drop_last(), sep) + sep + items.last()
    }
}

/// Joins the byte strings of `items` with `sep` between neighbours.
pub fn join_texts(items: &Vec<Vec<u8>>, sep: &[u8]) -> (r: Vec<u8>)
    ensures
        r@ == joined(views(items@), sep@),
{
    let mut out: Vec<u8> = Vec::new();
    let mut i: usize = 0;
    while i < items.len()
        invariant
            i <= items.len(),
            out@ == joined(views(items@).subrange(0, i as int), sep@),
        decreases items.len() - i,
    {
        let ghost before = views(items@).subrange(0, i as int);
        let ghost after = views(items@).subrange(0, i + 1);
        if i > 0 {
            append_text(&mut out, sep);
        }
        append_text(&mut out, items[i].as_slice());
        proof {
            assert(after.drop_last() =~= before);
            assert(after.last() == items@[i as int]@);
            if i == 0 {
                assert(out@ =~= after[0]);
            }
        }
        i = i + 1;
    }
    assert(views(items@).subrange(0, i as int) =~= views(items@));
    out
}

} // verus!
