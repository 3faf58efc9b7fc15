//! Reference paths and their parents. A path is read as a file path is read
//! where `/` separates: by its components.

use vstd::prelude::*;
use crate::text::chars_of;

verus! {

/// Where the segment that begins at `from` ends: the first index from `from`
/// on that holds a slash, or the length of `p`.
pub open spec fn segment_end(p: Seq<char>, from: int) -> int
    decreases p.len() - from,
{
    if 0 <= from < p.len() && p[from] != '/' {
        segment_end(p, from + 1)
    } else {
        from
    }
}

/// Whether a segment names nothing: it is empty, or a single dot.
pub open spec fn idle(segment: Seq<char>) -> bool {
    segment.len() == 0 || segment == seq!['.']
}

/// The segments of `p` from `from` on that name something, in order.
pub open spec fn names_from(p: Seq<char>, from: int) -> Seq<Seq<char>>
    decreases p.len() - from,
{
    let end = segment_end(p, from);
    if 0 <= from <= end <= p.len() && from < p.len() {
        let rest = if end < p.len() {
            names_from(p, end + 1)
        } else {
            Seq::empty()
        };
        if idle(p.subrange(from, end)) {
            rest
        } else {
            seq![p.subrange(from, end)] + rest
        }
    } else {
        Seq::empty()
    }
}

/// What a path begins with besides names: a root, written `/`, where its
/// first character is a slash; the current directory, written `.`, where it
/// is a dot by itself or begins with a dot and a slash; else nothing.
pub open spec fn lead(p: Seq<char>) -> Seq<Seq<char>> {
    if p.len() > 0 && p[0] == '/' {
        seq![seq!['/']]
    } else if p.len() > 0 && p[0] == '.' && (p.len() == 1 || p[1] == '/') {
        seq![seq!['.']]
    } else {
        Seq::empty()
    }
}

/// The components of a path: its lead, then the segments between its
/// slashes that name something. Empty segments and single dots name nothing,
/// so `a//b`, `a/./b` and `a/b/` all have the components `a` and `b`.
pub open spec fn components(p: Seq<char>) -> Seq<Seq<char>> {
    lead(p) + names_from(p, 0)
}

/// The components of the parent of a path: those of the path without the
/// last. A path without components has no parent, and neither has the root.
pub open spec fn parent(p: Seq<char>) -> Option<Seq<Seq<char>>> {
    let all = components(p);
    if all.len() == 0 || all.last() == seq!['/'] {
        None
    } else {
        Some(all.drop_last())
    }
}

/// The texts of a list of character vectors.
pub open spec fn texts(list: Seq<Vec<char>>) -> Seq<Seq<char>> {
    Seq::new(list.len(), |i: int| list[i]@)
}

/// The index in `v` of the first slash from `from` on.
fn find_slash(v: &Vec<char>, from: usize) -> (at: usize)
    requires
        from <= v.len(),
    ensures
        at == segment_end(v@, from as int),
        from <= at <= v.len(),
{
    let mut i: usize = from;
    while i < v.len() && v[i] != '/'
        invariant
            from <= i <= v.len(),
            segment_end(v@, from as int) == segment_end(v@, i as int),
        decreases v.len() - i,
    {
        i += 1;
    }
    i
}

/// The characters `v[from..to]`.
fn slice_of(v: &Vec<char>, from: usize, to: usize) -> (part: Vec<char>)
    requires
        from <= to <= v.len(),
    ensures
        part@ == v@.subrange(from as int, to as int),
{
    let mut part: Vec<char> = Vec::new();
    let mut i: usize = from;
    while i < to
        invariant
            from <= i <= to <= v.len(),
            part@ == v@.subrange(from as int, i as int),
        decreases to - i,
    {
        part.push(v[i]);
        i += 1;
    }
    part
}

/// The components of the path `p`.
pub fn components_of(p: &str) -> (list: Vec<Vec<char>>)
    ensures
        texts(list@) == components(p@),
{
    let v = chars_of(p);
    let mut list: Vec<Vec<char>> = Vec::new();
    if v.len() > 0 && v[0] == '/' {
        let mut root: Vec<char> = Vec::new();
        root.push('/');
        list.push(root);
    } else if v.len() > 0 && v[0] == '.' && (v.len() == 1 || v[1] == '/') {
        let mut here: Vec<char> = Vec::new();
        here.push('.');
        list.push(here);
    }
    assert(texts(list@) =~= lead(v@));
    let mut i: usize = 0;
    loop
        invariant
            v@ == p@,
            i <= v.len(),
            components(p@) == texts(list@) + names_from(v@, i as int),
        ensures
            components(p@) == texts(list@),
        decreases v.len() - i,
    {
        if i >= v.len() {
            assert(names_from(v@, i as int) =~= Seq::empty());
            break;
        }
        let end = find_slash(&v, i);
        let is_idle = end == i || (end == i + 1 && v[i] == '.');
        proof {
            let segment = v@.subrange(i as int, end as int);
            if end == i + 1 && v[i as int] == '.' {
                assert(segment =~= seq!['.']);
            }
            if segment == seq!['.'] {
                assert(segment.len() == 1);
                assert(segment[0] == '.');
            }
            assert(is_idle == idle(segment));
        }
        if !is_idle {
            let ghost before = texts(list@);
            let part = slice_of(&v, i, end);
            list.push(part);
            assert(texts(list@) =~= before + seq![v@.subrange(i as int, end as int)]);
        }
        if end >= v.len() {
            i = v.len();
            assert(names_from(v@, i as int) =~= Seq::empty());
        } else {
            i = end + 1;
        }
    }
    list
}

/// Whether `a` and `b` hold the same characters.
fn same_chars(a: &Vec<char>, b: &Vec<char>) -> (same: bool)
    ensures
        same == (a@ == b@),
{
    if a.len() != b.len() {
        return false;
    }
    let mut i: usize = 0;
    while i < a.len()
        invariant
            a.len() == b.len(),
            i <= a.len(),
            forall|j: int| 0 <= j < i ==> a@[j] == b@[j],
        decreases a.len() - i,
    {
        if a[i] != b[i] {
            return false;
        }
        i += 1;
    }
    assert(a@ =~= b@);
    true
}

/// Whether the list of components has a parent: it is not empty and does not
/// end in the root.
fn has_parent(list: &Vec<Vec<char>>) -> (yes: bool)
    ensures
        yes == !(texts(list@).len() == 0 || texts(list@).last() == seq!['/']),
{
    if list.len() == 0 {
        return false;
    }
    let last = &list[list.len() - 1];
    assert(texts(list@).last() == last@);
    let is_root = last.len() == 1 && last[0] == '/';
    proof {
        if is_root {
            assert(last@ =~= seq!['/']);
        }
        if last@ == seq!['/'] {
            assert(last@.len() == 1);
            assert(last@[0] == '/');
        }
    }
    !is_root
}

/// Whether the paths `a` and `b` have the same parent: both have none, or
/// the components of the two parents are the same.
pub fn same_parent(a: &str, b: &str) -> (same: bool)
    ensures
        same == (parent(a@) == parent(b@)),
{
    let x = components_of(a);
    let y = components_of(b);
    let x_has = has_parent(&x);
    let y_has = has_parent(&y);
    if !x_has || !y_has {
        return !x_has && !y_has;
    }
    if x.len() != y.len() {
        proof {
            if parent(a@) == parent(b@) {
                assert(components(a@).drop_last().len() == components(b@).drop_last().len());
            }
        }
        return false;
    }
    let mut i: usize = 0;
    while i + 1 < x.len()
        invariant
            x.len() == y.len(),
            x.len() > 0,
            i + 1 <= x.len(),
            texts(x@) == components(a@),
            texts(y@) == components(b@),
            parent(a@) == Some(components(a@).drop_last()),
            parent(b@) == Some(components(b@).drop_last()),
            forall|j: int| 0 <= j < i ==> x@[j]@ == y@[j]@,
        decreases x.len() - i,
    {
        if !same_chars(&x[i], &y[i]) {
            proof {
                if parent(a@) == parent(b@) {
                    assert(components(a@).drop_last()[i as int] == texts(x@)[i as int]);
                    assert(components(b@).drop_last()[i as int] == texts(y@)[i as int]);
                }
            }
            return false;
        }
        i += 1;
    }
    proof {
        let left = components(a@).drop_last();
        let right = components(b@).drop_last();
        assert forall|j: int| 0 <= j < left.len() implies left[j] == right[j] by {
            assert(left[j] == texts(x@)[j]);
            assert(right[j] == texts(y@)[j]);
        }
        assert(left =~= right);
    }
    true
}

} // verus!
