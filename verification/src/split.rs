//! Splitting: from the text of a document to the header and body of each of
//! its sections.

use vstd::prelude::*;
use crate::text::string_of;

verus! {

/// Whether a section delimiter stands at `i`: a line break and two hyphens.
pub open spec fn delimiter_at(s: Seq<char>, i: int) -> bool {
    0 <= i && i + 3 <= s.len() && s[i] == '\n' && s[i + 1] == '-' && s[i + 2] == '-'
}

/// The first index from `from` on at which a delimiter stands, or the length
/// of `s`.
pub open spec fn next_delimiter(s: Seq<char>, from: int) -> int
    decreases s.len() - from,
{
    if 0 <= from < s.len() && !delimiter_at(s, from) {
        next_delimiter(s, from + 1)
    } else {
        from
    }
}

/// The first index from `from` on that holds a line break, or the length of
/// `s`.
pub open spec fn line_end(s: Seq<char>, from: int) -> int
    decreases s.len() - from,
{
    if 0 <= from < s.len() && s[from] != '\n' {
        line_end(s, from + 1)
    } else {
        from
    }
}

/// The header and the body of the section whose text, from behind its
/// delimiter to the next delimiter, is `part`. A line break is put behind
/// `part`; the header is what stands before the first line break, the body
/// what stands behind it. So a section without a body line has an empty body,
/// and every other body ends in a line break.
pub open spec fn chunk_of(part: Seq<char>) -> (Seq<char>, Seq<char>) {
    let whole = part.push('\n');
    let cut = line_end(whole, 0);
    (whole.take(cut), whole.skip(cut + 1))
}

/// The chunks of the sections that begin at the delimiter at `at` or
/// behind it.
pub open spec fn chunks_from(s: Seq<char>, at: int) -> Seq<(Seq<char>, Seq<char>)>
    decreases s.len() - at,
{
    let next = next_delimiter(s, at + 3);
    if delimiter_at(s, at) && at < next <= s.len() {
        seq![chunk_of(s.subrange(at + 3, next))] + chunks_from(s, next)
    } else {
        Seq::empty()
    }
}

/// The header and body of each section of the document `text`, in order. A
/// section begins where a line begins with two hyphens and ends before the
/// next such line; what stands before the first section is left out.
pub open spec fn chunks(text: Seq<char>) -> Seq<(Seq<char>, Seq<char>)> {
    let s = seq!['\n'] + text;
    chunks_from(s, next_delimiter(s, 0))
}

/// `next_delimiter` stays within `s`, and a delimiter stands where it stops
/// before the end.
pub proof fn lemma_next_delimiter(s: Seq<char>, from: int)
    requires
        0 <= from <= s.len(),
    ensures
        from <= next_delimiter(s, from) <= s.len(),
        next_delimiter(s, from) < s.len() ==> delimiter_at(s, next_delimiter(s, from)),
        forall|i: int| from <= i < next_delimiter(s, from) ==> !delimiter_at(s, i),
    decreases s.len() - from,
{
    if from < s.len() && !delimiter_at(s, from) {
        lemma_next_delimiter(s, from + 1);
    }
}

/// `line_end` stays within `s`, a line break stands where it stops before
/// the end, and none stands before that.
pub proof fn lemma_line_end(s: Seq<char>, from: int)
    requires
        0 <= from <= s.len(),
    ensures
        from <= line_end(s, from) <= s.len(),
        line_end(s, from) < s.len() ==> s[line_end(s, from)] == '\n',
        forall|i: int| from <= i < line_end(s, from) ==> s[i] != '\n',
    decreases s.len() - from,
{
    if from < s.len() && s[from] != '\n' {
        lemma_line_end(s, from + 1);
    }
}

/// A line break behind a part goes to the body of its chunk: the header
/// stays, and the body gains the line break.
pub proof fn lemma_chunk_of_longer_part(part: Seq<char>)
    ensures
        chunk_of(part.push('\n')).0 == chunk_of(part).0,
        chunk_of(part.push('\n')).1 == chunk_of(part).1.push('\n'),
{
    let whole = part.push('\n');
    let longer = whole.push('\n');
    lemma_line_end(whole, 0);
    lemma_line_end(longer, 0);
    let cut = line_end(whole, 0);
    let other = line_end(longer, 0);
    if other < cut {
        assert(longer[other] == whole[other]);
    }
    if cut < other {
        assert(longer[cut] == whole[cut]);
    }
    assert(cut == other);
    assert(whole[part.len() as int] == '\n');
    assert(cut <= part.len());
    assert(longer.take(cut) =~= whole.take(cut));
    assert(longer.skip(cut + 1) =~= whole.skip(cut + 1).push('\n'));
}

/// A line break behind a text makes no delimiter and breaks none.
pub proof fn lemma_delimiters_stay(s: Seq<char>, i: int)
    ensures
        delimiter_at(s.push('\n'), i) == delimiter_at(s, i),
{
}

/// The next delimiter of a text is that of the text with a line break
/// behind it, but where there is none: then each search ends at the end of
/// its own text.
pub proof fn lemma_next_delimiter_stays(s: Seq<char>, from: int)
    requires
        0 <= from <= s.len(),
    ensures
        next_delimiter(s, from) < s.len() ==> next_delimiter(s.push('\n'), from) == next_delimiter(
            s,
            from,
        ),
        next_delimiter(s, from) == s.len() ==> next_delimiter(s.push('\n'), from) == s.len() + 1,
    decreases s.len() - from,
{
    let longer = s.push('\n');
    lemma_delimiters_stay(s, from);
    if from < s.len() {
        if !delimiter_at(s, from) {
            lemma_next_delimiter_stays(s, from + 1);
        }
    } else {
        assert(!delimiter_at(longer, from));
        assert(next_delimiter(longer, from + 1) == from + 1);
    }
}

/// The chunks of a text with a line break behind it are those of the text,
/// the last body with one line break more.
pub proof fn lemma_chunks_from_longer(s: Seq<char>, at: int)
    requires
        0 <= at <= s.len(),
    ensures
        chunks_from(s.push('\n'), at).len() == chunks_from(s, at).len(),
        forall|i: int|
            0 <= i < chunks_from(s, at).len() - 1 ==> chunks_from(s.push('\n'), at)[i]
                == chunks_from(s, at)[i],
        chunks_from(s, at).len() > 0 ==> chunks_from(s.push('\n'), at).last() == (
            chunks_from(s, at).last().0,
            chunks_from(s, at).last().1.push('\n'),
        ),
    decreases s.len() - at,
{
    let longer = s.push('\n');
    lemma_delimiters_stay(s, at);
    if delimiter_at(s, at) {
        lemma_next_delimiter(s, at + 3);
        lemma_next_delimiter_stays(s, at + 3);
        let next = next_delimiter(s, at + 3);
        let rest = chunks_from(s, next);
        if next < s.len() {
            lemma_chunks_from_longer(s, next);
            assert(longer.subrange(at + 3, next) =~= s.subrange(at + 3, next));
            let first = seq![chunk_of(s.subrange(at + 3, next))];
            assert(chunks_from(s, at) == first + rest);
            assert(chunks_from(longer, at) == first + chunks_from(longer, next));
            lemma_next_delimiter(s, next + 3);
            assert(rest.len() > 0);
            assert forall|i: int| 0 <= i < chunks_from(s, at).len() - 1 implies chunks_from(
                longer,
                at,
            )[i] == chunks_from(s, at)[i] by {
                if i > 0 {
                    assert(chunks_from(longer, next)[i - 1] == rest[i - 1]);
                }
            }
        } else {
            assert(rest =~= Seq::empty());
            assert(!delimiter_at(longer, next + 1));
            assert(chunks_from(longer, next + 1) =~= Seq::empty());
            assert(longer.subrange(at + 3, next + 1) =~= s.subrange(at + 3, next).push('\n'));
            lemma_chunk_of_longer_part(s.subrange(at + 3, next));
        }
    }
}

/// A line break behind a document changes its last body only. The document
/// `text` and `text` with a line break behind it have the same number of
/// sections, with the same headers and the same bodies, but that the last
/// body has one line break more.
pub proof fn lemma_trailing_newline_chunks(text: Seq<char>)
    ensures
        chunks(text.push('\n')).len() == chunks(text).len(),
        forall|i: int|
            0 <= i < chunks(text).len() - 1 ==> chunks(text.push('\n'))[i] == chunks(text)[i],
        chunks(text).len() > 0 ==> chunks(text.push('\n')).last() == (
            chunks(text).last().0,
            chunks(text).last().1.push('\n'),
        ),
{
    let s = seq!['\n'] + text;
    let longer = seq!['\n'] + text.push('\n');
    assert(longer =~= s.push('\n'));
    lemma_next_delimiter(s, 0);
    lemma_next_delimiter_stays(s, 0);
    let at = next_delimiter(s, 0);
    if at < s.len() {
        lemma_chunks_from_longer(s, at);
    } else {
        assert(!delimiter_at(longer, at + 1));
        assert(chunks_from(longer, at + 1) =~= Seq::empty());
    }
}

/// The index in `v` of the first delimiter from `from` on.
fn find_delimiter(v: &Vec<char>, from: usize) -> (at: usize)
    requires
        from <= v.len(),
    ensures
        at == next_delimiter(v@, from as int),
        from <= at <= v.len(),
        at < v.len() ==> delimiter_at(v@, at as int),
{
    let mut i: usize = from;
    while i < v.len() && !(v.len() - i >= 3 && v[i] == '\n' && v[i + 1] == '-' && v[i + 2] == '-')
        invariant
            from <= i <= v.len(),
            next_delimiter(v@, from as int) == next_delimiter(v@, i as int),
        decreases v.len() - i,
    {
        i += 1;
    }
    i
}

/// The header and the body of the section whose text is `v[from..to]`.
fn cut_chunk(v: &Vec<char>, from: usize, to: usize) -> (chunk: (String, String))
    requires
        from <= to <= v.len(),
    ensures
        chunk.deep_view() == chunk_of(v@.subrange(from as int, to as int)),
{
    let ghost part = v@.subrange(from as int, to as int);
    let ghost whole = part.push('\n');
    let mut i: usize = from;
    while i < to && v[i] != '\n'
        invariant
            from <= i <= to <= v.len(),
            part == v@.subrange(from as int, to as int),
            whole == part.push('\n'),
            line_end(whole, 0) == line_end(whole, i - from),
        decreases to - i,
    {
        assert(whole[i - from] == v@[i as int]);
        i += 1;
    }
    proof {
        if i < to {
            assert(whole[i - from] == v@[i as int]);
        } else {
            assert(whole[i - from] == '\n');
        }
        assert(line_end(whole, 0) == i - from);
    }
    let header = string_of(v, from, i);
    assert(header@ =~= whole.take(i - from));
    if i < to {
        let mut body = string_of(v, i + 1, to);
        body.push('\n');
        assert(body@ =~= whole.skip(i - from + 1));
        (header, body)
    } else {
        let body = String::new();
        assert(body@ =~= whole.skip(i - from + 1));
        (header, body)
    }
}

/// The header and body of each section of the document `text`, in order.
pub fn split_chunks(text: &str) -> (list: Vec<(String, String)>)
    ensures
        list.deep_view() == chunks(text@),
{
    let mut v: Vec<char> = Vec::new();
    v.push('\n');
    for c in it: text.chars()
        invariant
            it.seq() == text@,
            v@ == seq!['\n'] + it.seq().take(it.index() as int),
    {
        v.push(c);
    }
    assert(v@ == seq!['\n'] + text@);
    let mut list: Vec<(String, String)> = Vec::new();
    let mut at = find_delimiter(&v, 0);
    loop
        invariant
            at <= v.len(),
            at == v.len() || delimiter_at(v@, at as int),
            chunks_from(v@, next_delimiter(v@, 0)) == list.deep_view() + chunks_from(
                v@,
                at as int,
            ),
        ensures
            chunks_from(v@, next_delimiter(v@, 0)) == list.deep_view(),
        decreases v.len() - at,
    {
        if at >= v.len() {
            assert(chunks_from(v@, at as int) =~= Seq::empty());
            break;
        }
        let next = find_delimiter(&v, at + 3);
        let chunk = cut_chunk(&v, at + 3, next);
        let ghost before = list.deep_view();
        list.push(chunk);
        proof {
            lemma_next_delimiter(v@, at + 3);
            assert(list.deep_view() =~= before + seq![
                chunk_of(v@.subrange(at + 3, next as int)),
            ]);
        }
        at = next;
    }
    list
}

} // verus!
