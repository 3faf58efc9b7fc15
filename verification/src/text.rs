//! Text as sequences of characters: the comparisons, searches and cuts that
//! the section parser and the evaluator are built from.

use vstd::prelude::*;
use vstd::std_specs::iter::IteratorSpec;

verus! {

/// Whether `c` is white space: whether it has the Unicode property
/// `White_Space`. These are the characters U+0009 to U+000D, U+0020,
/// U+0085, U+00A0, U+1680, U+2000 to U+200A, U+2028, U+2029, U+202F, U+205F
/// and U+3000.
pub open spec fn white_space(c: char) -> bool {
    ||| '\u{9}' <= c <= '\u{d}'
    ||| c == '\u{20}'
    ||| c == '\u{85}'
    ||| c == '\u{a0}'
    ||| c == '\u{1680}'
    ||| '\u{2000}' <= c <= '\u{200a}'
    ||| c == '\u{2028}'
    ||| c == '\u{2029}'
    ||| c == '\u{202f}'
    ||| c == '\u{205f}'
    ||| c == '\u{3000}'
}

/// The lower-case form of `s`, as `str::to_lowercase` computes it.
pub uninterp spec fn lowercased(s: Seq<char>) -> Seq<char>;

/// `char::is_whitespace` of std answers by the Unicode property
/// `White_Space`, whose characters `white_space` lists.
pub assume_specification[ char::is_whitespace ](c: char) -> (b: bool)
    ensures
        b == white_space(c),
;

/// `str::to_lowercase` of std: the string it returns is named `lowercased`.
pub assume_specification[ str::to_lowercase ](s: &str) -> (lower: std::string::String)
    ensures
        lower@ == lowercased(s@),
;

/// `String::push` of std appends one character.
pub assume_specification[ std::string::String::push ](s: &mut std::string::String, c: char)
    ensures
        final(s)@ == old(s)@.push(c),
;

/// The characters of `s`, in order.
pub fn chars_of(s: &str) -> (v: Vec<char>)
    ensures
        v@ == s@,
{
    let mut v: Vec<char> = Vec::new();
    for c in it: s.chars()
        invariant
            it.seq() == s@,
            v@ == it.seq().take(it.index() as int),
    {
        v.push(c);
    }
    v
}

/// The string made of the characters `v[from..to]`.
pub(crate) fn string_of(v: &Vec<char>, from: usize, to: usize) -> (s: String)
    requires
        from <= to <= v.len(),
    ensures
        s@ == v@.subrange(from as int, to as int),
{
    let mut s = String::new();
    let mut i: usize = from;
    while i < to
        invariant
            from <= i <= to <= v.len(),
            s@ == v@.subrange(from as int, i as int),
        decreases to - i,
    {
        s.push(v[i]);
        i += 1;
    }
    s
}

/// Whether `a` and `b` hold the same characters.
pub fn same_text(a: &str, b: &str) -> (same: bool)
    ensures
        same == (a@ == b@),
{
    let mut x = a.chars();
    let mut y = b.chars();
    let ghost mut n: int = 0;
    loop
        invariant
            x.obeys_prophetic_iter_laws(),
            y.obeys_prophetic_iter_laws(),
            x.decrease() is Some,
            0 <= n <= a@.len(),
            n <= b@.len(),
            x.remaining() == a@.skip(n),
            y.remaining() == b@.skip(n),
            a@.take(n) == b@.take(n),
        decreases x.decrease()->0,
    {
        let p = x.next();
        let q = y.next();
        match (p, q) {
            (Some(c), Some(d)) => {
                if c != d {
                    return false;
                }
                proof {
                    assert(a@.take(n + 1) == a@.take(n).push(a@[n]));
                    assert(b@.take(n + 1) == b@.take(n).push(b@[n]));
                    n = n + 1;
                }
            },
            (None, None) => {
                proof {
                    assert(a@ == a@.take(n));
                    assert(b@ == b@.take(n));
                }
                return true;
            },
            _ => {
                return false;
            },
        }
    }
}

/// Whether `s` begins with `prefix`.
pub fn begins_with(s: &str, prefix: &str) -> (yes: bool)
    ensures
        yes == prefix@.is_prefix_of(s@),
{
    let mut x = prefix.chars();
    let mut y = s.chars();
    let ghost mut n: int = 0;
    loop
        invariant
            x.obeys_prophetic_iter_laws(),
            y.obeys_prophetic_iter_laws(),
            x.decrease() is Some,
            0 <= n <= prefix@.len(),
            n <= s@.len(),
            x.remaining() == prefix@.skip(n),
            y.remaining() == s@.skip(n),
            prefix@.take(n) == s@.take(n),
        decreases x.decrease()->0,
    {
        let p = x.next();
        match p {
            Some(c) => {
                let q = y.next();
                match q {
                    Some(d) => {
                        if c != d {
                            proof {
                                if prefix@.is_prefix_of(s@) {
                                    assert(s@.subrange(0, prefix@.len() as int)[n] == s@[n]);
                                }
                            }
                            return false;
                        }
                        proof {
                            assert(prefix@.take(n + 1) == prefix@.take(n).push(prefix@[n]));
                            assert(s@.take(n + 1) == s@.take(n).push(s@[n]));
                            n = n + 1;
                        }
                    },
                    None => {
                        return false;
                    },
                }
            },
            None => {
                proof {
                    assert(prefix@ == prefix@.take(n));
                }
                return true;
            },
        }
    }
}

/// Whether `s` ends with `suffix`.
pub fn ends_with(s: &str, suffix: &str) -> (yes: bool)
    ensures
        yes == suffix@.is_suffix_of(s@),
{
    let text = chars_of(s);
    let tail = chars_of(suffix);
    if tail.len() > text.len() {
        return false;
    }
    let shift: usize = text.len() - tail.len();
    let mut i: usize = 0;
    while i < tail.len()
        invariant
            shift + tail.len() == text.len(),
            i <= tail.len(),
            text@ == s@,
            tail@ == suffix@,
            forall|j: int| 0 <= j < i ==> tail@[j] == text@[shift + j],
        decreases tail.len() - i,
    {
        if tail[i] != text[shift + i] {
            proof {
                if suffix@.is_suffix_of(s@) {
                    assert(s@.subrange(shift as int, s@.len() as int)[i as int] == s@[shift + i]);
                }
            }
            return false;
        }
        i += 1;
    }
    assert(suffix@ =~= s@.subrange(s@.len() - suffix@.len(), s@.len() as int));
    true
}

/// `a` followed by `b`.
pub fn joined(a: &str, b: &str) -> (s: String)
    ensures
        s@ == a@ + b@,
{
    let mut s = String::new();
    for c in it: a.chars()
        invariant
            it.seq() == a@,
            s@ == it.seq().take(it.index() as int),
    {
        s.push(c);
    }
    assert(s@ == a@);
    for c in it: b.chars()
        invariant
            it.seq() == b@,
            s@ == a@ + it.seq().take(it.index() as int),
    {
        s.push(c);
    }
    s
}

/// Where the white space that begins at `from` ends: the first index from
/// `from` on that holds no white space, or the length of `s`.
pub open spec fn space_end(s: Seq<char>, from: int) -> int
    decreases s.len() - from,
{
    if 0 <= from < s.len() && white_space(s[from]) {
        space_end(s, from + 1)
    } else {
        from
    }
}

/// Where the white space that ends at `to` begins.
pub open spec fn space_start(s: Seq<char>, to: int) -> int
    decreases to,
{
    if 0 < to <= s.len() && white_space(s[to - 1]) {
        space_start(s, to - 1)
    } else {
        to
    }
}

/// `s` without the white space at its two ends.
pub open spec fn trimmed(s: Seq<char>) -> Seq<char> {
    let from = space_end(s, 0);
    let to = space_start(s, s.len() as int);
    if from < to {
        s.subrange(from, to)
    } else {
        Seq::empty()
    }
}

/// Whether `s` holds nothing but white space.
pub open spec fn blank(s: Seq<char>) -> bool {
    forall|i: int| 0 <= i < s.len() ==> white_space(#[trigger] s[i])
}

/// The white space at the start of `s` ends where `space_end` says, and every
/// character before that is white space.
pub proof fn lemma_space_end(s: Seq<char>, from: int)
    requires
        0 <= from <= s.len(),
    ensures
        from <= space_end(s, from) <= s.len(),
        forall|i: int| from <= i < space_end(s, from) ==> white_space(#[trigger] s[i]),
        space_end(s, from) < s.len() ==> !white_space(s[space_end(s, from)]),
    decreases s.len() - from,
{
    if from < s.len() && white_space(s[from]) {
        lemma_space_end(s, from + 1);
    }
}

/// The mirror image of `lemma_space_end`.
pub proof fn lemma_space_start(s: Seq<char>, to: int)
    requires
        0 <= to <= s.len(),
    ensures
        0 <= space_start(s, to) <= to,
        forall|i: int| space_start(s, to) <= i < to ==> white_space(#[trigger] s[i]),
        space_start(s, to) > 0 ==> !white_space(s[space_start(s, to) - 1]),
    decreases to,
{
    if 0 < to && white_space(s[to - 1]) {
        lemma_space_start(s, to - 1);
    }
}

/// A text trims to nothing exactly when it is blank.
pub proof fn lemma_blank_trims_to_nothing(s: Seq<char>)
    ensures
        blank(s) <==> trimmed(s).len() == 0,
{
    lemma_space_end(s, 0);
    lemma_space_start(s, s.len() as int);
    let from = space_end(s, 0);
    let to = space_start(s, s.len() as int);
    if blank(s) {
        if from < s.len() {
            assert(white_space(s[from]));
        }
    } else {
        let i = choose|i: int| 0 <= i < s.len() && !white_space(#[trigger] s[i]);
        assert(from <= i);
        assert(i < to);
    }
}

/// Where white space ends depends on the text up to there only.
pub proof fn lemma_space_end_of_longer(s: Seq<char>, from: int)
    requires
        0 <= from <= s.len(),
    ensures
        space_end(s, from) < s.len() ==> space_end(s.push('\n'), from) == space_end(s, from),
        space_end(s, from) == s.len() ==> space_end(s.push('\n'), from) == s.len() + 1,
    decreases s.len() - from,
{
    let longer = s.push('\n');
    if from < s.len() {
        assert(longer[from] == s[from]);
        if white_space(s[from]) {
            lemma_space_end_of_longer(s, from + 1);
        }
    } else {
        assert(white_space(longer[from]));
        assert(space_end(longer, from + 1) == from + 1);
    }
}

/// Where white space begins depends on the text up to there only.
pub proof fn lemma_space_start_of_longer(s: Seq<char>, to: int)
    requires
        0 <= to <= s.len(),
    ensures
        space_start(s.push('\n'), to) == space_start(s, to),
    decreases to,
{
    if 0 < to {
        assert(s.push('\n')[to - 1] == s[to - 1]);
        if white_space(s[to - 1]) {
            lemma_space_start_of_longer(s, to - 1);
        }
    }
}

/// A line break behind a text is trimmed away: the text trims to the same
/// with it and without it, and is blank with it exactly when it is without.
pub proof fn lemma_trailing_newline_trims(s: Seq<char>)
    ensures
        trimmed(s.push('\n')) == trimmed(s),
        blank(s.push('\n')) == blank(s),
{
    let longer = s.push('\n');
    lemma_space_end(s, 0);
    lemma_space_start(s, s.len() as int);
    lemma_space_end_of_longer(s, 0);
    lemma_space_start_of_longer(s, s.len() as int);
    assert(white_space(longer[s.len() as int]));
    assert(space_start(longer, longer.len() as int) == space_start(longer, s.len() as int));
    let from = space_end(s, 0);
    let to = space_start(s, s.len() as int);
    if from < to {
        assert(longer.subrange(from, to) =~= s.subrange(from, to));
    }
    if blank(s) {
        assert forall|i: int| 0 <= i < longer.len() implies white_space(#[trigger] longer[i]) by {
            if i < s.len() {
                assert(longer[i] == s[i]);
            }
        }
    }
    if blank(longer) {
        assert forall|i: int| 0 <= i < s.len() implies white_space(#[trigger] s[i]) by {
            assert(longer[i] == s[i]);
        }
    }
}

/// The index in `v` of the first character from `from` on that is no white
/// space.
fn skip_space(v: &Vec<char>, from: usize) -> (at: usize)
    requires
        from <= v.len(),
    ensures
        at == space_end(v@, from as int),
        from <= at <= v.len(),
{
    let mut i: usize = from;
    while i < v.len() && v[i].is_whitespace()
        invariant
            from <= i <= v.len(),
            space_end(v@, from as int) == space_end(v@, i as int),
        decreases v.len() - i,
    {
        i += 1;
    }
    i
}

/// The index in `v` at which the white space that ends at `to` begins.
fn skip_space_back(v: &Vec<char>, to: usize) -> (at: usize)
    requires
        to <= v.len(),
    ensures
        at == space_start(v@, to as int),
        at <= to,
{
    let mut i: usize = to;
    while i > 0 && v[i - 1].is_whitespace()
        invariant
            i <= to <= v.len(),
            space_start(v@, to as int) == space_start(v@, i as int),
        decreases i,
    {
        i -= 1;
    }
    i
}

/// `s` without the white space at its two ends.
pub fn trim(s: &str) -> (t: String)
    ensures
        t@ == trimmed(s@),
{
    let v = chars_of(s);
    let from = skip_space(&v, 0);
    let to = skip_space_back(&v, v.len());
    if from < to {
        string_of(&v, from, to)
    } else {
        String::new()
    }
}

/// Whether `s` holds nothing but white space.
pub fn is_blank(s: &str) -> (yes: bool)
    ensures
        yes == blank(s@),
{
    let v = chars_of(s);
    let at = skip_space(&v, 0);
    proof {
        lemma_space_end(v@, 0);
        if at < v.len() {
            assert(!white_space(v@[at as int]));
        }
    }
    at == v.len()
}

/// Where the word that begins at `from` ends: the first index from `from`
/// on that holds white space, or the length of `s`.
pub open spec fn word_end(s: Seq<char>, from: int) -> int
    decreases s.len() - from,
{
    if 0 <= from < s.len() && !white_space(s[from]) {
        word_end(s, from + 1)
    } else {
        from
    }
}

/// The words of `s` that begin at `from` or later. A word is a longest run
/// of characters that are no white space.
pub open spec fn words_from(s: Seq<char>, from: int) -> Seq<Seq<char>>
    decreases s.len() - from,
{
    let a = space_end(s, from);
    let b = word_end(s, a);
    if 0 <= from <= a < b <= s.len() {
        seq![s.subrange(a, b)] + words_from(s, b)
    } else {
        Seq::empty()
    }
}

/// The words of `s`, in order.
pub open spec fn words(s: Seq<char>) -> Seq<Seq<char>> {
    words_from(s, 0)
}

/// A word ends where `word_end` says, and no character of it is white space.
pub proof fn lemma_word_end(s: Seq<char>, from: int)
    requires
        0 <= from <= s.len(),
    ensures
        from <= word_end(s, from) <= s.len(),
        forall|i: int| from <= i < word_end(s, from) ==> !white_space(#[trigger] s[i]),
        word_end(s, from) < s.len() ==> white_space(s[word_end(s, from)]),
    decreases s.len() - from,
{
    if from < s.len() && !white_space(s[from]) {
        lemma_word_end(s, from + 1);
    }
}

/// The index in `v` of the first white space from `from` on.
fn skip_word(v: &Vec<char>, from: usize) -> (at: usize)
    requires
        from <= v.len(),
    ensures
        at == word_end(v@, from as int),
        from <= at <= v.len(),
{
    let mut i: usize = from;
    while i < v.len() && !v[i].is_whitespace()
        invariant
            from <= i <= v.len(),
            word_end(v@, from as int) == word_end(v@, i as int),
        decreases v.len() - i,
    {
        i += 1;
    }
    i
}

/// The words of `s`, in order.
pub fn split_words(s: &str) -> (list: Vec<String>)
    ensures
        list.deep_view() == words(s@),
{
    let v = chars_of(s);
    let mut list: Vec<String> = Vec::new();
    let mut i: usize = 0;
    loop
        invariant
            v@ == s@,
            i <= v.len(),
            words(s@) == list.deep_view() + words_from(v@, i as int),
        ensures
            words(s@) == list.deep_view(),
        decreases v.len() - i,
    {
        let a = skip_space(&v, i);
        if a >= v.len() {
            assert(words_from(v@, i as int) =~= Seq::empty());
            break;
        }
        let b = skip_word(&v, a);
        proof {
            lemma_space_end(v@, i as int);
            lemma_word_end(v@, a as int + 1);
        }
        let word = string_of(&v, a, b);
        let ghost before = list.deep_view();
        list.push(word);
        proof {
            assert(list.deep_view() =~= before + seq![v@.subrange(a as int, b as int)]);
        }
        i = b;
    }
    list
}

} // verus!
