//! Inclusion is transparent: a section that brings in a template evaluates
//! as a section that holds the template itself.
//!
//! The evaluator reads two things of a section, its reference and its body.
//! So two lists of sections that agree in these evaluate alike, whatever
//! their headers said of formats, keys and processors.

use vstd::prelude::*;
use crate::convert::{
    digested, digested_entries, digested_items, evaluated, first_match, listed, resolved,
    scope_prefix, span,
};
use crate::decode::{decoded, decoder_outcome, json_decoded};
use crate::error::ErrorView;
use crate::header::{classified, HeaderView};
use crate::parse::{brought_for, built, probed, sections_in, InclusionView};
use crate::section::{
    assembled, override_prefix, overrides, section_of, Format, SectionView, TemplateView,
};
use crate::value::{field, JsonTree};

verus! {

/// Whether two lists of sections agree in what the evaluator reads: they are
/// of one length, and section by section of one reference and one body.
pub open spec fn same_scope(a: Seq<SectionView>, b: Seq<SectionView>) -> bool {
    &&& a.len() == b.len()
    &&& forall|i: int|
        0 <= i < a.len() ==> (#[trigger] a[i]).reference == b[i].reference && a[i].body
            == b[i].body
}

/// Lists that agree find a path at the same index.
pub proof fn lemma_first_match_agrees(
    a: Seq<SectionView>,
    b: Seq<SectionView>,
    path: Seq<char>,
    from: int,
    till: Seq<char>,
)
    requires
        same_scope(a, b),
    ensures
        first_match(a, path, from, till) == first_match(b, path, from, till),
    decreases a.len() - from,
{
    if 0 <= from < a.len() {
        assert(a[from].reference == b[from].reference);
        if a[from].reference != till && a[from].reference != path {
            lemma_first_match_agrees(a, b, path, from + 1, till);
        }
    }
}

/// Lists that agree put the same in the place of an entry's value.
pub proof fn lemma_resolved_agrees(
    a: Seq<SectionView>,
    b: Seq<SectionView>,
    value: JsonTree,
    start: int,
    prefix: Seq<char>,
    till: Seq<char>,
)
    requires
        same_scope(a, b),
    ensures
        resolved(value, a, start, prefix, till) == resolved(value, b, start, prefix, till),
    decreases 2 * span(a, start) + 1, value, 1nat,
{
    match value {
        JsonTree::Object(inner) => match field(inner, "$ref"@) {
            None => {
                lemma_digested_agrees(a, b, value, start, prefix, till);
            },
            Some(JsonTree::String(name)) => {
                let target = prefix + name;
                lemma_first_match_agrees(a, b, target, start + 1, till);
                lemma_listed_agrees(a, b, target, start + 1, till);
                lemma_evaluated_agrees(a, b, target, start + 1, till);
            },
            Some(_) => {},
        },
        _ => {
            lemma_digested_agrees(a, b, value, start, prefix, till);
        },
    }
}

/// Lists that agree digest the entries of a mapping alike.
pub proof fn lemma_digested_entries_agree(
    a: Seq<SectionView>,
    b: Seq<SectionView>,
    entries: Seq<(Seq<char>, JsonTree)>,
    start: int,
    prefix: Seq<char>,
    till: Seq<char>,
)
    requires
        same_scope(a, b),
    ensures
        digested_entries(entries, a, start, prefix, till) == digested_entries(
            entries,
            b,
            start,
            prefix,
            till,
        ),
    decreases 2 * span(a, start) + 1, entries, 0nat,
{
    if entries.len() > 0 {
        lemma_digested_entries_agree(a, b, entries.drop_last(), start, prefix, till);
        lemma_resolved_agrees(a, b, entries.last().1, start, prefix, till);
    }
}

/// Lists that agree digest the items of a sequence alike.
pub proof fn lemma_digested_items_agree(
    a: Seq<SectionView>,
    b: Seq<SectionView>,
    items: Seq<JsonTree>,
    start: int,
    prefix: Seq<char>,
    till: Seq<char>,
)
    requires
        same_scope(a, b),
    ensures
        digested_items(items, a, start, prefix, till) == digested_items(
            items,
            b,
            start,
            prefix,
            till,
        ),
    decreases 2 * span(a, start) + 1, items, 0nat,
{
    if items.len() > 0 {
        lemma_digested_items_agree(a, b, items.drop_last(), start, prefix, till);
        lemma_digested_agrees(a, b, items.last(), start, prefix, till);
    }
}

/// Lists that agree digest a value alike.
pub proof fn lemma_digested_agrees(
    a: Seq<SectionView>,
    b: Seq<SectionView>,
    value: JsonTree,
    start: int,
    prefix: Seq<char>,
    till: Seq<char>,
)
    requires
        same_scope(a, b),
    ensures
        digested(value, a, start, prefix, till) == digested(value, b, start, prefix, till),
    decreases 2 * span(a, start) + 1, value, 0nat,
{
    match value {
        JsonTree::Object(entries) => {
            lemma_digested_entries_agree(a, b, entries, start, prefix, till);
        },
        JsonTree::Array(items) => {
            lemma_digested_items_agree(a, b, items, start, prefix, till);
        },
        _ => {},
    }
}

/// Lists that agree give the same list at a path.
pub proof fn lemma_listed_agrees(
    a: Seq<SectionView>,
    b: Seq<SectionView>,
    path: Seq<char>,
    from: int,
    till: Seq<char>,
)
    requires
        same_scope(a, b),
    ensures
        listed(a, path, from, till) == listed(b, path, from, till),
    decreases 2 * span(a, from - 1), JsonTree::Null, 0nat,
{
    if 0 <= from < a.len() {
        assert(a[from].reference == b[from].reference && a[from].body == b[from].body);
        if a[from].reference == till {
        } else if a[from].reference == path {
            lemma_digested_agrees(a, b, a[from].body, from, scope_prefix(path), till);
            lemma_listed_agrees(a, b, path, from + 1, till);
        } else {
            lemma_listed_agrees(a, b, path, from + 1, till);
        }
    }
}

/// The evaluator reads references and bodies only: two lists of sections
/// that agree in them give the same value at every path, in every window.
pub proof fn lemma_evaluated_agrees(
    a: Seq<SectionView>,
    b: Seq<SectionView>,
    path: Seq<char>,
    start: int,
    till: Seq<char>,
)
    requires
        same_scope(a, b),
    ensures
        evaluated(a, path, start, till) == evaluated(b, path, start, till),
    decreases 2 * span(a, start - 1), JsonTree::Null, 0nat,
{
    lemma_first_match_agrees(a, b, path, start, till);
    match first_match(a, path, start, till) {
        Some(at) => {
            if start <= at < a.len() {
                assert(a[at].reference == b[at].reference && a[at].body == b[at].body);
                lemma_digested_agrees(a, b, a[at].body, at, scope_prefix(path), till);
            }
        },
        None => {},
    }
}

/// Whether a body gives no overrides: it is no mapping, or an empty one.
pub open spec fn gives_no_overrides(body: JsonTree) -> bool {
    body matches JsonTree::Object(entries) ==> entries.len() == 0
}

/// Inclusion is transparent. Take a section with an inclusion key whose own
/// body gives no overrides, anywhere in a document.
///
/// - Where the key brings in a template value, the document evaluates as
///   with a section in its place that has no key and holds the template as
///   its body.
/// - Where the key brings in a sub-graft, the sections of the sub-graft
///   stand in the place of the section, as they are.
pub proof fn lemma_inclusion_is_transparent(
    before: Seq<SectionView>,
    after: Seq<SectionView>,
    header: HeaderView,
    own: JsonTree,
    template: JsonTree,
    graft: Seq<SectionView>,
    path: Seq<char>,
    start: int,
    till: Seq<char>,
)
    requires
        header.inclusion is Some,
        gives_no_overrides(own),
    ensures
        evaluated(
            before + assembled(header, own, TemplateView::Body(template)) + after,
            path,
            start,
            till,
        ) == evaluated(
            before + seq![
                section_of(
                    HeaderView { inclusion: None, format: Format::JSON, ..header },
                    template,
                ),
            ] + after,
            path,
            start,
            till,
        ),
        before + assembled(header, own, TemplateView::Sections(graft)) + after == before + graft
            + after,
{
    let literal = HeaderView { inclusion: None, format: Format::JSON, ..header };
    let brought = assembled(header, own, TemplateView::Body(template));
    let held = seq![section_of(literal, template)];
    assert(overrides(own, override_prefix(header.reference, false)) =~= Seq::empty());
    assert(overrides(own, override_prefix(header.reference, true)) =~= Seq::empty());
    assert(brought =~= seq![section_of(header, template)]);
    assert(assembled(header, own, TemplateView::Sections(graft)) =~= graft);
    let a = before + brought + after;
    let b = before + held + after;
    assert(same_scope(a, b)) by {
        assert(a.len() == b.len());
        assert forall|i: int| 0 <= i < a.len() implies (#[trigger] a[i]).reference
            == b[i].reference && a[i].body == b[i].body by {
            if i < before.len() {
            } else if i == before.len() {
                assert(a[i] == brought[0]);
                assert(b[i] == held[0]);
            } else {
                assert(a[i] == after[i - before.len() - 1]);
                assert(b[i] == after[i - before.len() - 1]);
            }
        }
    }
    lemma_evaluated_agrees(a, b, path, start, till);
}

/// Whether two outcomes of parsing agree in what the evaluator reads: both
/// are sections that agree, or both are the same error.
pub open spec fn same_outcome(
    a: Result<Seq<SectionView>, ErrorView>,
    b: Result<Seq<SectionView>, ErrorView>,
) -> bool {
    match (a, b) {
        (Ok(left), Ok(right)) => same_scope(left, right),
        (Err(left), Err(right)) => left == right,
        _ => false,
    }
}

/// A template brought in is as a template written out. Take a store that
/// holds `texts`, and a section whose inclusion key finds a JSON resource
/// there and whose own body gives no overrides. It becomes what a section
/// becomes whose header says the same but for no key and the format JSON,
/// and whose body is the text of the resource: sections that agree in
/// reference and body, or the same error.
pub proof fn lemma_included_as_written(
    texts: Map<Seq<char>, Seq<char>>,
    including: Seq<char>,
    head: HeaderView,
    key: Seq<char>,
    body: Seq<char>,
    own: JsonTree,
    written: Seq<char>,
    template: Seq<char>,
    depth: nat,
)
    requires
        classified(including) == Ok::<HeaderView, ErrorView>(head),
        head.inclusion == Some(key),
        decoded(head.format, body) == Ok::<JsonTree, ErrorView>(own),
        gives_no_overrides(own),
        probed(texts, key) == InclusionView::Json(template),
        classified(written) == Ok::<HeaderView, ErrorView>(
            HeaderView { inclusion: None, format: Format::JSON, ..head },
        ),
    ensures
        same_outcome(
            built(including, body, brought_for(texts, including, depth)),
            built(written, template, brought_for(texts, written, depth)),
        ),
{
    assert(overrides(own, override_prefix(head.reference, false)) =~= Seq::empty());
    match decoder_outcome(json_decoded(template)) {
        Ok(value) => {
            assert(assembled(head, own, TemplateView::Body(value)) =~= seq![
                section_of(head, value),
            ]);
        },
        Err(_) => {},
    }
}

/// A sub-graft brought in is as its sections written out. Take a store that
/// holds `texts`, and a section whose inclusion key finds a graft resource
/// there and whose own body gives no overrides. It becomes the sections of
/// that graft, parsed with the same store one level deeper.
pub proof fn lemma_sub_graft_as_written(
    texts: Map<Seq<char>, Seq<char>>,
    including: Seq<char>,
    head: HeaderView,
    key: Seq<char>,
    body: Seq<char>,
    own: JsonTree,
    graft: Seq<char>,
    depth: nat,
)
    requires
        depth > 0,
        classified(including) == Ok::<HeaderView, ErrorView>(head),
        head.inclusion == Some(key),
        decoded(head.format, body) == Ok::<JsonTree, ErrorView>(own),
        gives_no_overrides(own),
        probed(texts, key) == InclusionView::Graft(graft),
    ensures
        built(including, body, brought_for(texts, including, depth)) == sections_in(
            texts,
            graft,
            (depth - 1) as nat,
        ),
{
    assert(overrides(own, override_prefix(head.reference, true)) =~= Seq::empty());
    match sections_in(texts, graft, (depth - 1) as nat) {
        Ok(sections) => {
            assert(assembled(head, own, TemplateView::Sections(sections)) =~= sections);
        },
        Err(_) => {},
    }
}

} // verus!
