//! Reference markers, and when none is left in what the evaluator returns.
//!
//! The evaluator replaces a marker where it is the value of a mapping's
//! entry. A marker that stands elsewhere (as the body of a section, as an
//! item of a sequence, inside a default) is a mapping like any other and
//! stays. So the result is free of markers for templates that keep their
//! markers in the places where they are replaced.

use vstd::prelude::*;
use crate::convert::{
    converted_in, digested, digested_entries, digested_items, evaluated, first_match, listed,
    resolved, scope_prefix, span,
};
use crate::parse::{sections_in, NESTING_LIMIT};
use crate::section::SectionView;
use crate::value::{field, field_index, JsonTree};

verus! {

/// Whether no mapping within `value`, nor `value` itself, has the key `$ref`.
pub open spec fn marker_free(value: JsonTree) -> bool
    decreases value,
{
    match value {
        JsonTree::Object(entries) => field(entries, "$ref"@) is None && forall|i: int|
            0 <= i < entries.len() ==> marker_free(#[trigger] entries[i].1),
        JsonTree::Array(items) => forall|i: int|
            0 <= i < items.len() ==> marker_free(#[trigger] items[i]),
        _ => true,
    }
}

/// Whether a marker's default, where it has one, is free of markers. A
/// default is handed out as it is.
pub open spec fn default_is_free(marker: JsonTree) -> bool {
    marker matches JsonTree::Object(inner) ==> (field(inner, "default"@) matches Some(fallback)
        ==> marker_free(fallback))
}

/// Whether the markers of `value` stand where the evaluator replaces them:
/// `value` is no marker itself, every marker in it is the value of an entry
/// of a mapping, and the default of each is free of markers.
pub open spec fn well_placed(value: JsonTree) -> bool
    decreases value,
{
    match value {
        JsonTree::Object(entries) => field(entries, "$ref"@) is None && forall|i: int|
            0 <= i < entries.len() ==> if (#[trigger] entries[i]).1.is_marker() {
                default_is_free(entries[i].1)
            } else {
                well_placed(entries[i].1)
            },
        JsonTree::Array(items) => forall|i: int|
            0 <= i < items.len() ==> well_placed(#[trigger] items[i]),
        _ => true,
    }
}

/// Whether the value of an entry is a marker with a default free of
/// markers, or holds its markers where they are replaced.
pub open spec fn well_placed_entry(value: JsonTree) -> bool {
    if value.is_marker() {
        default_is_free(value)
    } else {
        well_placed(value)
    }
}

/// Whether the body of every section holds its markers where they are
/// replaced.
pub open spec fn all_well_placed(sections: Seq<SectionView>) -> bool {
    forall|i: int| 0 <= i < sections.len() ==> well_placed((#[trigger] sections[i]).body)
}

/// Two lists of entries with the same keys find a key at the same index.
pub proof fn lemma_same_keys(
    a: Seq<(Seq<char>, JsonTree)>,
    b: Seq<(Seq<char>, JsonTree)>,
    key: Seq<char>,
    from: int,
)
    requires
        a.len() == b.len(),
        forall|i: int| 0 <= i < a.len() ==> (#[trigger] a[i]).0 == b[i].0,
    ensures
        field_index(a, key, from) == field_index(b, key, from),
    decreases a.len() - from,
{
    if 0 <= from < a.len() {
        assert(a[from].0 == b[from].0);
        if a[from].0 != key {
            lemma_same_keys(a, b, key, from + 1);
        }
    }
}

/// What stands in the place of an entry's value is free of markers.
pub proof fn lemma_resolved_is_free(
    value: JsonTree,
    sections: Seq<SectionView>,
    start: int,
    prefix: Seq<char>,
    till: Seq<char>,
)
    requires
        all_well_placed(sections),
        well_placed_entry(value),
    ensures
        resolved(value, sections, start, prefix, till) matches Ok(done) ==> marker_free(done),
    decreases 2 * span(sections, start) + 1, value, 1nat,
{
    match value {
        JsonTree::Object(inner) => match field(inner, "$ref"@) {
            None => {
                lemma_digested_is_free(value, sections, start, prefix, till);
            },
            Some(JsonTree::String(name)) => {
                let target = prefix + name;
                lemma_listed_is_free(sections, target, start + 1, till);
                lemma_evaluated_is_free(sections, target, start + 1, till);
                match listed(sections, target, start + 1, till) {
                    Ok(items) => {
                        assert(marker_free(JsonTree::Array(items)));
                    },
                    Err(_) => {},
                }
            },
            Some(_) => {},
        },
        _ => {
            lemma_digested_is_free(value, sections, start, prefix, till);
        },
    }
}

/// The digest of a mapping's entries keeps the keys, and every value in it
/// is free of markers.
pub proof fn lemma_digested_entries_are_free(
    entries: Seq<(Seq<char>, JsonTree)>,
    sections: Seq<SectionView>,
    start: int,
    prefix: Seq<char>,
    till: Seq<char>,
)
    requires
        all_well_placed(sections),
        forall|i: int| 0 <= i < entries.len() ==> well_placed_entry((#[trigger] entries[i]).1),
    ensures
        digested_entries(entries, sections, start, prefix, till) matches Ok(done) ==> {
            &&& done.len() == entries.len()
            &&& forall|i: int| 0 <= i < done.len() ==> (#[trigger] done[i]).0 == entries[i].0
            &&& forall|i: int| 0 <= i < done.len() ==> marker_free(#[trigger] done[i].1)
        },
    decreases 2 * span(sections, start) + 1, entries, 0nat,
{
    if entries.len() > 0 {
        let before = entries.drop_last();
        assert forall|i: int| 0 <= i < before.len() implies well_placed_entry(
            (#[trigger] before[i]).1,
        ) by {
            assert(before[i] == entries[i]);
        }
        lemma_digested_entries_are_free(before, sections, start, prefix, till);
        assert(well_placed_entry(entries[entries.len() - 1].1));
        lemma_resolved_is_free(entries.last().1, sections, start, prefix, till);
    }
}

/// The digest of a sequence's items is free of markers item by item.
pub proof fn lemma_digested_items_are_free(
    items: Seq<JsonTree>,
    sections: Seq<SectionView>,
    start: int,
    prefix: Seq<char>,
    till: Seq<char>,
)
    requires
        all_well_placed(sections),
        forall|i: int| 0 <= i < items.len() ==> well_placed(#[trigger] items[i]),
    ensures
        digested_items(items, sections, start, prefix, till) matches Ok(done) ==> forall|i: int|
            0 <= i < done.len() ==> marker_free(#[trigger] done[i]),
    decreases 2 * span(sections, start) + 1, items, 0nat,
{
    if items.len() > 0 {
        let before = items.drop_last();
        assert forall|i: int| 0 <= i < before.len() implies well_placed(#[trigger] before[i]) by {
            assert(before[i] == items[i]);
        }
        lemma_digested_items_are_free(before, sections, start, prefix, till);
        assert(well_placed(items[items.len() - 1]));
        lemma_digested_is_free(items.last(), sections, start, prefix, till);
    }
}

/// The digest of a value that holds its markers where they are replaced is
/// free of markers.
pub proof fn lemma_digested_is_free(
    value: JsonTree,
    sections: Seq<SectionView>,
    start: int,
    prefix: Seq<char>,
    till: Seq<char>,
)
    requires
        all_well_placed(sections),
        well_placed(value),
    ensures
        digested(value, sections, start, prefix, till) matches Ok(done) ==> marker_free(done),
    decreases 2 * span(sections, start) + 1, value, 0nat,
{
    match value {
        JsonTree::Object(entries) => {
            assert forall|i: int| 0 <= i < entries.len() implies well_placed_entry(
                (#[trigger] entries[i]).1,
            ) by {}
            lemma_digested_entries_are_free(entries, sections, start, prefix, till);
            match digested_entries(entries, sections, start, prefix, till) {
                Ok(done) => {
                    lemma_same_keys(done, entries, "$ref"@, 0);
                },
                Err(_) => {},
            }
        },
        JsonTree::Array(items) => {
            lemma_digested_items_are_free(items, sections, start, prefix, till);
        },
        _ => {},
    }
}

/// The items of a list are free of markers.
pub proof fn lemma_listed_is_free(
    sections: Seq<SectionView>,
    path: Seq<char>,
    from: int,
    till: Seq<char>,
)
    requires
        all_well_placed(sections),
    ensures
        listed(sections, path, from, till) matches Ok(items) ==> forall|i: int|
            0 <= i < items.len() ==> marker_free(#[trigger] items[i]),
    decreases 2 * span(sections, from - 1), JsonTree::Null, 0nat,
{
    if 0 <= from < sections.len() {
        if sections[from].reference == till {
        } else if sections[from].reference == path {
            lemma_digested_is_free(sections[from].body, sections, from, scope_prefix(path), till);
            lemma_listed_is_free(sections, path, from + 1, till);
        } else {
            lemma_listed_is_free(sections, path, from + 1, till);
        }
    }
}

/// No marker is left in what the evaluator returns. Where the body of every
/// section holds its markers where they are replaced (none is a marker
/// itself, every marker is the value of an entry of a mapping, and every
/// default is free of markers), the value at any path, in any window, has no
/// mapping with the key `$ref`.
pub proof fn lemma_evaluated_is_free(
    sections: Seq<SectionView>,
    path: Seq<char>,
    start: int,
    till: Seq<char>,
)
    requires
        all_well_placed(sections),
    ensures
        evaluated(sections, path, start, till) matches Ok(value) ==> marker_free(value),
    decreases 2 * span(sections, start - 1), JsonTree::Null, 0nat,
{
    match first_match(sections, path, start, till) {
        Some(at) => {
            if start <= at < sections.len() {
                lemma_digested_is_free(sections[at].body, sections, at, scope_prefix(path), till);
            }
        },
        None => {},
    }
}

/// No marker is left in the value of a document whose sections hold their
/// markers where they are replaced.
pub proof fn lemma_converted_is_free(texts: Map<Seq<char>, Seq<char>>, text: Seq<char>)
    requires
        sections_in(texts, text, NESTING_LIMIT as nat) matches Ok(sections) ==> all_well_placed(
            sections,
        ),
    ensures
        converted_in(texts, text) matches Ok(value) ==> marker_free(value),
{
    match sections_in(texts, text, NESTING_LIMIT as nat) {
        Ok(sections) => {
            lemma_evaluated_is_free(sections, "ROOT"@, 0, "END"@);
        },
        Err(_) => {},
    }
}

} // verus!
