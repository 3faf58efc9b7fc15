//! The evaluator: from the sections of a document to the one value that
//! they describe.
//!
//! The sections stay a flat list. A scope is a window on it: the sections
//! from an index on, up to the first one whose reference is the sentinel.
//! A reference marker in a section's body is looked up in the window that
//! begins behind that section.

use vstd::prelude::*;
use crate::context::Context;
use crate::decode::value_outcome;
use crate::error::{Error, ErrorView};
use crate::path::{parent, same_parent};
use crate::parse::{
    lemma_trailing_newline, lemma_trailing_newline_in_store, parse_result, parsed_alone,
    parsed_with, plain, sections_in, tolerates_newline, Brought, NESTING_LIMIT,
};
use crate::section::{section_views, Section, SectionView};
use crate::split::chunks;
use crate::text::{begins_with, ends_with, joined, same_text};
use crate::value::{
    entry_views, field, find_field, item_views, lemma_array_view, lemma_object_view, Json,
    JsonTree,
};

verus! {

/// How far `start` is from the end of the sections: the measure by which
/// the evaluator is seen to end.
pub open spec fn span(sections: Seq<SectionView>, start: int) -> nat {
    if start < sections.len() {
        (sections.len() - start) as nat
    } else {
        0
    }
}

/// What stands before a reference of a marker in a section that was found
/// under `path`: nothing at `ROOT`, else `path` and a slash.
pub open spec fn scope_prefix(path: Seq<char>) -> Seq<char> {
    if path == "ROOT"@ {
        Seq::empty()
    } else {
        path + "/"@
    }
}

/// Whether a path names a list: it ends in `[]`.
pub open spec fn is_list_path(path: Seq<char>) -> bool {
    "[]"@.is_suffix_of(path)
}

/// The index of the first section from `from` on whose reference is `path`,
/// where none before it, nor that one, has the reference `till`.
pub open spec fn first_match(
    sections: Seq<SectionView>,
    path: Seq<char>,
    from: int,
    till: Seq<char>,
) -> Option<int>
    decreases sections.len() - from,
{
    if 0 <= from < sections.len() {
        if sections[from].reference == till {
            None
        } else if sections[from].reference == path {
            Some(from)
        } else {
            first_match(sections, path, from + 1, till)
        }
    } else {
        None
    }
}

/// Whether a reference to `path` can be followed in the window from `start`:
/// a section of that window has the reference, or the path names a list.
pub open spec fn in_scope(
    sections: Seq<SectionView>,
    path: Seq<char>,
    start: int,
    till: Seq<char>,
) -> bool {
    first_match(sections, path, start, till) is Some || is_list_path(path)
}

/// Whether a section with the reference `reference` ends the list at `path`:
/// it has another parent than `path`, and does not begin with `path`.
pub open spec fn breaks_scope(reference: Seq<char>, path: Seq<char>) -> bool {
    parent(reference) != parent(path) && !path.is_prefix_of(reference)
}

/// The value at `path` in the window from `start`: the digest of the first
/// section there whose reference is `path`, or `NotFound`.
pub open spec fn evaluated(
    sections: Seq<SectionView>,
    path: Seq<char>,
    start: int,
    till: Seq<char>,
) -> Result<JsonTree, ErrorView>
    decreases 2 * span(sections, start - 1), JsonTree::Null, 0nat,
{
    match first_match(sections, path, start, till) {
        Some(at) => if start <= at < sections.len() {
            digested(sections[at].body, sections, at, scope_prefix(path), till)
        } else {
            Err(ErrorView::NotFound(path))
        },
        None => Err(ErrorView::NotFound(path)),
    }
}

/// The items of the list at `path` in the window from `from`: the digests of
/// the sections whose reference is `path`, in order, up to the sentinel or
/// to the first section that ends the list; or the first error among them.
pub open spec fn listed(
    sections: Seq<SectionView>,
    path: Seq<char>,
    from: int,
    till: Seq<char>,
) -> Result<Seq<JsonTree>, ErrorView>
    decreases 2 * span(sections, from - 1), JsonTree::Null, 0nat,
{
    if 0 <= from < sections.len() {
        if sections[from].reference == till {
            Ok(Seq::empty())
        } else if sections[from].reference == path {
            match digested(sections[from].body, sections, from, scope_prefix(path), till) {
                Err(error) => Err(error),
                Ok(item) => match listed(sections, path, from + 1, till) {
                    Err(error) => Err(error),
                    Ok(rest) => Ok(seq![item] + rest),
                },
            }
        } else if breaks_scope(sections[from].reference, path) {
            Ok(Seq::empty())
        } else {
            listed(sections, path, from + 1, till)
        }
    } else {
        Ok(Seq::empty())
    }
}

/// The list at `path` in the window from `start`, as one value.
pub open spec fn evaluated_list(
    sections: Seq<SectionView>,
    path: Seq<char>,
    start: int,
    till: Seq<char>,
) -> Result<JsonTree, ErrorView> {
    match listed(sections, path, start, till) {
        Ok(items) => Ok(JsonTree::Array(items)),
        Err(error) => Err(error),
    }
}

/// What stands in the place of the value of a mapping's entry.
///
/// A value that is no reference marker is digested. A marker's `$ref` must
/// be a string; with the prefix before it, it is the target. A target that
/// is in scope behind the section is evaluated, as a list where it names
/// one. For any other target the marker's `default` stands in, and where it
/// has none, the marker is `Unresolved`.
pub open spec fn resolved(
    value: JsonTree,
    sections: Seq<SectionView>,
    start: int,
    prefix: Seq<char>,
    till: Seq<char>,
) -> Result<JsonTree, ErrorView>
    decreases 2 * span(sections, start) + 1, value, 1nat,
{
    match value {
        JsonTree::Object(inner) => match field(inner, "$ref"@) {
            None => digested(value, sections, start, prefix, till),
            Some(JsonTree::String(name)) => {
                let target = prefix + name;
                if in_scope(sections, target, start + 1, till) {
                    if is_list_path(target) {
                        match listed(sections, target, start + 1, till) {
                            Ok(items) => Ok(JsonTree::Array(items)),
                            Err(error) => Err(error),
                        }
                    } else {
                        evaluated(sections, target, start + 1, till)
                    }
                } else {
                    match field(inner, "default"@) {
                        Some(fallback) => Ok(fallback),
                        None => Err(ErrorView::Unresolved(target)),
                    }
                }
            },
            Some(other) => Err(ErrorView::RefNotString(other)),
        },
        _ => digested(value, sections, start, prefix, till),
    }
}

/// The entries of a mapping, each value replaced by what stands in its
/// place; or the first error among them.
pub open spec fn digested_entries(
    entries: Seq<(Seq<char>, JsonTree)>,
    sections: Seq<SectionView>,
    start: int,
    prefix: Seq<char>,
    till: Seq<char>,
) -> Result<Seq<(Seq<char>, JsonTree)>, ErrorView>
    decreases 2 * span(sections, start) + 1, entries, 0nat,
{
    if entries.len() == 0 {
        Ok(Seq::empty())
    } else {
        match digested_entries(entries.drop_last(), sections, start, prefix, till) {
            Err(error) => Err(error),
            Ok(before) => match resolved(entries.last().1, sections, start, prefix, till) {
                Err(error) => Err(error),
                Ok(value) => Ok(before.push((entries.last().0, value))),
            },
        }
    }
}

/// The items of a sequence, each digested; or the first error among them.
pub open spec fn digested_items(
    items: Seq<JsonTree>,
    sections: Seq<SectionView>,
    start: int,
    prefix: Seq<char>,
    till: Seq<char>,
) -> Result<Seq<JsonTree>, ErrorView>
    decreases 2 * span(sections, start) + 1, items, 0nat,
{
    if items.len() == 0 {
        Ok(Seq::empty())
    } else {
        match digested_items(items.drop_last(), sections, start, prefix, till) {
            Err(error) => Err(error),
            Ok(before) => match digested(items.last(), sections, start, prefix, till) {
                Err(error) => Err(error),
                Ok(item) => Ok(before.push(item)),
            },
        }
    }
}

/// The digest of a value that stands in the section at `start`: the value
/// with every reference marker that is the value of a mapping's entry
/// replaced by what it refers to. A mapping keeps its keys in their order,
/// a sequence is digested item by item, and any other value stays.
pub open spec fn digested(
    value: JsonTree,
    sections: Seq<SectionView>,
    start: int,
    prefix: Seq<char>,
    till: Seq<char>,
) -> Result<JsonTree, ErrorView>
    decreases 2 * span(sections, start) + 1, value, 0nat,
{
    match value {
        JsonTree::Object(entries) => match digested_entries(
            entries,
            sections,
            start,
            prefix,
            till,
        ) {
            Ok(done) => Ok(JsonTree::Object(done)),
            Err(error) => Err(error),
        },
        JsonTree::Array(items) => match digested_items(items, sections, start, prefix, till) {
            Ok(done) => Ok(JsonTree::Array(done)),
            Err(error) => Err(error),
        },
        _ => Ok(value),
    }
}

/// The value of a document: what stands at `ROOT` in the window on all of
/// its sections, with the sentinel `END`.
pub open spec fn value_of(sections: Seq<SectionView>) -> Result<JsonTree, ErrorView> {
    evaluated(sections, "ROOT"@, 0, "END"@)
}

/// Whether the section at `at` is the first in the window from `from` with
/// the reference `path`: it has the reference, which is not the sentinel,
/// and no section of the window before it has the reference or is the
/// sentinel.
pub open spec fn is_first_match(
    sections: Seq<SectionView>,
    path: Seq<char>,
    from: int,
    till: Seq<char>,
    at: int,
) -> bool {
    &&& 0 <= from <= at < sections.len()
    &&& sections[at].reference == path
    &&& path != till
    &&& forall|j: int|
        from <= j < at ==> (#[trigger] sections[j]).reference != path && sections[j].reference
            != till
}

/// `first_match` finds the first match, and finds one wherever there is
/// one.
pub proof fn lemma_first_match(
    sections: Seq<SectionView>,
    path: Seq<char>,
    from: int,
    till: Seq<char>,
)
    ensures
        first_match(sections, path, from, till) matches Some(at) ==> is_first_match(
            sections,
            path,
            from,
            till,
            at,
        ),
        forall|at: int| #[trigger]
            is_first_match(sections, path, from, till, at) ==> first_match(
                sections,
                path,
                from,
                till,
            ) == Some(at),
    decreases sections.len() - from,
{
    if 0 <= from < sections.len() {
        if sections[from].reference != till && sections[from].reference != path {
            lemma_first_match(sections, path, from + 1, till);
            assert forall|at: int| #[trigger]
                is_first_match(sections, path, from, till, at) implies first_match(
                sections,
                path,
                from,
                till,
            ) == Some(at) by {
                assert(at != from);
                assert(is_first_match(sections, path, from + 1, till, at));
            }
        } else {
            assert forall|at: int| #[trigger]
                is_first_match(sections, path, from, till, at) implies first_match(
                sections,
                path,
                from,
                till,
            ) == Some(at) by {
                if at > from {
                    assert(sections[from].reference != path && sections[from].reference != till);
                }
            }
        }
    }
}

/// A path that ends in `[]` still does with a prefix before it.
pub proof fn lemma_list_path_with_prefix(prefix: Seq<char>, name: Seq<char>)
    requires
        is_list_path(name),
    ensures
        is_list_path(prefix + name),
{
    let tail = "[]"@;
    let whole = prefix + name;
    assert(tail =~= name.subrange(name.len() - tail.len(), name.len() as int));
    assert(whole.subrange(whole.len() - tail.len(), whole.len() as int) =~= name.subrange(
        name.len() - tail.len(),
        name.len() as int,
    ));
}

/// A list that no section belongs to is empty: where no section from `from`
/// on has the reference `path`, the list at `path` has no items.
pub proof fn lemma_list_without_sections(
    sections: Seq<SectionView>,
    path: Seq<char>,
    from: int,
    till: Seq<char>,
)
    requires
        forall|i: int| from <= i < sections.len() ==> (#[trigger] sections[i]).reference != path,
    ensures
        listed(sections, path, from, till) == Ok::<Seq<JsonTree>, ErrorView>(Seq::empty()),
    decreases sections.len() - from,
{
    if 0 <= from < sections.len() {
        assert(sections[from].reference != path);
        if sections[from].reference != till && !breaks_scope(sections[from].reference, path) {
            lemma_list_without_sections(sections, path, from + 1, till);
        }
    }
}

/// A reference to a list always resolves. A marker whose `$ref` ends in `[]`
/// stands for the list at its target, whatever sections there are: its
/// default is not asked for, and it is never `Unresolved`. Where no section
/// behind the marker's own has the target as its reference, the marker
/// stands for the empty list.
pub proof fn lemma_list_reference_resolves(
    inner: Seq<(Seq<char>, JsonTree)>,
    name: Seq<char>,
    sections: Seq<SectionView>,
    start: int,
    prefix: Seq<char>,
    till: Seq<char>,
)
    requires
        field(inner, "$ref"@) == Some(JsonTree::String(name)),
        is_list_path(name),
    ensures
        resolved(JsonTree::Object(inner), sections, start, prefix, till) == evaluated_list(
            sections,
            prefix + name,
            start + 1,
            till,
        ),
        (forall|i: int| start < i < sections.len() ==> (#[trigger] sections[i]).reference != prefix
            + name) ==> resolved(JsonTree::Object(inner), sections, start, prefix, till) == Ok::<
            JsonTree,
            ErrorView,
        >(JsonTree::Array(Seq::empty())),
{
    lemma_list_path_with_prefix(prefix, name);
    if forall|i: int| start < i < sections.len() ==> (#[trigger] sections[i]).reference != prefix
        + name {
        lemma_list_without_sections(sections, prefix + name, start + 1, till);
    }
}

/// A default stands in for a section that is not there. Where a marker
/// refers to a path that names no list, no section behind the marker's own
/// has that path as its reference, and the marker gives a default, the
/// marker stands for its default.
pub proof fn lemma_default_stands_in(
    inner: Seq<(Seq<char>, JsonTree)>,
    name: Seq<char>,
    fallback: JsonTree,
    sections: Seq<SectionView>,
    start: int,
    prefix: Seq<char>,
    till: Seq<char>,
)
    requires
        field(inner, "$ref"@) == Some(JsonTree::String(name)),
        field(inner, "default"@) == Some(fallback),
        !is_list_path(prefix + name),
        forall|i: int| start < i < sections.len() ==> (#[trigger] sections[i]).reference != prefix
            + name,
    ensures
        resolved(JsonTree::Object(inner), sections, start, prefix, till) == Ok::<
            JsonTree,
            ErrorView,
        >(fallback),
{
    lemma_first_match(sections, prefix + name, start + 1, till);
}

/// Once an entry is an error, the entries after it change nothing.
pub proof fn lemma_entries_error_stays(
    entries: Seq<(Seq<char>, JsonTree)>,
    m: int,
    n: int,
    sections: Seq<SectionView>,
    start: int,
    prefix: Seq<char>,
    till: Seq<char>,
)
    requires
        0 <= m <= n <= entries.len(),
        digested_entries(entries.take(m), sections, start, prefix, till) is Err,
    ensures
        digested_entries(entries.take(n), sections, start, prefix, till) == digested_entries(
            entries.take(m),
            sections,
            start,
            prefix,
            till,
        ),
    decreases n - m,
{
    if m < n {
        lemma_entries_error_stays(entries, m, n - 1, sections, start, prefix, till);
        assert(entries.take(n).drop_last() =~= entries.take(n - 1));
    }
}

/// Once an item is an error, the items after it change nothing.
pub proof fn lemma_items_error_stays(
    items: Seq<JsonTree>,
    m: int,
    n: int,
    sections: Seq<SectionView>,
    start: int,
    prefix: Seq<char>,
    till: Seq<char>,
)
    requires
        0 <= m <= n <= items.len(),
        digested_items(items.take(m), sections, start, prefix, till) is Err,
    ensures
        digested_items(items.take(n), sections, start, prefix, till) == digested_items(
            items.take(m),
            sections,
            start,
            prefix,
            till,
        ),
    decreases n - m,
{
    if m < n {
        lemma_items_error_stays(items, m, n - 1, sections, start, prefix, till);
        assert(items.take(n).drop_last() =~= items.take(n - 1));
    }
}

/// The index of the first section from `start` on whose reference is `path`,
/// the search ending at the sentinel.
fn find_section(path: &str, sections: &[Section], start: usize, till: &str) -> (found: Option<
    usize,
>)
    ensures
        match found {
            Some(at) => first_match(section_views(sections@), path@, start as int, till@) == Some(
                at as int,
            ) && start <= at < sections.len(),
            None => first_match(section_views(sections@), path@, start as int, till@) is None,
        },
{
    let ghost views = section_views(sections@);
    let mut i: usize = start;
    while i < sections.len()
        invariant
            start <= i,
            views == section_views(sections@),
            first_match(views, path@, start as int, till@) == first_match(
                views,
                path@,
                i as int,
                till@,
            ),
        decreases sections.len() - i,
    {
        assert(views[i as int].reference == sections@[i as int].reference@);
        if same_text(sections[i].reference.as_str(), till) {
            return None;
        }
        if same_text(sections[i].reference.as_str(), path) {
            return Some(i);
        }
        i += 1;
    }
    None
}

/// Whether a reference to `path` can be followed in the window from `start`
/// up to the sentinel `till`: a section there has the reference, or `path`
/// names a list, which may be empty.
pub fn has_path(path: &str, sections: &[Section], start: usize, till: &str) -> (found: bool)
    ensures
        found == in_scope(section_views(sections@), path@, start as int, till@),
{
    match find_section(path, sections, start, till) {
        Some(_) => true,
        None => ends_with(path, "[]"),
    }
}

/// What stands before a reference of a marker in a section found under
/// `path`.
fn prefix_of(path: &str) -> (prefix: String)
    ensures
        prefix@ == scope_prefix(path@),
{
    if same_text(path, "ROOT") {
        String::new()
    } else {
        joined(path, "/")
    }
}

/// The value at `path` in the window from `start` up to the sentinel `till`:
/// the digest of the first section there whose reference is `path`. Where
/// there is none, the error is `NotFound`.
pub fn eval(path: &str, sections: &[Section], start: usize, till: &str) -> (r: Result<Json, Error>)
    ensures
        value_outcome(r) == evaluated(section_views(sections@), path@, start as int, till@),
    decreases 2 * span(section_views(sections@), start as int - 1), JsonTree::Null, 0nat,
{
    match find_section(path, sections, start, till) {
        Some(at) => {
            let prefix = prefix_of(path);
            assert(section_views(sections@)[at as int].body == sections@[at as int].body@);
            digest(&sections[at].body, sections, at, prefix.as_str(), till)
        },
        None => Err(Error::NotFound(path.to_owned())),
    }
}

/// The list at `path` in the window from `start` up to the sentinel `till`:
/// the digests of the sections whose reference is `path`, in order. The
/// list ends at the first section that has another parent than `path` and
/// does not begin with `path`. A list without sections is empty.
pub fn eval_list(path: &str, sections: &[Section], start: usize, till: &str) -> (r: Result<
    Json,
    Error,
>)
    ensures
        value_outcome(r) == evaluated_list(section_views(sections@), path@, start as int, till@),
    decreases 2 * span(section_views(sections@), start as int - 1), JsonTree::Null, 0nat,
{
    let ghost views = section_views(sections@);
    let ghost whole = listed(views, path@, start as int, till@);
    let prefix = prefix_of(path);
    let mut items: Vec<Json> = Vec::new();
    let mut i: usize = start;
    assert(item_views(items@) =~= Seq::empty());
    loop
        invariant
            start <= i,
            views == section_views(sections@),
            whole == listed(views, path@, start as int, till@),
            prefix@ == scope_prefix(path@),
            whole == match listed(views, path@, i as int, till@) {
                Ok(rest) => Ok::<Seq<JsonTree>, ErrorView>(item_views(items@) + rest),
                Err(error) => Err(error),
            },
        ensures
            whole == Ok::<Seq<JsonTree>, ErrorView>(item_views(items@)),
        decreases sections.len() - i,
    {
        if i >= sections.len() {
            assert(item_views(items@) + Seq::empty() =~= item_views(items@));
            break;
        }
        assert(views[i as int].reference == sections@[i as int].reference@);
        assert(views[i as int].body == sections@[i as int].body@);
        let reference = sections[i].reference.as_str();
        if same_text(reference, till) {
            assert(item_views(items@) + Seq::empty() =~= item_views(items@));
            break;
        }
        if same_text(reference, path) {
            match digest(&sections[i].body, sections, i, prefix.as_str(), till) {
                Ok(item) => {
                    let ghost before = item_views(items@);
                    items.push(item);
                    proof {
                        assert(item_views(items@) =~= before.push(item@));
                        match listed(views, path@, i + 1, till@) {
                            Ok(rest) => {
                                assert(before + (seq![item@] + rest) =~= before.push(item@)
                                    + rest);
                            },
                            Err(_) => {},
                        }
                    }
                },
                Err(error) => {
                    return Err(error);
                },
            }
        } else if !same_parent(reference, path) && !begins_with(reference, path) {
            assert(item_views(items@) + Seq::empty() =~= item_views(items@));
            break;
        }
        i += 1;
    }
    proof {
        lemma_array_view(items);
    }
    Ok(Json::Array(items))
}

/// What stands in the place of `value`, the value of a mapping's entry in
/// the section at `start`: `value` digested where it is no reference marker,
/// else what the marker refers to in the window behind the section, or its
/// default.
pub fn resolve(value: &Json, sections: &[Section], start: usize, prefix: &str, till: &str) -> (r:
    Result<Json, Error>)
    ensures
        value_outcome(r) == resolved(
            value@,
            section_views(sections@),
            start as int,
            prefix@,
            till@,
        ),
    decreases 2 * span(section_views(sections@), start as int) + 1, value@, 1nat,
{
    let ghost views = section_views(sections@);
    if let Json::Object(inner) = value {
        proof {
            lemma_object_view(*inner);
        }
        match find_field(inner, "$ref") {
            None => digest(value, sections, start, prefix, till),
            Some(Json::String(name)) => {
                let target = joined(prefix, name.as_str());
                if start >= sections.len() {
                    // No section stands behind `start`: only an empty list
                    // is in scope.
                    assert(first_match(views, target@, start as int + 1, till@) is None);
                    if ends_with(target.as_str(), "[]") {
                        let items: Vec<Json> = Vec::new();
                        proof {
                            lemma_array_view(items);
                            assert(item_views(items@) =~= Seq::empty());
                        }
                        Ok(Json::Array(items))
                    } else {
                        match find_field(inner, "default") {
                            Some(fallback) => Ok(fallback.clone()),
                            None => Err(Error::Unresolved(target)),
                        }
                    }
                } else if has_path(target.as_str(), sections, start + 1, till) {
                    if ends_with(target.as_str(), "[]") {
                        eval_list(target.as_str(), sections, start + 1, till)
                    } else {
                        eval(target.as_str(), sections, start + 1, till)
                    }
                } else {
                    match find_field(inner, "default") {
                        Some(fallback) => Ok(fallback.clone()),
                        None => Err(Error::Unresolved(target)),
                    }
                }
            },
            Some(other) => Err(Error::RefNotString(other.clone())),
        }
    } else {
        digest(value, sections, start, prefix, till)
    }
}

/// The digest of `body`, a value that stands in the section at `start`:
/// `body` with every reference marker that is the value of a mapping's entry
/// replaced by what it refers to in the window behind the section, or by
/// its default. `prefix` stands before every reference, and `till` is the
/// sentinel of the window.
pub fn digest(body: &Json, sections: &[Section], start: usize, prefix: &str, till: &str) -> (r:
    Result<Json, Error>)
    ensures
        value_outcome(r) == digested(
            body@,
            section_views(sections@),
            start as int,
            prefix@,
            till@,
        ),
    decreases 2 * span(section_views(sections@), start as int) + 1, body@, 0nat,
{
    let ghost views = section_views(sections@);
    match body {
        Json::Object(entries) => {
            let ghost all = entry_views(entries@);
            proof {
                lemma_object_view(*entries);
            }
            let mut done: Vec<(String, Json)> = Vec::new();
            let mut i: usize = 0;
            assert(entry_views(done@) =~= Seq::empty());
            assert(all.take(0) =~= Seq::empty());
            while i < entries.len()
                invariant
                    i <= entries.len(),
                    views == section_views(sections@),
                    all == entry_views(entries@),
                    body@ == JsonTree::Object(all),
                    digested_entries(all.take(i as int), views, start as int, prefix@, till@)
                        == Ok::<Seq<(Seq<char>, JsonTree)>, ErrorView>(entry_views(done@)),
                decreases entries.len() - i,
            {
                proof {
                    assert(all.take(i + 1).drop_last() =~= all.take(i as int));
                    assert(all.take(i + 1).last() == (
                        entries@[i as int].0@,
                        entries@[i as int].1@,
                    ));
                    assert(decreases_to!(body@ => body@->Object_0));
                    assert(decreases_to!(all => all[i as int]));
                    assert(decreases_to!(all[i as int] => all[i as int].1));
                }
                match resolve(&entries[i].1, sections, start, prefix, till) {
                    Ok(value) => {
                        let ghost before = entry_views(done@);
                        done.push((entries[i].0.clone(), value));
                        assert(entry_views(done@) =~= before.push((entries@[i as int].0@, value@)));
                    },
                    Err(error) => {
                        proof {
                            assert(digested_entries(
                                all.take(i + 1),
                                views,
                                start as int,
                                prefix@,
                                till@,
                            ) is Err);
                            lemma_entries_error_stays(
                                all,
                                i + 1,
                                all.len() as int,
                                views,
                                start as int,
                                prefix@,
                                till@,
                            );
                            assert(all.take(all.len() as int) =~= all);
                        }
                        return Err(error);
                    },
                }
                i += 1;
            }
            proof {
                assert(all.take(all.len() as int) =~= all);
                lemma_object_view(done);
            }
            Ok(Json::Object(done))
        },
        Json::Array(items) => {
            let ghost all = item_views(items@);
            proof {
                lemma_array_view(*items);
            }
            let mut done: Vec<Json> = Vec::new();
            let mut i: usize = 0;
            assert(item_views(done@) =~= Seq::empty());
            assert(all.take(0) =~= Seq::empty());
            while i < items.len()
                invariant
                    i <= items.len(),
                    views == section_views(sections@),
                    all == item_views(items@),
                    body@ == JsonTree::Array(all),
                    digested_items(all.take(i as int), views, start as int, prefix@, till@)
                        == Ok::<Seq<JsonTree>, ErrorView>(item_views(done@)),
                decreases items.len() - i,
            {
                proof {
                    assert(all.take(i + 1).drop_last() =~= all.take(i as int));
                    assert(all.take(i + 1).last() == items@[i as int]@);
                    assert(decreases_to!(body@ => body@->Array_0));
                    assert(decreases_to!(all => all[i as int]));
                }
                match digest(&items[i], sections, start, prefix, till) {
                    Ok(item) => {
                        let ghost before = item_views(done@);
                        done.push(item);
                        assert(item_views(done@) =~= before.push(item@));
                    },
                    Err(error) => {
                        proof {
                            assert(digested_items(
                                all.take(i + 1),
                                views,
                                start as int,
                                prefix@,
                                till@,
                            ) is Err);
                            lemma_items_error_stays(
                                all,
                                i + 1,
                                all.len() as int,
                                views,
                                start as int,
                                prefix@,
                                till@,
                            );
                            assert(all.take(all.len() as int) =~= all);
                        }
                        return Err(error);
                    },
                }
                i += 1;
            }
            proof {
                assert(all.take(all.len() as int) =~= all);
                lemma_array_view(done);
            }
            Ok(Json::Array(done))
        },
        _ => Ok(body.clone()),
    }
}

/// What `convert` may return for a document, given what parsing returned:
/// the error of parsing, or the value of the sections.
pub open spec fn converted(parsed: Result<Seq<SectionView>, ErrorView>) -> Result<
    JsonTree,
    ErrorView,
> {
    match parsed {
        Ok(sections) => value_of(sections),
        Err(error) => Err(error),
    }
}

/// The value of the document `text` with a store that holds `texts`.
pub open spec fn converted_in(texts: Map<Seq<char>, Seq<char>>, text: Seq<char>) -> Result<
    JsonTree,
    ErrorView,
> {
    converted(sections_in(texts, text, NESTING_LIMIT as nat))
}

/// Conversion is stable under a trailing line break, where the last section
/// is of text or has a blank YAML body, and where there is no section at
/// all: with a store that holds `texts`, the document `text` and `text` with
/// a line break behind it have the same value, or fail with the same error.
///
/// The other formats are left to their decoders: what a line break more
/// does to a body of Markdown, JSON, CSV or YAML that is not blank is theirs
/// to say, and a body of SQL keeps every character, the line break too.
pub proof fn lemma_trailing_newline_converts(texts: Map<Seq<char>, Seq<char>>, text: Seq<char>)
    requires
        chunks(text).len() > 0 ==> tolerates_newline(chunks(text).last().0, chunks(text).last().1),
    ensures
        converted_in(texts, text.push('\n')) == converted_in(texts, text),
{
    lemma_trailing_newline_in_store(texts, text, NESTING_LIMIT as nat);
}

/// As `lemma_trailing_newline_converts`, with any store: where the
/// inclusions bring in the same things, the document `text` and `text` with
/// a line break behind it have the same value, or fail with the same error.
pub proof fn lemma_trailing_newline_converts_with(text: Seq<char>, brought: Seq<Brought>)
    requires
        chunks(text).len() > 0 ==> tolerates_newline(chunks(text).last().0, chunks(text).last().1),
    ensures
        converted(
            parsed_with(
                chunks(text.push('\n')),
                brought,
                chunks(text.push('\n')).len() as int,
            ),
        ) == converted(parsed_with(chunks(text), brought, chunks(text).len() as int)),
{
    lemma_trailing_newline(text, brought);
}

/// The value that the document `txt` describes, with what its inclusions
/// bring in from `ctx`: the sections of the document are parsed, and the
/// value at `ROOT` is evaluated over all of them.
///
/// - With a store that says what it holds, the outcome is `converted_in`.
/// - With any store, the outcome is that of evaluating what parsing may
///   return (`parse_result`).
/// - Where the store is asked for no section, the outcome is that of
///   evaluating what the sections make by themselves.
pub fn convert<T: Context>(txt: &str, ctx: &mut T) -> (r: Result<Json, Error>)
    ensures
        old(ctx).holds() matches Some(texts) ==> final(ctx).holds() == Some(texts)
            && value_outcome(r) == converted_in(texts, txt@),
        exists|parsed: Result<Seq<SectionView>, ErrorView>| #[trigger]
            parse_result(chunks(txt@), parsed) && value_outcome(r) == converted(parsed),
        plain(chunks(txt@)) ==> value_outcome(r) == converted(parsed_alone(chunks(txt@))),
{
    match Section::parse(txt, ctx) {
        Ok(sections) => {
            let ghost parsed = Ok::<Seq<SectionView>, ErrorView>(section_views(sections@));
            let r = eval("ROOT", sections.as_slice(), 0, "END");
            assert(parse_result(chunks(txt@), parsed) && value_outcome(r) == converted(parsed));
            r
        },
        Err(error) => {
            let ghost parsed = Err::<Seq<SectionView>, ErrorView>(error@);
            assert(parse_result(chunks(txt@), parsed));
            Err(error)
        },
    }
}

} // verus!
