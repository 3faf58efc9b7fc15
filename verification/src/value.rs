//! The dynamic values that templates, section bodies and results are made of.

use vstd::prelude::*;
use vstd::string::StringExecFns;
use crate::text::same_text;

verus! {

/// The number type of `serde_json`, carried through unread.
#[verifier::external_type_specification]
#[verifier::external_body]
pub struct ExNumber(serde_json::Number);

/// `Clone::clone` of `serde_json::Number` returns an equal number.
pub assume_specification[ <serde_json::Number as Clone>::clone ](n: &serde_json::Number) -> (copy:
    serde_json::Number)
    ensures
        copy == *n,
;

/// The text that `serde_json::Number` writes of itself through `Display`.
pub uninterp spec fn number_text(n: serde_json::Number) -> Seq<char>;

/// `to_string` of a `serde_json::Number`, which writes the number through its
/// `Display`. The contract names the text (`number_text`).
#[verifier::external_body]
fn number_to_string(n: &serde_json::Number) -> (text: String)
    ensures
        text@ == number_text(*n),
{
    n.to_string()
}

/// A decoded JSON-like value. The entries of an `Object` keep their order;
/// their keys are meant to be distinct, and where one repeats, the first
/// entry is the one that is found.
#[derive(Debug, PartialEq, Eq)]
pub enum Json {
    Null,
    Bool(bool),
    Number(serde_json::Number),
    String(String),
    Array(Vec<Json>),
    Object(Vec<(String, Json)>),
}

/// The mathematical tree that a `Json` stands for.
pub ghost enum JsonTree {
    Null,
    Bool(bool),
    Number(serde_json::Number),
    String(Seq<char>),
    Array(Seq<JsonTree>),
    Object(Seq<(Seq<char>, JsonTree)>),
}

/// The tree that `value` stands for.
pub open spec fn tree_of(value: Json) -> JsonTree
    decreases value,
{
    match value {
        Json::Null => JsonTree::Null,
        Json::Bool(b) => JsonTree::Bool(b),
        Json::Number(n) => JsonTree::Number(n),
        Json::String(s) => JsonTree::String(s@),
        Json::Array(items) => JsonTree::Array(
            Seq::new(
                items@.len(),
                |i: int|
                    if 0 <= i < items@.len() {
                        tree_of(items@[i])
                    } else {
                        JsonTree::Null
                    },
            ),
        ),
        Json::Object(entries) => JsonTree::Object(
            Seq::new(
                entries@.len(),
                |i: int|
                    if 0 <= i < entries@.len() {
                        (entries@[i].0@, tree_of(entries@[i].1))
                    } else {
                        (Seq::empty(), JsonTree::Null)
                    },
            ),
        ),
    }
}

impl View for Json {
    type V = JsonTree;

    open spec fn view(&self) -> JsonTree {
        tree_of(*self)
    }
}

/// The trees of a list of values.
pub open spec fn item_views(items: Seq<Json>) -> Seq<JsonTree> {
    Seq::new(items.len(), |i: int| items[i]@)
}

/// The keys and trees of a list of entries.
pub open spec fn entry_views(entries: Seq<(String, Json)>) -> Seq<(Seq<char>, JsonTree)> {
    Seq::new(entries.len(), |i: int| (entries[i].0@, entries[i].1@))
}

/// An array's tree is made of its items' trees.
pub proof fn lemma_array_view(items: Vec<Json>)
    ensures
        Json::Array(items)@ == JsonTree::Array(item_views(items@)),
{
    assert(Json::Array(items)@->Array_0 =~= item_views(items@));
}

/// An object's tree is made of its entries' keys and trees.
pub proof fn lemma_object_view(entries: Vec<(String, Json)>)
    ensures
        Json::Object(entries)@ == JsonTree::Object(entry_views(entries@)),
{
    let tree = Json::Object(entries)@;
    assert(tree is Object);
    let left = tree->Object_0;
    assert(left.len() == entries@.len());
    assert forall|i: int| 0 <= i < left.len() implies left[i] == entry_views(entries@)[i] by {
        assert(left[i] == (entries@[i].0@, entries@[i].1@));
    }
    assert(left =~= entry_views(entries@));
}

/// The index of the first entry from `from` on whose key is `key`, or the
/// number of entries where there is none.
pub open spec fn field_index(entries: Seq<(Seq<char>, JsonTree)>, key: Seq<char>, from: int) -> int
    decreases entries.len() - from,
{
    if 0 <= from < entries.len() && entries[from].0 != key {
        field_index(entries, key, from + 1)
    } else {
        from
    }
}

/// The value of the first entry whose key is `key`.
pub open spec fn field(entries: Seq<(Seq<char>, JsonTree)>, key: Seq<char>) -> Option<JsonTree> {
    let at = field_index(entries, key, 0);
    if 0 <= at < entries.len() {
        Some(entries[at].1)
    } else {
        None
    }
}

/// `field_index` stays within the entries, stops at an entry with the key,
/// and passes none.
pub proof fn lemma_field_index(entries: Seq<(Seq<char>, JsonTree)>, key: Seq<char>, from: int)
    requires
        0 <= from <= entries.len(),
    ensures
        from <= field_index(entries, key, from) <= entries.len(),
        field_index(entries, key, from) < entries.len() ==> entries[field_index(
            entries,
            key,
            from,
        )].0 == key,
        forall|i: int|
            from <= i < field_index(entries, key, from) ==> (#[trigger] entries[i]).0 != key,
    decreases entries.len() - from,
{
    if from < entries.len() && entries[from].0 != key {
        lemma_field_index(entries, key, from + 1);
    }
}

impl JsonTree {
    /// Whether the tree is a mapping that has the key `key`.
    pub open spec fn has_key(self, key: Seq<char>) -> bool {
        self matches JsonTree::Object(entries) && field(entries, key) is Some
    }

    /// Whether the tree is a reference marker: a mapping with the key `$ref`.
    pub open spec fn is_marker(self) -> bool {
        self.has_key("$ref"@)
    }
}

impl Clone for Json {
    /// A copy that stands for the same tree.
    fn clone(&self) -> (copy: Json)
        ensures
            copy@ == self@,
        decreases self,
    {
        match self {
            Json::Null => Json::Null,
            Json::Bool(b) => Json::Bool(*b),
            Json::Number(n) => Json::Number(n.clone()),
            Json::String(s) => Json::String(s.clone()),
            Json::Array(items) => {
                let mut copies: Vec<Json> = Vec::new();
                let mut i: usize = 0;
                while i < items.len()
                    invariant
                        *self == Json::Array(*items),
                        i <= items.len(),
                        copies.len() == i,
                        forall|j: int| 0 <= j < i ==> copies@[j]@ == items@[j]@,
                    decreases items.len() - i,
                {
                    assert(decreases_to!(self => self->Array_0));
                    copies.push(items[i].clone());
                    i += 1;
                }
                proof {
                    lemma_array_view(copies);
                    lemma_array_view(*items);
                    assert(item_views(copies@) =~= item_views(items@));
                }
                Json::Array(copies)
            },
            Json::Object(entries) => {
                let mut copies: Vec<(String, Json)> = Vec::new();
                let mut i: usize = 0;
                while i < entries.len()
                    invariant
                        *self == Json::Object(*entries),
                        i <= entries.len(),
                        copies.len() == i,
                        forall|j: int|
                            0 <= j < i ==> copies@[j].0@ == entries@[j].0@ && copies@[j].1@
                                == entries@[j].1@,
                    decreases entries.len() - i,
                {
                    assert(decreases_to!(self => self->Object_0));
                    assert(decreases_to!(entries[i as int] => entries[i as int].1));
                    copies.push((entries[i].0.clone(), entries[i].1.clone()));
                    i += 1;
                }
                proof {
                    lemma_object_view(copies);
                    lemma_object_view(*entries);
                    assert(entry_views(copies@) =~= entry_views(entries@));
                }
                Json::Object(copies)
            },
        }
    }
}

/// The first `n` characters of `s` as they stand between quotes: a quote and
/// a backslash each with a backslash before it, any other character as it
/// is.
pub open spec fn escaped(s: Seq<char>, n: int) -> Seq<char>
    decreases n,
{
    if n <= 0 {
        Seq::empty()
    } else if s[n - 1] == '"' || s[n - 1] == '\\' {
        escaped(s, n - 1).push('\\').push(s[n - 1])
    } else {
        escaped(s, n - 1).push(s[n - 1])
    }
}

/// `s` between quotes.
pub open spec fn quoted(s: Seq<char>) -> Seq<char> {
    seq!['"'] + escaped(s, s.len() as int) + seq!['"']
}

/// The first `n` of `items` written out, a comma between one and the next.
pub open spec fn written_items(items: Seq<JsonTree>, n: int) -> Seq<char>
    decreases items, n,
{
    if 0 < n <= items.len() {
        if n == 1 {
            written(items[0])
        } else {
            written_items(items, n - 1) + seq![','] + written(items[n - 1])
        }
    } else {
        Seq::empty()
    }
}

/// The first `n` of `entries` written out, each as its key between quotes,
/// a colon and its value, a comma between one and the next.
pub open spec fn written_entries(entries: Seq<(Seq<char>, JsonTree)>, n: int) -> Seq<char>
    decreases entries, n,
{
    if 0 < n <= entries.len() {
        let entry = quoted(entries[n - 1].0) + seq![':'] + written(entries[n - 1].1);
        if n == 1 {
            entry
        } else {
            written_entries(entries, n - 1) + seq![','] + entry
        }
    } else {
        Seq::empty()
    }
}

/// A tree written out as a line of text: `null`, `true` and `false` for
/// themselves, a number as `serde_json` writes it, a string between quotes,
/// the items of a sequence between brackets, the entries of a mapping
/// between braces.
pub open spec fn written(tree: JsonTree) -> Seq<char>
    decreases tree, 0int,
{
    match tree {
        JsonTree::Null => "null"@,
        JsonTree::Bool(b) => if b {
            "true"@
        } else {
            "false"@
        },
        JsonTree::Number(n) => number_text(n),
        JsonTree::String(s) => quoted(s),
        JsonTree::Array(items) => seq!['['] + written_items(items, items.len() as int) + seq![
            ']',
        ],
        JsonTree::Object(entries) => seq!['{'] + written_entries(entries, entries.len() as int)
            + seq!['}'],
    }
}

/// `s` between quotes, a quote and a backslash in it each with a backslash
/// before it.
pub fn quote(s: &str) -> (text: String)
    ensures
        text@ == quoted(s@),
{
    let mut text = String::new();
    text.push('"');
    assert(text@ =~= seq!['"']);
    for c in it: s.chars()
        invariant
            it.seq() == s@,
            text@ == seq!['"'] + escaped(s@, it.index() as int),
    {
        if c == '"' || c == '\\' {
            text.push('\\');
        }
        text.push(c);
        assert(text@ =~= seq!['"'] + escaped(s@, it.index() + 1));
    }
    text.push('"');
    text
}

impl Json {
    /// The value written out as a line of text.
    pub fn write(&self) -> (text: String)
        ensures
            text@ == written(self@),
        decreases self,
    {
        match self {
            Json::Null => String::from_str("null"),
            Json::Bool(b) => if *b {
                String::from_str("true")
            } else {
                String::from_str("false")
            },
            Json::Number(n) => number_to_string(n),
            Json::String(s) => quote(s.as_str()),
            Json::Array(items) => {
                let ghost all = item_views(items@);
                proof {
                    lemma_array_view(*items);
                }
                let mut text = String::new();
                text.push('[');
                assert(text@ =~= seq!['['] + written_items(all, 0));
                let mut i: usize = 0;
                while i < items.len()
                    invariant
                        *self == Json::Array(*items),
                        all == item_views(items@),
                        i <= items.len(),
                        text@ == seq!['['] + written_items(all, i as int),
                    decreases items.len() - i,
                {
                    if i > 0 {
                        text.push(',');
                    }
                    assert(decreases_to!(self => self->Array_0));
                    let item = items[i].write();
                    text.append(item.as_str());
                    proof {
                        assert(all[i as int] == items@[i as int]@);
                        assert(text@ =~= seq!['['] + written_items(all, i + 1));
                    }
                    i += 1;
                }
                text.push(']');
                text
            },
            Json::Object(entries) => {
                let ghost all = entry_views(entries@);
                proof {
                    lemma_object_view(*entries);
                }
                let mut text = String::new();
                text.push('{');
                assert(text@ =~= seq!['{'] + written_entries(all, 0));
                let mut i: usize = 0;
                while i < entries.len()
                    invariant
                        *self == Json::Object(*entries),
                        all == entry_views(entries@),
                        i <= entries.len(),
                        text@ == seq!['{'] + written_entries(all, i as int),
                    decreases entries.len() - i,
                {
                    if i > 0 {
                        text.push(',');
                    }
                    let key = quote(entries[i].0.as_str());
                    text.append(key.as_str());
                    text.push(':');
                    assert(decreases_to!(self => self->Object_0));
                    assert(decreases_to!(entries[i as int] => entries[i as int].1));
                    let value = entries[i].1.write();
                    text.append(value.as_str());
                    proof {
                        assert(all[i as int] == (entries@[i as int].0@, entries@[i as int].1@));
                        assert(text@ =~= seq!['{'] + written_entries(all, i + 1));
                    }
                    i += 1;
                }
                text.push('}');
                text
            },
        }
    }
}

/// The value of the first of `entries` whose key is `key`.
pub fn find_field<'a>(entries: &'a Vec<(String, Json)>, key: &str) -> (found: Option<&'a Json>)
    ensures
        match found {
            Some(value) => field(entry_views(entries@), key@) == Some(value@),
            None => field(entry_views(entries@), key@) is None,
        },
{
    let mut i: usize = 0;
    while i < entries.len()
        invariant
            i <= entries.len(),
            field_index(entry_views(entries@), key@, 0) == field_index(
                entry_views(entries@),
                key@,
                i as int,
            ),
        decreases entries.len() - i,
    {
        if same_text(entries[i].0.as_str(), key) {
            return Some(&entries[i].1);
        }
        i += 1;
    }
    None
}

} // verus!
