//! Decoders: from the text of a body to the value it stands for.

use vstd::prelude::*;
use vstd::string::StringExecFns;
use crate::error::{Error, ErrorView};
use crate::section::Format;
use crate::table_format::{csv_header, csv_records, csv_to_list_list_string, table_trees};
use crate::text::{blank, is_blank, trim, trimmed};
use crate::value::{entry_views, item_views, lemma_array_view, lemma_object_view, Json, JsonTree};

verus! {

/// `serde_json::Value`, which the decoders of JSON and YAML produce.
#[verifier::external_type_specification]
#[verifier::external_body]
pub struct ExJsonValue(serde_json::Value);

/// The tree that a `serde_json::Value` holds, a mapping's entries in the
/// order in which the mapping hands them out.
pub uninterp spec fn json_tree(value: serde_json::Value) -> JsonTree;

/// What `serde_json::from_str` makes of `text`, asked for a
/// `serde_json::Value`: the tree of the value, or the message of the error.
pub uninterp spec fn json_decoded(text: Seq<char>) -> Result<JsonTree, Seq<char>>;

/// What `serde_yaml::from_str` makes of `text`, asked for a
/// `serde_json::Value`: the tree of the value, or the message of the error.
pub uninterp spec fn yaml_decoded(text: Seq<char>) -> Result<JsonTree, Seq<char>>;

/// The HTML that `comrak::markdown_to_html` renders `text` to under comrak's
/// default options.
pub uninterp spec fn markdown_html(text: Seq<char>) -> Seq<char>;

/// A `serde_json::Value` opened by one level: its variant, with what the
/// variant holds. The items of an array and the values of a mapping are
/// still values of `serde_json`.
enum Shallow {
    Null,
    Bool(bool),
    Number(serde_json::Number),
    String(String),
    Array(Vec<serde_json::Value>),
    Object(Vec<(String, serde_json::Value)>),
}

impl Shallow {
    /// The tree that the opened value holds.
    spec fn tree(self) -> JsonTree {
        match self {
            Shallow::Null => JsonTree::Null,
            Shallow::Bool(b) => JsonTree::Bool(b),
            Shallow::Number(n) => JsonTree::Number(n),
            Shallow::String(s) => JsonTree::String(s@),
            Shallow::Array(items) => JsonTree::Array(
                Seq::new(items@.len(), |i: int| json_tree(items@[i])),
            ),
            Shallow::Object(entries) => JsonTree::Object(
                Seq::new(entries@.len(), |i: int| (entries@[i].0@, json_tree(entries@[i].1))),
            ),
        }
    }
}

/// Opens a `serde_json::Value` by one level: tells its variants apart and
/// hands out what each holds, the entries of a `serde_json::Map` in the
/// order in which its `into_iter` gives them. The contract says what the
/// tree of a value (`json_tree`) is made of: the scalar that the value holds,
/// or the trees of its items, or the keys and trees of its entries.
#[verifier::external_body]
fn open_json(value: serde_json::Value) -> (shallow: Shallow)
    ensures
        shallow.tree() == json_tree(value),
{
    match value {
        serde_json::Value::Null => Shallow::Null,
        serde_json::Value::Bool(b) => Shallow::Bool(b),
        serde_json::Value::Number(n) => Shallow::Number(n),
        serde_json::Value::String(s) => Shallow::String(s),
        serde_json::Value::Array(items) => Shallow::Array(items),
        serde_json::Value::Object(entries) => Shallow::Object(entries.into_iter().collect()),
    }
}

/// The `Json` that stands for the tree of `value`.
pub fn json_of(value: serde_json::Value) -> (json: Json)
    ensures
        json@ == json_tree(value),
    decreases json_tree(value),
{
    let ghost whole = json_tree(value);
    match open_json(value) {
        Shallow::Null => Json::Null,
        Shallow::Bool(b) => Json::Bool(b),
        Shallow::Number(n) => Json::Number(n),
        Shallow::String(s) => Json::String(s),
        Shallow::Array(items) => {
            let ghost all = items@;
            let ghost trees = Seq::new(all.len(), |i: int| json_tree(all[i]));
            let mut done: Vec<Json> = Vec::new();
            for item in it: items
                invariant
                    it.seq() == all,
                    whole == json_tree(value),
                    whole == JsonTree::Array(trees),
                    trees == Seq::new(all.len(), |i: int| json_tree(all[i])),
                    done.len() == it.index(),
                    forall|j: int| 0 <= j < it.index() ==> (#[trigger] done@[j])@ == trees[j],
            {
                proof {
                    let at = it.index() as int;
                    assert(trees[at] == json_tree(item));
                    assert(decreases_to!(whole => whole->Array_0));
                    assert(decreases_to!(trees => trees[at]));
                }
                done.push(json_of(item));
            }
            proof {
                lemma_array_view(done);
                assert(item_views(done@) =~= trees);
            }
            Json::Array(done)
        },
        Shallow::Object(entries) => {
            let ghost all = entries@;
            let ghost trees = Seq::new(all.len(), |i: int| (all[i].0@, json_tree(all[i].1)));
            let mut done: Vec<(String, Json)> = Vec::new();
            for entry in it: entries
                invariant
                    it.seq() == all,
                    whole == json_tree(value),
                    whole == JsonTree::Object(trees),
                    trees == Seq::new(all.len(), |i: int| (all[i].0@, json_tree(all[i].1))),
                    done.len() == it.index(),
                    forall|j: int|
                        0 <= j < it.index() ==> ((#[trigger] done@[j]).0@, done@[j].1@)
                            == trees[j],
            {
                proof {
                    let at = it.index() as int;
                    assert(trees[at] == (entry.0@, json_tree(entry.1)));
                    assert(decreases_to!(whole => whole->Object_0));
                    assert(decreases_to!(trees => trees[at]));
                    assert(decreases_to!(trees[at] => trees[at].1));
                }
                done.push((entry.0, json_of(entry.1)));
            }
            proof {
                lemma_object_view(done);
                assert(entry_views(done@) =~= trees);
            }
            Json::Object(done)
        },
    }
}

/// `serde_json::from_str`, asked for a `serde_json::Value`. The contract
/// names the outcome (`json_decoded`): the tree of the value that comes
/// back, or the text of the error, which is handed out in its place.
#[verifier::external_body]
fn json_from_str(text: &str) -> (parsed: Result<serde_json::Value, String>)
    ensures
        match parsed {
            Ok(value) => json_decoded(text@) == Ok::<JsonTree, Seq<char>>(json_tree(value)),
            Err(message) => json_decoded(text@) == Err::<JsonTree, Seq<char>>(message@),
        },
{
    serde_json::from_str::<serde_json::Value>(text).map_err(|error| error.to_string())
}

/// `serde_yaml::from_str`, asked for a `serde_json::Value`. The contract
/// names the outcome (`yaml_decoded`): the tree of the value that comes
/// back, or the text of the error, which is handed out in its place.
#[verifier::external_body]
fn yaml_from_str(text: &str) -> (parsed: Result<serde_json::Value, String>)
    ensures
        match parsed {
            Ok(value) => yaml_decoded(text@) == Ok::<JsonTree, Seq<char>>(json_tree(value)),
            Err(message) => yaml_decoded(text@) == Err::<JsonTree, Seq<char>>(message@),
        },
{
    serde_yaml::from_str::<serde_json::Value>(text).map_err(|error| error.to_string())
}

/// `comrak::markdown_to_html` under `comrak::Options::default()`. The
/// contract names the HTML that it returns (`markdown_html`).
#[verifier::external_body]
fn markdown_to_html(text: &str) -> (html: String)
    ensures
        html@ == markdown_html(text@),
{
    comrak::markdown_to_html(text, &comrak::Options::default())
}

/// Whether the character at `i` is an escape: a `/` that begins a line.
pub open spec fn escape_at(s: Seq<char>, i: int) -> bool {
    0 <= i < s.len() && s[i] == '/' && (i == 0 || s[i - 1] == '\n')
}

/// The first `n` characters of `s` without the escapes among them.
pub open spec fn unescaped_upto(s: Seq<char>, n: int) -> Seq<char>
    decreases n,
{
    if n <= 0 {
        Seq::empty()
    } else if escape_at(s, n - 1) {
        unescaped_upto(s, n - 1)
    } else {
        unescaped_upto(s, n - 1).push(s[n - 1])
    }
}

/// `s` with the `/` removed that begins a line. A line that begins with `/`
/// thereby stands for the rest of itself, whatever that is.
pub open spec fn unescaped(s: Seq<char>) -> Seq<char> {
    unescaped_upto(s, s.len() as int)
}

/// `body` with the `/` removed that begins a line.
pub fn unescape_lines(body: &str) -> (plain: String)
    ensures
        plain@ == unescaped(body@),
{
    let mut plain = String::new();
    let mut at_line_start = true;
    for c in it: body.chars()
        invariant
            it.seq() == body@,
            plain@ == unescaped_upto(body@, it.index() as int),
            at_line_start == (it.index() == 0 || body@[it.index() - 1] == '\n'),
    {
        if !(at_line_start && c == '/') {
            plain.push(c);
        }
        at_line_start = c == '\n';
    }
    plain
}

/// The outcome of a decoder, from what it returned.
pub open spec fn value_outcome(r: Result<Json, Error>) -> Result<JsonTree, ErrorView> {
    match r {
        Ok(value) => Ok(value@),
        Err(error) => Err(error@),
    }
}

/// A decoder's own outcome as an outcome of this library: its message
/// becomes a `Decode` error.
pub open spec fn decoder_outcome(r: Result<JsonTree, Seq<char>>) -> Result<JsonTree, ErrorView> {
    match r {
        Ok(tree) => Ok(tree),
        Err(message) => Err(ErrorView::Decode(message)),
    }
}

/// What a body stands for under a format.
///
/// - Text: the body without the white space at its two ends.
/// - Markdown: the HTML that the body renders to, once the `/` that begins
///   a line is removed.
/// - JSON: what the JSON decoder makes of the body.
/// - YAML: an empty mapping where the body is blank, else what the YAML
///   decoder makes of it.
/// - SQL: the body as it is.
/// - Table: the rows of the body read as CSV, the header row first; a body
///   that the CSV reader refuses in part is an error.
pub open spec fn decoded(format: Format, body: Seq<char>) -> Result<JsonTree, ErrorView> {
    match format {
        Format::Text => Ok(JsonTree::String(trimmed(body))),
        Format::Markdown => Ok(JsonTree::String(markdown_html(unescaped(body)))),
        Format::JSON => decoder_outcome(json_decoded(body)),
        Format::YAML => if blank(body) {
            Ok(JsonTree::Object(Seq::empty()))
        } else {
            decoder_outcome(yaml_decoded(body))
        },
        Format::SQL => Ok(JsonTree::String(body)),
        Format::Table => match table_trees(csv_header(body), csv_records(body)) {
            Ok(rows) => Ok(JsonTree::Array(rows)),
            Err(error) => Err(error),
        },
    }
}

/// Decodes `text` as JSON.
pub fn decode_json(text: &str) -> (r: Result<Json, Error>)
    ensures
        value_outcome(r) == decoder_outcome(json_decoded(text@)),
{
    match json_from_str(text) {
        Ok(value) => Ok(json_of(value)),
        Err(message) => Err(Error::Decode(message)),
    }
}

/// Decodes `text` as YAML.
pub fn decode_yaml(text: &str) -> (r: Result<Json, Error>)
    ensures
        value_outcome(r) == decoder_outcome(yaml_decoded(text@)),
{
    match yaml_from_str(text) {
        Ok(value) => Ok(json_of(value)),
        Err(message) => Err(Error::Decode(message)),
    }
}

/// Renders `body` as Markdown, a `/` that begins a line removed first.
pub fn render_markdown(body: &str) -> (html: String)
    ensures
        html@ == markdown_html(unescaped(body@)),
{
    let plain = unescape_lines(body);
    markdown_to_html(plain.as_str())
}

/// Decodes `body` as `format` asks.
pub fn decode(format: Format, body: &str) -> (r: Result<Json, Error>)
    ensures
        value_outcome(r) == decoded(format, body@),
{
    match format {
        Format::Text => Ok(Json::String(trim(body))),
        Format::Markdown => Ok(Json::String(render_markdown(body))),
        Format::JSON => decode_json(body),
        Format::YAML => {
            if is_blank(body) {
                let entries: Vec<(String, Json)> = Vec::new();
                proof {
                    lemma_object_view(entries);
                    assert(entry_views(entries@) =~= Seq::empty());
                }
                Ok(Json::Object(entries))
            } else {
                decode_yaml(body)
            }
        },
        Format::SQL => Ok(Json::String(String::from_str(body))),
        Format::Table => match csv_to_list_list_string(body) {
            Ok(rows) => {
                proof {
                    lemma_array_view(rows);
                }
                Ok(Json::Array(rows))
            },
            Err(error) => Err(error),
        },
    }
}

} // verus!
