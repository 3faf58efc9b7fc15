//! The parser: from the text of a document to its sections, with what the
//! inclusions bring in from a store.
//!
//! What a store answers decides what an inclusion brings in. For a store
//! that says what it holds, the parser's outcome is a function of the
//! document and of that. For any other store it is the outcome for
//! something that each inclusion may have brought in.

use vstd::prelude::*;
use crate::context::Context;
use crate::decode::{
    decode, decode_json, decode_yaml, decoded, decoder_outcome, json_decoded, yaml_decoded,
};
use crate::error::{Error, ErrorView};
use crate::header::{classified, Header};
use crate::section::{
    assembled, lemma_section_views_add, section_views, Format, Section, SectionView, Template,
    TemplateView,
};
use crate::split::{chunks, lemma_trailing_newline_chunks, split_chunks};
use crate::text::{blank, joined, lemma_trailing_newline_trims};
use crate::value::{Json, JsonTree};

verus! {

/// What an inclusion brought in, or the error that it was: a resource that
/// does not decode, or a sub-graft that fails or stands too deep.
pub type Brought = Result<TemplateView, ErrorView>;

/// The sections that a header line and a body text become, given what the
/// inclusion brought in; or the first error on the way: of the header, of the
/// body, or of the inclusion. Without an inclusion key, what was brought in
/// counts for nothing.
pub open spec fn built(header: Seq<char>, body: Seq<char>, brought: Brought) -> Result<
    Seq<SectionView>,
    ErrorView,
> {
    match classified(header) {
        Err(error) => Err(error),
        Ok(head) => match decoded(head.format, body) {
            Err(error) => Err(error),
            Ok(own) => if head.inclusion is None {
                Ok(assembled(head, own, TemplateView::Absent))
            } else {
                match brought {
                    Err(error) => Err(error),
                    Ok(template) => Ok(assembled(head, own, template)),
                }
            },
        },
    }
}

/// What a header line and a body text become where the inclusion brings in
/// nothing: the section with its overrides, or the error of the header or of
/// the body.
pub open spec fn built_alone(header: Seq<char>, body: Seq<char>) -> Result<
    Seq<SectionView>,
    ErrorView,
> {
    built(header, body, Ok(TemplateView::Absent))
}

/// Whether the store is asked for a section: its header and its body are
/// sound, and the header has an inclusion key.
pub open spec fn asks_store(header: Seq<char>, body: Seq<char>) -> bool {
    classified(header) matches Ok(head) && decoded(head.format, body) is Ok && head.inclusion
        is Some
}

/// The sections that the first `n` chunks of a document become, given what
/// the inclusion of each brought in; or the first error among them.
pub open spec fn parsed_with(
    chunks: Seq<(Seq<char>, Seq<char>)>,
    brought: Seq<Brought>,
    n: int,
) -> Result<Seq<SectionView>, ErrorView>
    decreases n,
{
    if n <= 0 {
        Ok(Seq::empty())
    } else {
        match parsed_with(chunks, brought, n - 1) {
            Err(error) => Err(error),
            Ok(before) => match built(chunks[n - 1].0, chunks[n - 1].1, brought[n - 1]) {
                Err(error) => Err(error),
                Ok(more) => Ok(before + more),
            },
        }
    }
}

/// What `Section::from` may return for a header line and a body text: what
/// the two become with something that the inclusion may have brought in.
pub open spec fn from_result(
    header: Seq<char>,
    body: Seq<char>,
    out: Result<Seq<SectionView>, ErrorView>,
) -> bool {
    exists|brought: Brought| out == #[trigger] built(header, body, brought)
}

/// What `Section::parse` may return for the chunks of a document: what they
/// become with something that the inclusion of each may have brought in.
pub open spec fn parse_result(
    chunks: Seq<(Seq<char>, Seq<char>)>,
    out: Result<Seq<SectionView>, ErrorView>,
) -> bool {
    exists|brought: Seq<Brought>|
        brought.len() == chunks.len() && out == #[trigger] parsed_with(
            chunks,
            brought,
            chunks.len() as int,
        )
}

/// Whether the store is asked for none of the chunks.
pub open spec fn plain(chunks: Seq<(Seq<char>, Seq<char>)>) -> bool {
    forall|i: int| 0 <= i < chunks.len() ==> !asks_store((#[trigger] chunks[i]).0, chunks[i].1)
}

/// `n` inclusions that brought in nothing.
pub open spec fn nothing_brought(n: nat) -> Seq<Brought> {
    Seq::new(n, |i: int| Ok(TemplateView::Absent))
}

/// What the sections of a document become without a store.
pub open spec fn parsed_alone(chunks: Seq<(Seq<char>, Seq<char>)>) -> Result<
    Seq<SectionView>,
    ErrorView,
> {
    parsed_with(chunks, nothing_brought(chunks.len()), chunks.len() as int)
}

/// What the store held under an inclusion key: nothing, or the text under
/// the first of the five resource keys that it holds.
#[derive(Debug, PartialEq, Eq)]
pub enum Inclusion {
    /// The store holds none of the five.
    Absent,
    /// The text under `key.json`.
    Json(String),
    /// The text under `key.yml` or, failing that, under `key.yaml`.
    Yaml(String),
    /// The text under `key.txt`.
    Text(String),
    /// The text under `key.graft`.
    Graft(String),
}

/// What an `Inclusion` stands for.
pub ghost enum InclusionView {
    Absent,
    Json(Seq<char>),
    Yaml(Seq<char>),
    Text(Seq<char>),
    Graft(Seq<char>),
}

impl View for Inclusion {
    type V = InclusionView;

    open spec fn view(&self) -> InclusionView {
        match self {
            Inclusion::Absent => InclusionView::Absent,
            Inclusion::Json(text) => InclusionView::Json(text@),
            Inclusion::Yaml(text) => InclusionView::Yaml(text@),
            Inclusion::Text(text) => InclusionView::Text(text@),
            Inclusion::Graft(text) => InclusionView::Graft(text@),
        }
    }
}

/// How deep sub-grafts are followed: a sub-graft may bring in a sub-graft,
/// and so on, this many times.
pub const NESTING_LIMIT: usize = 128;

/// What a store that holds `texts` has under the inclusion key `key`: the
/// text of the first of the resources `key.json`, `key.yml`, `key.yaml`,
/// `key.txt` and `key.graft` that it holds.
pub open spec fn probed(texts: Map<Seq<char>, Seq<char>>, key: Seq<char>) -> InclusionView {
    if texts.contains_key(key + ".json"@) {
        InclusionView::Json(texts[key + ".json"@])
    } else if texts.contains_key(key + ".yml"@) {
        InclusionView::Yaml(texts[key + ".yml"@])
    } else if texts.contains_key(key + ".yaml"@) {
        InclusionView::Yaml(texts[key + ".yaml"@])
    } else if texts.contains_key(key + ".txt"@) {
        InclusionView::Text(texts[key + ".txt"@])
    } else if texts.contains_key(key + ".graft"@) {
        InclusionView::Graft(texts[key + ".graft"@])
    } else {
        InclusionView::Absent
    }
}

/// What the inclusion key `key` brings in from a store that holds `texts`,
/// sub-grafts followed `depth` deep.
///
/// A JSON or YAML resource is decoded to a template value, a text resource
/// is one as it is, and a graft resource is parsed to its sections. A
/// resource that does not decode is an error, and so is a sub-graft where
/// `depth` is used up.
pub open spec fn brought_by(
    texts: Map<Seq<char>, Seq<char>>,
    key: Seq<char>,
    depth: nat,
) -> Brought
    decreases depth, 0nat,
{
    match probed(texts, key) {
        InclusionView::Absent => Ok(TemplateView::Absent),
        InclusionView::Json(text) => match decoder_outcome(json_decoded(text)) {
            Ok(value) => Ok(TemplateView::Body(value)),
            Err(error) => Err(error),
        },
        InclusionView::Yaml(text) => match decoder_outcome(yaml_decoded(text)) {
            Ok(value) => Ok(TemplateView::Body(value)),
            Err(error) => Err(error),
        },
        InclusionView::Text(text) => Ok(TemplateView::Body(JsonTree::String(text))),
        InclusionView::Graft(text) => if depth == 0 {
            Err(ErrorView::TooDeep)
        } else {
            match sections_in(texts, text, (depth - 1) as nat) {
                Ok(sections) => Ok(TemplateView::Sections(sections)),
                Err(error) => Err(error),
            }
        },
    }
}

/// What the inclusion of a section with the header line `header` brings in
/// from a store that holds `texts`: nothing, where the header is an error or
/// has no key.
pub open spec fn brought_for(
    texts: Map<Seq<char>, Seq<char>>,
    header: Seq<char>,
    depth: nat,
) -> Brought
    decreases depth, 1nat,
{
    match classified(header) {
        Ok(head) => match head.inclusion {
            Some(key) => brought_by(texts, key, depth),
            None => Ok(TemplateView::Absent),
        },
        Err(_) => Ok(TemplateView::Absent),
    }
}

/// What the inclusion of each chunk brings in from a store that holds
/// `texts`.
pub open spec fn all_brought(
    texts: Map<Seq<char>, Seq<char>>,
    chunks: Seq<(Seq<char>, Seq<char>)>,
    depth: nat,
) -> Seq<Brought>
    decreases depth, 2nat,
{
    Seq::new(chunks.len(), |i: int| brought_for(texts, chunks[i].0, depth))
}

/// The sections of the document `text` with a store that holds `texts`,
/// sub-grafts followed `depth` deep; or the first error.
pub open spec fn sections_in(
    texts: Map<Seq<char>, Seq<char>>,
    text: Seq<char>,
    depth: nat,
) -> Result<Seq<SectionView>, ErrorView>
    decreases depth, 3nat,
{
    parsed_with(chunks(text), all_brought(texts, chunks(text), depth), chunks(text).len() as int)
}

/// The outcome of parsing, from what it returned.
pub open spec fn sections_outcome(r: Result<Vec<Section>, Error>) -> Result<
    Seq<SectionView>,
    ErrorView,
> {
    match r {
        Ok(sections) => Ok(section_views(sections@)),
        Err(error) => Err(error@),
    }
}

/// What the first `n` chunks become depends on what the first `n` inclusions
/// brought in, and on nothing that came later.
pub proof fn lemma_parsed_with_agree(
    chunks: Seq<(Seq<char>, Seq<char>)>,
    a: Seq<Brought>,
    b: Seq<Brought>,
    n: int,
)
    requires
        forall|i: int| 0 <= i < n ==> a[i] == b[i],
    ensures
        parsed_with(chunks, a, n) == parsed_with(chunks, b, n),
    decreases n,
{
    if n > 0 {
        lemma_parsed_with_agree(chunks, a, b, n - 1);
    }
}

/// What the first `n` chunks become depends on the first `n` chunks only.
pub proof fn lemma_parsed_with_same_chunks(
    a: Seq<(Seq<char>, Seq<char>)>,
    b: Seq<(Seq<char>, Seq<char>)>,
    brought: Seq<Brought>,
    n: int,
)
    requires
        forall|i: int| 0 <= i < n ==> a[i] == b[i],
    ensures
        parsed_with(a, brought, n) == parsed_with(b, brought, n),
    decreases n,
{
    if n > 0 {
        lemma_parsed_with_same_chunks(a, b, brought, n - 1);
    }
}

/// Once a chunk is an error, the chunks after it change nothing.
pub proof fn lemma_parsed_with_error_stays(
    chunks: Seq<(Seq<char>, Seq<char>)>,
    brought: Seq<Brought>,
    m: int,
    n: int,
)
    requires
        0 <= m <= n,
        parsed_with(chunks, brought, m) is Err,
    ensures
        parsed_with(chunks, brought, n) == parsed_with(chunks, brought, m),
    decreases n - m,
{
    if m < n {
        lemma_parsed_with_error_stays(chunks, brought, m, n - 1);
    }
}

/// A document for whose sections the store is not asked becomes the same
/// with any store: what its sections make by themselves.
pub proof fn lemma_plain_document(
    chunks: Seq<(Seq<char>, Seq<char>)>,
    brought: Seq<Brought>,
    n: int,
)
    requires
        plain(chunks),
        0 <= n <= chunks.len(),
    ensures
        parsed_with(chunks, brought, n) == parsed_with(chunks, nothing_brought(chunks.len()), n),
    decreases n,
{
    if n > 0 {
        lemma_plain_document(chunks, brought, n - 1);
        assert(!asks_store(chunks[n - 1].0, chunks[n - 1].1));
    }
}

/// Whether a chunk makes the same sections with a line break more behind
/// its body: its header is an error, or its format is text, or its format is
/// YAML and its body is blank.
pub open spec fn tolerates_newline(header: Seq<char>, body: Seq<char>) -> bool {
    match classified(header) {
        Err(_) => true,
        Ok(head) => head.format == Format::Text || (head.format == Format::YAML && blank(body)),
    }
}

/// A line break behind a document changes nothing, where the last section is
/// of text or has a blank YAML body, and where there is no section at all.
/// With the same things brought in by the inclusions, the document `text`
/// and `text` with a line break behind it become the same sections, or fail
/// with the same error.
///
/// The other formats are left to their decoders: what a line break more
/// does to a body of Markdown, JSON, CSV or YAML that is not blank is theirs
/// to say, and a body of SQL keeps every character, the line break too.
pub proof fn lemma_trailing_newline(text: Seq<char>, brought: Seq<Brought>)
    requires
        chunks(text).len() > 0 ==> tolerates_newline(chunks(text).last().0, chunks(text).last().1),
    ensures
        chunks(text.push('\n')).len() == chunks(text).len(),
        parsed_with(chunks(text.push('\n')), brought, chunks(text).len() as int) == parsed_with(
            chunks(text),
            brought,
            chunks(text).len() as int,
        ),
{
    let short = chunks(text);
    let long = chunks(text.push('\n'));
    lemma_trailing_newline_chunks(text);
    if short.len() > 0 {
        let n = short.len() as int;
        lemma_parsed_with_same_chunks(short, long, brought, n - 1);
        let header = short.last().0;
        let body = short.last().1;
        assert(long[n - 1] == long.last());
        assert(short[n - 1] == short.last());
        lemma_trailing_newline_trims(body);
        assert(built(header, body.push('\n'), brought[n - 1]) == built(
            header,
            body,
            brought[n - 1],
        ));
    }
}

/// As `lemma_trailing_newline`, with a store that holds `texts`.
pub proof fn lemma_trailing_newline_in_store(
    texts: Map<Seq<char>, Seq<char>>,
    text: Seq<char>,
    depth: nat,
)
    requires
        chunks(text).len() > 0 ==> tolerates_newline(chunks(text).last().0, chunks(text).last().1),
    ensures
        sections_in(texts, text.push('\n'), depth) == sections_in(texts, text, depth),
{
    let short = chunks(text);
    let long = chunks(text.push('\n'));
    lemma_trailing_newline_chunks(text);
    lemma_trailing_newline(text, all_brought(texts, short, depth));
    assert forall|i: int| 0 <= i < short.len() implies all_brought(texts, long, depth)[i]
        == all_brought(texts, short, depth)[i] by {
        if i < short.len() - 1 {
            assert(long[i] == short[i]);
        } else {
            assert(long[i] == long.last());
            assert(short[i] == short.last());
        }
    }
    lemma_parsed_with_agree(
        long,
        all_brought(texts, long, depth),
        all_brought(texts, short, depth),
        short.len() as int,
    );
}

impl Section {
    /// Asks `ctx` for what stands under the inclusion key `key`: for the
    /// resources `key.json`, `key.yml`, `key.yaml`, `key.txt` and
    /// `key.graft`, in this order, until it holds one. Of a store that says
    /// what it holds, what comes back is known.
    pub fn probe<C: Context>(ctx: &mut C, key: &str) -> (found: Inclusion)
        ensures
            old(ctx).holds() matches Some(texts) ==> final(ctx).holds() == Some(texts) && found@
                == probed(texts, key@),
    {
        if let Ok(text) = ctx.lookup(joined(key, ".json").as_str()) {
            return Inclusion::Json(text);
        }
        if let Ok(text) = ctx.lookup(joined(key, ".yml").as_str()) {
            return Inclusion::Yaml(text);
        }
        if let Ok(text) = ctx.lookup(joined(key, ".yaml").as_str()) {
            return Inclusion::Yaml(text);
        }
        if let Ok(text) = ctx.lookup(joined(key, ".txt").as_str()) {
            return Inclusion::Text(text);
        }
        if let Ok(text) = ctx.lookup(joined(key, ".graft").as_str()) {
            return Inclusion::Graft(text);
        }
        Inclusion::Absent
    }

    /// The sections that the section with the header line `header` and the
    /// body text `body` becomes, its inclusion looked up in `ctx`.
    /// Sub-grafts are followed `NESTING_LIMIT` deep.
    ///
    /// The header is read first, then the body is decoded, and then the
    /// store is asked: an error of the header or of the body comes back
    /// whatever the store holds.
    pub fn from<C: Context>(header: &str, body: &str, ctx: &mut C) -> (r: Result<
        Vec<Section>,
        Error,
    >)
        ensures
            from_result(header@, body@, sections_outcome(r)),
            !asks_store(header@, body@) ==> sections_outcome(r) == built_alone(header@, body@),
            old(ctx).holds() matches Some(texts) ==> final(ctx).holds() == Some(texts)
                && sections_outcome(r) == built(
                header@,
                body@,
                brought_for(texts, header@, NESTING_LIMIT as nat),
            ),
    {
        Section::from_within(header, body, ctx, NESTING_LIMIT)
    }

    /// As `from`, with sub-grafts followed `depth` deep: a sub-graft that
    /// stands deeper is the error `TooDeep`.
    pub fn from_within<C: Context>(header: &str, body: &str, ctx: &mut C, depth: usize) -> (r:
        Result<Vec<Section>, Error>)
        ensures
            from_result(header@, body@, sections_outcome(r)),
            !asks_store(header@, body@) ==> sections_outcome(r) == built_alone(header@, body@),
            old(ctx).holds() matches Some(texts) ==> final(ctx).holds() == Some(texts)
                && sections_outcome(r) == built(
                header@,
                body@,
                brought_for(texts, header@, depth as nat),
            ),
        decreases depth, 0nat,
    {
        let ghost nothing: Brought = Ok(TemplateView::Absent);
        let head = match Header::classify(header) {
            Ok(head) => head,
            Err(error) => {
                assert(sections_outcome(Err(error)) == built(header@, body@, nothing));
                return Err(error);
            },
        };
        let own = match decode(head.format, body) {
            Ok(own) => own,
            Err(error) => {
                assert(sections_outcome(Err(error)) == built(header@, body@, nothing));
                return Err(error);
            },
        };
        let ghost failed: Brought = nothing;
        let found = match &head.inclusion {
            None => Ok(Template::Absent),
            Some(key) => match Section::probe(ctx, key.as_str()) {
                Inclusion::Absent => Ok(Template::Absent),
                Inclusion::Json(text) => match decode_json(text.as_str()) {
                    Ok(value) => Ok(Template::Body(value)),
                    Err(error) => Err(error),
                },
                Inclusion::Yaml(text) => match decode_yaml(text.as_str()) {
                    Ok(value) => Ok(Template::Body(value)),
                    Err(error) => Err(error),
                },
                Inclusion::Text(text) => Ok(Template::Body(Json::String(text))),
                Inclusion::Graft(text) => {
                    if depth == 0 {
                        Err(Error::TooDeep)
                    } else {
                        match Section::parse_within(text.as_str(), ctx, depth - 1) {
                            Ok(sections) => Ok(Template::Sections(sections)),
                            Err(error) => Err(error),
                        }
                    }
                },
            },
        };
        match found {
            Ok(template) => {
                let ghost brought: Brought = Ok(template@);
                let sections = Section::assemble(head, own, template);
                assert(sections_outcome(Ok(sections)) == built(header@, body@, brought));
                Ok(sections)
            },
            Err(error) => {
                let ghost brought: Brought = Err(error@);
                assert(sections_outcome(Err(error)) == built(header@, body@, brought));
                Err(error)
            },
        }
    }

    /// The sections of the document `txt`, in order, with what each
    /// inclusion brought in from `ctx` in its place. Sub-grafts are followed
    /// `NESTING_LIMIT` deep.
    pub fn parse<C: Context>(txt: &str, ctx: &mut C) -> (r: Result<Vec<Section>, Error>)
        ensures
            parse_result(chunks(txt@), sections_outcome(r)),
            plain(chunks(txt@)) ==> sections_outcome(r) == parsed_alone(chunks(txt@)),
            old(ctx).holds() matches Some(texts) ==> final(ctx).holds() == Some(texts)
                && sections_outcome(r) == sections_in(texts, txt@, NESTING_LIMIT as nat),
    {
        Section::parse_within(txt, ctx, NESTING_LIMIT)
    }

    /// As `parse`, with sub-grafts followed `depth` deep: a sub-graft that
    /// stands deeper is the error `TooDeep`.
    pub fn parse_within<C: Context>(txt: &str, ctx: &mut C, depth: usize) -> (r: Result<
        Vec<Section>,
        Error,
    >)
        ensures
            parse_result(chunks(txt@), sections_outcome(r)),
            plain(chunks(txt@)) ==> sections_outcome(r) == parsed_alone(chunks(txt@)),
            old(ctx).holds() matches Some(texts) ==> final(ctx).holds() == Some(texts)
                && sections_outcome(r) == sections_in(texts, txt@, depth as nat),
        decreases depth, 1nat,
    {
        let list = split_chunks(txt);
        let ghost all = chunks(txt@);
        let mut sections: Vec<Section> = Vec::new();
        let ghost mut brought: Seq<Brought> = Seq::empty();
        let mut i: usize = 0;
        assert(section_views(sections@) =~= Seq::empty());
        while i < list.len()
            invariant
                i <= list.len(),
                all == chunks(txt@),
                list.deep_view() == all,
                brought.len() == i,
                parsed_with(all, brought, i as int) == Ok::<Seq<SectionView>, ErrorView>(
                    section_views(sections@),
                ),
                old(ctx).holds() matches Some(texts) ==> ctx.holds() == Some(texts) && parsed_with(
                    all,
                    all_brought(texts, all, depth as nat),
                    i as int,
                ) == Ok::<Seq<SectionView>, ErrorView>(section_views(sections@)),
            decreases list.len() - i,
        {
            let ghost header = all[i as int].0;
            let ghost body = all[i as int].1;
            assert(list@[i as int].0@ == header && list@[i as int].1@ == body) by {
                assert(list.deep_view()[i as int] == all[i as int]);
            }
            let step = Section::from_within(list[i].0.as_str(), list[i].1.as_str(), ctx, depth);
            let ghost next = choose|next: Brought|
                sections_outcome(step) == #[trigger] built(header, body, next);
            proof {
                lemma_parsed_with_agree(all, brought, brought.push(next), i as int);
                brought = brought.push(next);
            }
            match step {
                Ok(mut more) => {
                    let ghost before = sections@;
                    let ghost added = more@;
                    sections.append(&mut more);
                    proof {
                        lemma_section_views_add(before, added);
                    }
                },
                Err(error) => {
                    proof {
                        let n = all.len() as int;
                        let rest = nothing_brought((n - i - 1) as nat);
                        let whole = brought + rest;
                        lemma_parsed_with_agree(all, brought, whole, i + 1);
                        lemma_parsed_with_error_stays(all, whole, i + 1, n);
                        assert(whole.len() == all.len());
                        assert(parse_result(all, Err(error@)));
                        if plain(all) {
                            lemma_plain_document(all, whole, n);
                        }
                        match old(ctx).holds() {
                            Some(texts) => {
                                lemma_parsed_with_error_stays(
                                    all,
                                    all_brought(texts, all, depth as nat),
                                    i + 1,
                                    n,
                                );
                            },
                            None => {},
                        }
                    }
                    return Err(error);
                },
            }
            i += 1;
        }
        proof {
            if plain(all) {
                lemma_plain_document(all, brought, all.len() as int);
            }
        }
        Ok(sections)
    }
}

} // verus!
