//! Sections: what a document is parsed into, and how a section with an
//! inclusion becomes a run of sections.

use vstd::prelude::*;
use crate::header::{Header, HeaderView};
use crate::text::{joined, same_text};
use crate::value::{lemma_object_view, Json, JsonTree};

verus! {

/// The processor that a header's `!tag` names. It is kept with the section
/// and has no effect on how the section is read.
#[derive(Debug, Clone, Copy, PartialEq, Eq, Structural)]
pub enum Exec {
    SQL,
    Shell,
    Python,
}

/// How the body of a section is decoded.
#[derive(Debug, Clone, Copy, PartialEq, Eq, Structural)]
pub enum Format {
    Text,
    Markdown,
    SQL,
    YAML,
    JSON,
    Table,
}

/// One section of a document, its body decoded.
#[derive(Debug)]
pub struct Section {
    /// The inclusion key of the header, if it has one.
    pub inclusion: Option<String>,
    /// The path under which the evaluator finds the section.
    pub reference: String,
    /// The format that the body was decoded from.
    pub format: Format,
    /// The processor that the header names, if it names one.
    pub process: Option<Exec>,
    /// The decoded body, or the template that took its place.
    pub body: Json,
}

/// What a `Section` stands for.
pub ghost struct SectionView {
    pub inclusion: Option<Seq<char>>,
    pub reference: Seq<char>,
    pub format: Format,
    pub process: Option<Exec>,
    pub body: JsonTree,
}

impl View for Section {
    type V = SectionView;

    open spec fn view(&self) -> SectionView {
        SectionView {
            inclusion: match self.inclusion {
                Some(key) => Some(key@),
                None => None,
            },
            reference: self.reference@,
            format: self.format,
            process: self.process,
            body: self.body@,
        }
    }
}

/// What a list of sections stands for.
pub open spec fn section_views(sections: Seq<Section>) -> Seq<SectionView> {
    Seq::new(sections.len(), |i: int| sections[i]@)
}

/// What an inclusion key brought in.
#[derive(Debug)]
pub enum Template {
    /// Nothing: the store holds nothing under the key, or the header has no
    /// key.
    Absent,
    /// A template value, which takes the place of the section's body.
    Body(Json),
    /// The sections of a sub-graft, which take the place of the section.
    Sections(Vec<Section>),
}

/// What a `Template` stands for.
pub ghost enum TemplateView {
    Absent,
    Body(JsonTree),
    Sections(Seq<SectionView>),
}

impl View for Template {
    type V = TemplateView;

    open spec fn view(&self) -> TemplateView {
        match self {
            Template::Absent => TemplateView::Absent,
            Template::Body(value) => TemplateView::Body(value@),
            Template::Sections(sections) => TemplateView::Sections(section_views(sections@)),
        }
    }
}

/// The section that a header and a body make.
pub open spec fn section_of(header: HeaderView, body: JsonTree) -> SectionView {
    SectionView {
        inclusion: header.inclusion,
        reference: header.reference,
        format: header.format,
        process: header.process,
        body,
    }
}

/// What stands before the key of an override in its reference: nothing
/// where the section is at `ROOT` or is dropped, else the section's
/// reference and a slash.
pub open spec fn override_prefix(reference: Seq<char>, dropped: bool) -> Seq<char> {
    if reference == "ROOT"@ || dropped {
        Seq::empty()
    } else {
        reference + "/"@
    }
}

/// The section that overrides the key `key` with `value`.
pub open spec fn override_of(prefix: Seq<char>, key: Seq<char>, value: JsonTree) -> SectionView {
    SectionView {
        inclusion: None,
        reference: prefix + key,
        format: Format::JSON,
        process: None,
        body: value,
    }
}

/// The overrides that a body gives: one section for each entry of a mapping,
/// in the order of the entries; none for any other value.
pub open spec fn overrides(body: JsonTree, prefix: Seq<char>) -> Seq<SectionView> {
    match body {
        JsonTree::Object(entries) => Seq::new(
            entries.len(),
            |i: int| override_of(prefix, entries[i].0, entries[i].1),
        ),
        _ => Seq::empty(),
    }
}

/// The sections that one section of the document becomes.
///
/// Without an inclusion key it stays as it is. With one:
/// - a template value takes the place of the body;
/// - the sections of a sub-graft take the place of the section, which is
///   dropped;
/// - where the section's own body is a mapping, each of its entries follows
///   as an override.
pub open spec fn assembled(header: HeaderView, own: JsonTree, template: TemplateView) -> Seq<
    SectionView,
> {
    if header.inclusion is None {
        seq![section_of(header, own)]
    } else {
        let dropped = template is Sections;
        let tail = overrides(own, override_prefix(header.reference, dropped));
        match template {
            TemplateView::Absent => seq![section_of(header, own)] + tail,
            TemplateView::Body(value) => seq![section_of(header, value)] + tail,
            TemplateView::Sections(sections) => sections + tail,
        }
    }
}

/// Whether every section of a list has a reference that is not empty.
pub open spec fn all_named(sections: Seq<SectionView>) -> bool {
    forall|i: int| 0 <= i < sections.len() ==> (#[trigger] sections[i]).reference.len() > 0
}

/// Whether every entry of a mapping has a key that is not empty; true of
/// any other value.
pub open spec fn keys_named(body: JsonTree) -> bool {
    body matches JsonTree::Object(entries) ==> forall|i: int|
        0 <= i < entries.len() ==> (#[trigger] entries[i]).0.len() > 0
}

/// Sections are named. Where the header has a reference that is not empty,
/// the mapping of the own body has no empty key, and the sections of a
/// sub-graft have references that are not empty, so have all the sections
/// that the section becomes.
pub proof fn lemma_assembled_is_named(header: HeaderView, own: JsonTree, template: TemplateView)
    requires
        header.reference.len() > 0,
        keys_named(own),
        template matches TemplateView::Sections(sections) ==> all_named(sections),
    ensures
        all_named(assembled(header, own, template)),
{
    let all = assembled(header, own, template);
    assert forall|i: int| 0 <= i < all.len() implies (#[trigger] all[i]).reference.len() > 0 by {
        if header.inclusion is Some {
            let dropped = template is Sections;
            let tail = overrides(own, override_prefix(header.reference, dropped));
            match template {
                TemplateView::Sections(sections) => {
                    if i < sections.len() {
                        assert(all[i] == sections[i]);
                    } else {
                        assert(all[i] == tail[i - sections.len()]);
                    }
                },
                _ => {
                    if i > 0 {
                        assert(all[i] == tail[i - 1]);
                    }
                },
            }
        }
    }
}

/// The views of two lists, one behind the other, are the views of the two.
pub proof fn lemma_section_views_add(a: Seq<Section>, b: Seq<Section>)
    ensures
        section_views(a + b) == section_views(a) + section_views(b),
{
    assert(section_views(a + b) =~= section_views(a) + section_views(b));
}

impl Section {
    /// The section that `header` and `body` make.
    pub fn of(header: Header, body: Json) -> (section: Section)
        ensures
            section@ == section_of(header@, body@),
    {
        Section {
            inclusion: header.inclusion,
            reference: header.reference,
            format: header.format,
            process: header.process,
            body,
        }
    }

    /// The overrides that `body` gives, each reference begun with `prefix`.
    pub fn overrides(body: &Json, prefix: &str) -> (sections: Vec<Section>)
        ensures
            section_views(sections@) == overrides(body@, prefix@),
    {
        let mut sections: Vec<Section> = Vec::new();
        if let Json::Object(entries) = body {
            proof {
                lemma_object_view(*entries);
            }
            let mut i: usize = 0;
            while i < entries.len()
                invariant
                    i <= entries.len(),
                    sections.len() == i,
                    forall|j: int|
                        0 <= j < i ==> (#[trigger] sections@[j])@ == override_of(
                            prefix@,
                            entries@[j].0@,
                            entries@[j].1@,
                        ),
                decreases entries.len() - i,
            {
                sections.push(
                    Section {
                        inclusion: None,
                        reference: joined(prefix, entries[i].0.as_str()),
                        format: Format::JSON,
                        process: None,
                        body: entries[i].1.clone(),
                    },
                );
                i += 1;
            }
            assert(section_views(sections@) =~= overrides(body@, prefix@));
        } else {
            assert(section_views(sections@) =~= overrides(body@, prefix@));
        }
        sections
    }

    /// The sections that one section of the document becomes: `header` and
    /// `own` are its header and its decoded body, `template` is what its
    /// inclusion key brought in.
    pub fn assemble(header: Header, own: Json, template: Template) -> (sections: Vec<Section>)
        ensures
            section_views(sections@) == assembled(header@, own@, template@),
    {
        let mut sections: Vec<Section> = Vec::new();
        if header.inclusion.is_none() {
            sections.push(Section::of(header, own));
            assert(section_views(sections@) =~= seq![section_of(header@, own@)]);
            return sections;
        }
        let dropped = match &template {
            Template::Sections(_) => true,
            _ => false,
        };
        let prefix = if dropped || same_text(header.reference.as_str(), "ROOT") {
            String::new()
        } else {
            joined(header.reference.as_str(), "/")
        };
        let mut tail = Section::overrides(&own, prefix.as_str());
        let ghost tail_views = section_views(tail@);
        match template {
            Template::Absent => {
                sections.push(Section::of(header, own));
            },
            Template::Body(value) => {
                sections.push(Section::of(header, value));
            },
            Template::Sections(inner) => {
                sections = inner;
            },
        }
        let ghost head_views = section_views(sections@);
        let ghost first = sections@;
        let ghost second = tail@;
        sections.append(&mut tail);
        proof {
            lemma_section_views_add(first, second);
            assert(head_views.len() == 1 ==> head_views =~= seq![head_views[0]]);
        }
        sections
    }
}

} // verus!
