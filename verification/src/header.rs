//! Headers: the line of tokens that begins a section.

use vstd::prelude::*;
use crate::error::{Error, ErrorView};
use crate::section::{Exec, Format};
use crate::text::{chars_of, lowercased, same_text, split_words, string_of, words};

verus! {

/// What the tokens of a header say of its section.
#[derive(Debug, PartialEq, Eq)]
pub struct Header {
    /// The inclusion key: the last `$key` token.
    pub inclusion: Option<String>,
    /// The reference path: the last `@path` token, or `ROOT`.
    pub reference: String,
    /// The format of the body: the last `~fmt` token, or YAML.
    pub format: Format,
    /// The processor: the last `!tag` token.
    pub process: Option<Exec>,
}

/// What a `Header` stands for.
pub ghost struct HeaderView {
    pub inclusion: Option<Seq<char>>,
    pub reference: Seq<char>,
    pub format: Format,
    pub process: Option<Exec>,
}

impl View for Header {
    type V = HeaderView;

    open spec fn view(&self) -> HeaderView {
        HeaderView {
            inclusion: match self.inclusion {
                Some(key) => Some(key@),
                None => None,
            },
            reference: self.reference@,
            format: self.format,
            process: self.process,
        }
    }
}

/// The processor that a `!tag` token names, from the token in lower case.
pub open spec fn exec_of(lower: Seq<char>) -> Option<Exec> {
    if lower == "!sql"@ {
        Some(Exec::SQL)
    } else if lower == "!sh"@ || lower == "!shell"@ {
        Some(Exec::Shell)
    } else if lower == "!py"@ || lower == "!python"@ {
        Some(Exec::Python)
    } else {
        None
    }
}

/// The format that a `~fmt` token names, from the token in lower case.
pub open spec fn format_of(lower: Seq<char>) -> Option<Format> {
    if lower == "~text"@ {
        Some(Format::Text)
    } else if lower == "~md"@ || lower == "~markdown"@ {
        Some(Format::Markdown)
    } else if lower == "~sql"@ {
        Some(Format::SQL)
    } else if lower == "~yml"@ || lower == "~yaml"@ {
        Some(Format::YAML)
    } else if lower == "~json"@ {
        Some(Format::JSON)
    } else if lower == "~table"@ {
        Some(Format::Table)
    } else {
        None
    }
}

impl Exec {
    /// The processor that `lower` names: a `!tag` token in lower case.
    pub fn from_tag(lower: &str) -> (process: Option<Exec>)
        ensures
            process == exec_of(lower@),
    {
        if same_text(lower, "!sql") {
            Some(Exec::SQL)
        } else if same_text(lower, "!sh") || same_text(lower, "!shell") {
            Some(Exec::Shell)
        } else if same_text(lower, "!py") || same_text(lower, "!python") {
            Some(Exec::Python)
        } else {
            None
        }
    }
}

impl Format {
    /// The format that `lower` names: a `~fmt` token in lower case.
    pub fn from_tag(lower: &str) -> (format: Option<Format>)
        ensures
            format == format_of(lower@),
    {
        if same_text(lower, "~text") {
            Some(Format::Text)
        } else if same_text(lower, "~md") || same_text(lower, "~markdown") {
            Some(Format::Markdown)
        } else if same_text(lower, "~sql") {
            Some(Format::SQL)
        } else if same_text(lower, "~yml") || same_text(lower, "~yaml") {
            Some(Format::YAML)
        } else if same_text(lower, "~json") {
            Some(Format::JSON)
        } else if same_text(lower, "~table") {
            Some(Format::Table)
        } else {
            None
        }
    }
}

impl HeaderView {
    /// The header of a section whose header line says nothing: no inclusion,
    /// the reference `ROOT`, the format YAML, no processor.
    pub open spec fn initial() -> HeaderView {
        HeaderView { inclusion: None, reference: "ROOT"@, format: Format::YAML, process: None }
    }

    /// The header after one more token, or the error that the token is.
    ///
    /// A token is told by its first character: `$` sets the inclusion key
    /// and `@` the reference, each to the rest of the token; `!` sets the
    /// processor and `~` the format, by the token in lower case. A token that
    /// begins otherwise is an error, and so is a processor or a format that
    /// is not known.
    pub open spec fn with_token(self, token: Seq<char>) -> Result<HeaderView, ErrorView> {
        if token.len() > 0 && token[0] == '$' {
            Ok(HeaderView { inclusion: Some(token.skip(1)), ..self })
        } else if token.len() > 0 && token[0] == '@' {
            Ok(HeaderView { reference: token.skip(1), ..self })
        } else if token.len() > 0 && token[0] == '!' {
            match exec_of(lowercased(token)) {
                Some(process) => Ok(HeaderView { process: Some(process), ..self }),
                None => Err(ErrorView::InvalidProcess(token)),
            }
        } else if token.len() > 0 && token[0] == '~' {
            match format_of(lowercased(token)) {
                Some(format) => Ok(HeaderView { format, ..self }),
                None => Err(ErrorView::InvalidFormat(token)),
            }
        } else {
            Err(ErrorView::InvalidInput(token))
        }
    }

    /// The header that the first `n` of `tokens` make, or the first error
    /// among them. A token `--` that leads the line says nothing: it is the
    /// mark of a header.
    pub open spec fn of_tokens(tokens: Seq<Seq<char>>, n: int) -> Result<HeaderView, ErrorView>
        decreases n,
    {
        if n <= 0 {
            Ok(HeaderView::initial())
        } else if n == 1 && tokens[0] == "--"@ {
            Ok(HeaderView::initial())
        } else {
            match HeaderView::of_tokens(tokens, n - 1) {
                Ok(header) => header.with_token(tokens[n - 1]),
                Err(error) => Err(error),
            }
        }
    }
}

/// What a header line says: the header that its words make, taken as tokens
/// from left to right, or the first error among them.
pub open spec fn classified(line: Seq<char>) -> Result<HeaderView, ErrorView> {
    HeaderView::of_tokens(words(line), words(line).len() as int)
}

/// The outcome of a classification, from what it returned.
pub open spec fn header_outcome(r: Result<Header, Error>) -> Result<HeaderView, ErrorView> {
    match r {
        Ok(header) => Ok(header@),
        Err(error) => Err(error@),
    }
}

impl Header {
    /// The header of a section whose header line says nothing.
    pub fn initial() -> (header: Header)
        ensures
            header@ == HeaderView::initial(),
    {
        Header {
            inclusion: None,
            reference: "ROOT".to_owned(),
            format: Format::YAML,
            process: None,
        }
    }

    /// The header after one more token, or the error that the token is.
    pub fn with_token(self, token: &str) -> (r: Result<Header, Error>)
        ensures
            header_outcome(r) == self@.with_token(token@),
    {
        let v = chars_of(token);
        if v.len() == 0 {
            return Err(Error::InvalidInput(token.to_owned()));
        }
        let first = v[0];
        if first == '$' {
            let key = string_of(&v, 1, v.len());
            Ok(Header { inclusion: Some(key), ..self })
        } else if first == '@' {
            let path = string_of(&v, 1, v.len());
            Ok(Header { reference: path, ..self })
        } else if first == '!' {
            let lower = token.to_lowercase();
            match Exec::from_tag(lower.as_str()) {
                Some(process) => Ok(Header { process: Some(process), ..self }),
                None => Err(Error::InvalidProcess(token.to_owned())),
            }
        } else if first == '~' {
            let lower = token.to_lowercase();
            match Format::from_tag(lower.as_str()) {
                Some(format) => Ok(Header { format, ..self }),
                None => Err(Error::InvalidFormat(token.to_owned())),
            }
        } else {
            Err(Error::InvalidInput(token.to_owned()))
        }
    }

    /// What the header line `line` says.
    pub fn classify(line: &str) -> (r: Result<Header, Error>)
        ensures
            header_outcome(r) == classified(line@),
    {
        let tokens = split_words(line);
        let mut header = Header::initial();
        let mut i: usize = 0;
        if tokens.len() > 0 {
            assert(tokens.deep_view()[0] == tokens[0]@);
            if same_text(tokens[0].as_str(), "--") {
                i = 1;
            }
        }
        while i < tokens.len()
            invariant
                i <= tokens.len(),
                tokens.deep_view() == words(line@),
                i == 0 && tokens.len() > 0 ==> words(line@)[0] != "--"@,
                HeaderView::of_tokens(words(line@), i as int) == Ok::<HeaderView, ErrorView>(
                    header@,
                ),
            decreases tokens.len() - i,
        {
            match header.with_token(tokens[i].as_str()) {
                Ok(next) => {
                    header = next;
                },
                Err(error) => {
                    proof {
                        lemma_error_stays(words(line@), i as int + 1, words(line@).len() as int);
                    }
                    return Err(error);
                },
            }
            i += 1;
        }
        Ok(header)
    }
}

/// Once a token is an error, the tokens after it change nothing.
pub proof fn lemma_error_stays(tokens: Seq<Seq<char>>, m: int, n: int)
    requires
        0 <= m <= n,
        HeaderView::of_tokens(tokens, m) is Err,
    ensures
        HeaderView::of_tokens(tokens, n) == HeaderView::of_tokens(tokens, m),
    decreases n - m,
{
    if m < n {
        lemma_error_stays(tokens, m, n - 1);
    }
}

/// A header names its section. Where no token is a bare `@`, the reference
/// of the header is not empty: it is `ROOT`, or what stands behind the `@`
/// of the last `@path` token.
pub proof fn lemma_reference_is_named(tokens: Seq<Seq<char>>, n: int)
    requires
        0 <= n <= tokens.len(),
        forall|i: int| 0 <= i < n ==> #[trigger] tokens[i] != "@"@,
    ensures
        HeaderView::of_tokens(tokens, n) matches Ok(header) ==> header.reference.len() > 0,
    decreases n,
{
    reveal_strlit("ROOT");
    reveal_strlit("@");
    if n > 0 {
        lemma_reference_is_named(tokens, n - 1);
        let token = tokens[n - 1];
        if token.len() == 1 && token[0] == '@' {
            assert(token =~= "@"@);
        }
    }
}

} // verus!
