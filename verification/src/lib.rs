//! Turns a section-structured text document into one tree of JSON-like
//! values.
//!
//! A document is a run of sections. Each begins with a header line, `--` and
//! tokens, and has a body. The parser decodes every body as its header asks
//! and puts in the place of a section with an inclusion key what a store
//! holds under that key. The evaluator then walks the template at `ROOT` and
//! replaces every reference marker by the value of the section it refers to.

pub mod context;
pub mod convert;
pub mod decode;
pub mod error;
pub mod header;
pub mod markers;
pub mod parse;
pub mod path;
pub mod section;
pub mod split;
pub mod table_format;
pub mod text;
pub mod transparency;
pub mod value;

pub use crate::context::{CachedContext, Context, DirContext, NotFound, StaticContext};
pub use crate::convert::convert;
pub use crate::error::Error;
pub use crate::section::{Exec, Format, Section};
pub use crate::value::Json;
