//! A lightweight HTML element extractor and query library.
//!
//! `parse_html` scans raw markup into a `Dom`: a flattened, document-order
//! sequence of `Tag`s, each carrying its verbatim opening markup and the
//! inner markup matched by nesting-aware scanning. A `Dom` can be narrowed
//! by tag name, attribute name and attribute value with `Dom::filter`, and
//! rendered back to markup, inner markup, plain text, or attribute values.

pub mod strutil;
pub mod dom;
pub mod scan;
pub mod text;
pub mod render;
pub mod parse;
pub mod filter;
pub mod laws;

pub use dom::Dom;
pub use dom::Tag;
pub use parse::Args;
pub use parse::ParseError;
pub use parse::parse_html;
