//! The entry point and the selector shapes. `parse_html` validates that the
//! input can contain a tag at all, then scans it into a whole-document
//! `Dom`. The `Args` trait lets `Dom::filter` accept a selector as a tag
//! name alone, a pair, or a full triple; missing trailing components are
//! unconstrained.

use vstd::prelude::*;
use crate::dom::Dom;
use crate::scan::{scan, extract_tags};
use crate::strutil::contains_char;

verus! {

/// A selector expressed as 1, 2 or 3 ordered text components: tag name;
/// tag name and attribute name; tag name, attribute name and attribute
/// value. Absent trailing components mean "unconstrained".
pub trait Args: Sized {
    /// The normalized selector triple this value stands for.
    spec fn sel(&self) -> (Seq<char>, Seq<char>, Seq<char>);

    /// Normalize to the full triple, filling absent components with the
    /// empty text value.
    fn extract(self) -> (r: (&'static str, &'static str, &'static str))
        ensures
            (r.0@, r.1@, r.2@) == self.sel(),
    ;
}

impl Args for &'static str {
    open spec fn sel(&self) -> (Seq<char>, Seq<char>, Seq<char>) {
        ((*self)@, Seq::empty(), Seq::empty())
    }

    fn extract(self) -> (r: (&'static str, &'static str, &'static str)) {
        proof {
            reveal_strlit("");
            assert(""@ =~= Seq::<char>::empty());
        }
        (self, "", "")
    }
}

impl Args for (&'static str, &'static str) {
    open spec fn sel(&self) -> (Seq<char>, Seq<char>, Seq<char>) {
        (self.0@, self.1@, Seq::empty())
    }

    fn extract(self) -> (r: (&'static str, &'static str, &'static str)) {
        proof {
            reveal_strlit("");
            assert(""@ =~= Seq::<char>::empty());
        }
        (self.0, self.1, "")
    }
}

impl Args for (&'static str, &'static str, &'static str) {
    open spec fn sel(&self) -> (Seq<char>, Seq<char>, Seq<char>) {
        (self.0@, self.1@, self.2@)
    }

    fn extract(self) -> (r: (&'static str, &'static str, &'static str)) {
        (self.0, self.1, self.2)
    }
}

/// The error `parse_html` returns when the input cannot hold a tag.
#[derive(Debug, Clone, Copy, PartialEq, Eq, Structural)]
pub enum ParseError {
    /// The input holds no `<` or no `>` character.
    InvalidInput,
}

/// Parse markup into a whole-document `Dom`. Fails exactly when the text
/// holds no `<` or no `>` character; every other text is scanned, and an
/// empty element sequence is a valid result, not an error.
pub fn parse_html(html: &str) -> (r: Result<Dom, ParseError>)
    ensures
        r is Ok <==> html@.contains('<') && html@.contains('>'),
        r is Ok ==> (r->Ok_0)@.tags == scan(html@) && (r->Ok_0)@.whole,
        r is Err ==> r->Err_0 == ParseError::InvalidInput,
{
    if !contains_char(html, '<') || !contains_char(html, '>') {
        return Err(ParseError::InvalidInput);
    }
    let tags = extract_tags(html);
    Ok(Dom { tag: tags, is_parsed: true })
}

} // verus!
