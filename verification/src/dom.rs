//! The element model: a `Tag` is one opening-tag occurrence with its matched
//! inner markup; a `Dom` is a document-order sequence of `Tag`s plus a scope
//! flag telling a whole parsed document apart from a filtered match set.

use vstd::prelude::*;
use crate::strutil::{find_from, lemma_find_from_is_match, find_sub_from, substr};
use crate::text::text_of;
use crate::text::extract_text;

verus! {

/// A tag name counts as blank when it is empty or a single space; blank
/// elements take no part in rendering.
pub open spec fn is_blank_name(n: Seq<char>) -> bool {
    n.len() == 0 || n == seq![' ']
}

/// Whether `name` is a blank tag name.
pub fn is_blank(name: &str) -> (r: bool)
    ensures
        r == is_blank_name(name@),
{
    let l = name.unicode_len();
    if l == 0 {
        true
    } else if l == 1 {
        let c = name.get_char(0);
        if c == ' ' {
            proof {
                assert(name@ =~= seq![' ']);
            }
            true
        } else {
            proof {
                assert(name@[0] != seq![' '][0]);
            }
            false
        }
    } else {
        false
    }
}

/// Mathematical model of a `Tag`: the lowercased tag name, the verbatim
/// opening markup, and the verbatim inner markup.
pub struct TagView {
    pub name: Seq<char>,
    pub content: Seq<char>,
    pub inner: Seq<char>,
}

/// One parsed occurrence of an opening tag together with its matched inner
/// markup. Produced only by scanning; immutable afterwards.
#[derive(Clone)]
pub struct Tag {
    pub(crate) tagname: String,
    pub(crate) tagcontent: String,
    pub(crate) innerhtml: String,
}

impl View for Tag {
    type V = TagView;

    open(crate) spec fn view(&self) -> TagView {
        TagView { name: self.tagname@, content: self.tagcontent@, inner: self.innerhtml@ }
    }
}

/// The models of a sequence of tags, in the same order.
pub open spec fn tags_view(s: Seq<Tag>) -> Seq<TagView> {
    s.map_values(|t: Tag| t@)
}

/// Mathematical model of a `Dom`: the models of its tags plus its scope flag
/// (`whole` is true only for the direct output of parsing).
pub struct DomView {
    pub tags: Seq<TagView>,
    pub whole: bool,
}

/// An ordered sequence of `Tag`s plus a scope flag. The only container
/// callers hold; filtering always produces a new, independently owned `Dom`.
#[derive(Clone)]
pub struct Dom {
    pub tag: Vec<Tag>,
    pub(crate) is_parsed: bool,
}

impl View for Dom {
    type V = DomView;

    open(crate) spec fn view(&self) -> DomView {
        DomView { tags: tags_view(self.tag@), whole: self.is_parsed }
    }
}

/// The full markup of one element: its verbatim opening markup, its verbatim
/// inner markup, and a synthesized closing tag.
pub open spec fn render_tag(t: TagView) -> Seq<char> {
    t.content + t.inner + "</"@ + t.name + ">"@
}

/// The value of the attribute `attr` in the opening markup `content`: the
/// text after the first `attr=`, up to the matching double or single quote
/// when quoted, else up to the next space, or, with no space left, up to the
/// end of the markup short of one trailing character. Empty when `attr=`
/// does not occur or nothing follows it.
pub open spec fn attr_value_of(content: Seq<char>, attr: Seq<char>) -> Seq<char> {
    let pat = attr + seq!['='];
    let f = find_from(content, pat, 0);
    if f == -1 {
        Seq::empty()
    } else {
        let start = f + pat.len();
        if start >= content.len() {
            Seq::empty()
        } else if content[start] == '"' {
            let q = find_from(content, seq!['"'], start + 1);
            if q == -1 {
                content.subrange(start + 1, content.len() as int)
            } else {
                content.subrange(start + 1, q)
            }
        } else if content[start] == '\'' {
            let q = find_from(content, seq!['\''], start + 1);
            if q == -1 {
                content.subrange(start + 1, content.len() as int)
            } else {
                content.subrange(start + 1, q)
            }
        } else {
            let q = find_from(content, seq![' '], start);
            if q == -1 {
                content.subrange(start, content.len() - 1)
            } else {
                content.subrange(start, q)
            }
        }
    }
}

impl Tag {
    /// A copy of this tag with the same model.
    pub fn duplicate(&self) -> (r: Tag)
        ensures
            r@ == self@,
    {
        Tag {
            tagname: self.tagname.clone(),
            tagcontent: self.tagcontent.clone(),
            innerhtml: self.innerhtml.clone(),
        }
    }

    /// The verbatim inner markup of this element.
    pub fn get_inner_html(&self) -> (r: String)
        ensures
            r@ == self@.inner,
    {
        self.innerhtml.clone()
    }

    /// The normalized (lowercase) name of this element.
    pub fn get_tagname(&self) -> (r: String)
        ensures
            r@ == self@.name,
    {
        self.tagname.clone()
    }

    /// The visible text inside this element.
    pub fn get_text(&self) -> (r: String)
        ensures
            r@ == text_of(self@.name, self@.inner),
    {
        extract_text(self.tagname.as_str(), self.innerhtml.as_str())
    }

    /// This element rendered back to markup, closing tag synthesized.
    pub fn to_string(&self) -> (r: String)
        ensures
            r@ == render_tag(self@),
    {
        let mut out = self.tagcontent.clone();
        out.append(self.innerhtml.as_str());
        out.append("</");
        out.append(self.tagname.as_str());
        out.append(">");
        proof {
            assert(out@ =~= render_tag(self@));
        }
        out
    }

    /// The value of the attribute `attr` in this element's opening markup.
    pub fn get_attr_value(&self, attr: &str) -> (r: String)
        ensures
            r@ == attr_value_of(self@.content, attr@),
    {
        let mut pat = String::from_str(attr);
        pat.append("=");
        proof {
            reveal_strlit("=");
            assert(pat@ =~= attr@ + seq!['=']);
        }
        let content = self.tagcontent.as_str();
        let clen = content.unicode_len();
        match find_sub_from(content, pat.as_str(), 0) {
            None => String::new(),
            Some(f) => {
                proof {
                    lemma_find_from_is_match(content@, pat@, 0);
                }
                let start = f + pat.unicode_len();
                if start >= clen {
                    return String::new();
                }
                let c0 = content.get_char(start);
                if c0 == '"' {
                    match find_sub_from(content, "\"", start + 1) {
                        Some(q) => {
                            proof {
                                reveal_strlit("\"");
                                assert("\""@ =~= seq!['"']);
                                lemma_find_from_is_match(content@, "\""@, start + 1);
                            }
                            substr(content, start + 1, q)
                        },
                        None => {
                            proof {
                                reveal_strlit("\"");
                                assert("\""@ =~= seq!['"']);
                            }
                            substr(content, start + 1, clen)
                        },
                    }
                } else if c0 == '\'' {
                    match find_sub_from(content, "'", start + 1) {
                        Some(q) => {
                            proof {
                                reveal_strlit("'");
                                assert("'"@ =~= seq!['\'']);
                                lemma_find_from_is_match(content@, "'"@, start + 1);
                            }
                            substr(content, start + 1, q)
                        },
                        None => {
                            proof {
                                reveal_strlit("'");
                                assert("'"@ =~= seq!['\'']);
                            }
                            substr(content, start + 1, clen)
                        },
                    }
                } else {
                    match find_sub_from(content, " ", start) {
                        Some(q) => {
                            proof {
                                reveal_strlit(" ");
                                assert(" "@ =~= seq![' ']);
                                lemma_find_from_is_match(content@, " "@, start as int);
                            }
                            substr(content, start, q)
                        },
                        None => {
                            proof {
                                reveal_strlit(" ");
                                assert(" "@ =~= seq![' ']);
                            }
                            substr(content, start, clen - 1)
                        },
                    }
                }
            },
        }
    }
}

impl Dom {
    /// A copy of this document with the same model.
    pub fn duplicate(&self) -> (r: Dom)
        ensures
            r@ == self@,
    {
        let mut tags: Vec<Tag> = Vec::new();
        let mut i: usize = 0;
        while i < self.tag.len()
            invariant
                i <= self.tag@.len(),
                tags@.len() == i,
                forall|k: int| 0 <= k < i ==> tags@[k]@ == self.tag@[k]@,
            decreases self.tag@.len() - i,
        {
            tags.push(self.tag[i].duplicate());
            i += 1;
        }
        proof {
            assert(tags_view(tags@) =~= tags_view(self.tag@));
        }
        Dom { tag: tags, is_parsed: self.is_parsed }
    }
}

} // verus!
