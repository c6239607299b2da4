//! The filtering pipeline. A selector is normalized once, then up to three
//! narrowing passes run in fixed order: tag name, attribute name, attribute
//! value. Each pass keeps a stable subsequence of the working element
//! sequence. A whole-document receiver is first rendered back to markup and
//! re-scanned; a match-scope receiver is narrowed directly.

use vstd::prelude::*;
use crate::dom::{Dom, Tag, TagView, tags_view};
use crate::render::doc_markup;
use crate::scan::{scan, extract_tags};
use crate::strutil::{contains_seq, contains_sub, str_eq};
use crate::parse::Args;

verus! {

/// A selector component constrains nothing when it is empty or `"*"`.
pub open spec fn unconstrained(c: Seq<char>) -> bool {
    c.len() == 0 || c == seq!['*']
}

/// Whether the selector component `c` is unconstrained.
pub fn unconstrained_exec(c: &str) -> (r: bool)
    ensures
        r == unconstrained(c@),
{
    let l = c.unicode_len();
    if l == 0 {
        true
    } else if l == 1 {
        if c.get_char(0) == '*' {
            proof {
                assert(c@ =~= seq!['*']);
            }
            true
        } else {
            proof {
                assert(c@[0] != seq!['*'][0]);
            }
            false
        }
    } else {
        false
    }
}

/// The tag-name pass keeps an element whose name equals the requested name.
pub open spec fn tag_keep(t: TagView, name: Seq<char>) -> bool {
    t.name == name
}

/// The attribute-name pass keeps an element whose opening markup contains
/// `attr="` or `attr=` as a literal substring.
pub open spec fn attr_keep(t: TagView, attr: Seq<char>) -> bool {
    contains_seq(t.content, attr + seq!['=', '"']) || contains_seq(t.content, attr + seq!['='])
}

/// The attribute-value pass keeps an element whose opening markup contains
/// the value in double-quoted, single-quoted, or unquoted form terminated
/// by a space or `>`.
pub open spec fn value_keep(t: TagView, v: Seq<char>) -> bool {
    ||| contains_seq(t.content, seq!['=', '"'] + v + seq!['"'])
    ||| contains_seq(t.content, seq!['=', '\''] + v + seq!['\''])
    ||| contains_seq(t.content, seq!['='] + v + seq![' '])
    ||| contains_seq(t.content, seq!['='] + v + seq!['>'])
}

/// The elements kept by the tag-name pass, in order.
pub open spec fn tag_pass(tags: Seq<TagView>, name: Seq<char>) -> Seq<TagView>
    decreases tags.len(),
{
    if tags.len() == 0 {
        Seq::empty()
    } else {
        let rest = tag_pass(tags.drop_last(), name);
        if tag_keep(tags.last(), name) {
            rest.push(tags.last())
        } else {
            rest
        }
    }
}

/// The elements kept by the attribute-name pass, in order.
pub open spec fn attr_pass(tags: Seq<TagView>, attr: Seq<char>) -> Seq<TagView>
    decreases tags.len(),
{
    if tags.len() == 0 {
        Seq::empty()
    } else {
        let rest = attr_pass(tags.drop_last(), attr);
        if attr_keep(tags.last(), attr) {
            rest.push(tags.last())
        } else {
            rest
        }
    }
}

/// The elements kept by the attribute-value pass, in order.
pub open spec fn value_pass(tags: Seq<TagView>, v: Seq<char>) -> Seq<TagView>
    decreases tags.len(),
{
    if tags.len() == 0 {
        Seq::empty()
    } else {
        let rest = value_pass(tags.drop_last(), v);
        if value_keep(tags.last(), v) {
            rest.push(tags.last())
        } else {
            rest
        }
    }
}

/// What filtering a document by the normalized selector yields. With every
/// component empty the receiver itself comes back, scope flag included.
/// Otherwise the working sequence is the receiver's own elements on match
/// scope, or a re-scan of the rendered receiver on whole-document scope;
/// each constrained component then narrows it in fixed order, and the
/// result is match scope.
pub open spec fn spec_filter(
    d: crate::dom::DomView,
    tn: Seq<char>,
    an: Seq<char>,
    av: Seq<char>,
) -> crate::dom::DomView {
    if tn.len() == 0 && an.len() == 0 && av.len() == 0 {
        d
    } else {
        let work = if d.whole {
            scan(doc_markup(d))
        } else {
            d.tags
        };
        let t1 = if !unconstrained(tn) {
            tag_pass(work, tn)
        } else {
            work
        };
        let t2 = if !unconstrained(an) {
            attr_pass(t1, an)
        } else {
            t1
        };
        let t3 = if !unconstrained(av) {
            value_pass(t2, av)
        } else {
            t2
        };
        crate::dom::DomView { tags: t3, whole: false }
    }
}

/// Whether the attribute-name pass keeps this element.
fn keeps_attr(t: &Tag, attr: &str) -> (r: bool)
    ensures
        r == attr_keep(t@, attr@),
{
    let mut pat1 = String::from_str(attr);
    pat1.append("=\"");
    let mut pat2 = String::from_str(attr);
    pat2.append("=");
    proof {
        reveal_strlit("=\"");
        reveal_strlit("=");
        assert(pat1@ =~= attr@ + seq!['=', '"']);
        assert(pat2@ =~= attr@ + seq!['=']);
    }
    contains_sub(t.tagcontent.as_str(), pat1.as_str()) || contains_sub(
        t.tagcontent.as_str(),
        pat2.as_str(),
    )
}

/// Whether the attribute-value pass keeps this element.
fn keeps_value(t: &Tag, v: &str) -> (r: bool)
    ensures
        r == value_keep(t@, v@),
{
    let mut p1 = String::from_str("=\"");
    p1.append(v);
    p1.append("\"");
    let mut p2 = String::from_str("='");
    p2.append(v);
    p2.append("'");
    let mut p3 = String::from_str("=");
    p3.append(v);
    p3.append(" ");
    let mut p4 = String::from_str("=");
    p4.append(v);
    p4.append(">");
    proof {
        reveal_strlit("=\"");
        reveal_strlit("='");
        reveal_strlit("=");
        reveal_strlit("\"");
        reveal_strlit("'");
        reveal_strlit(" ");
        reveal_strlit(">");
        assert(p1@ =~= seq!['=', '"'] + v@ + seq!['"']);
        assert(p2@ =~= seq!['=', '\''] + v@ + seq!['\'']);
        assert(p3@ =~= seq!['='] + v@ + seq![' ']);
        assert(p4@ =~= seq!['='] + v@ + seq!['>']);
    }
    let content = t.tagcontent.as_str();
    contains_sub(content, p1.as_str()) || contains_sub(content, p2.as_str()) || contains_sub(
        content,
        p3.as_str(),
    ) || contains_sub(content, p4.as_str())
}

impl Dom {
    /// Narrow to the elements whose name equals `tagname`; an empty name
    /// leaves the document as it is.
    fn tag(&self, tagname: &str) -> (r: Dom)
        ensures
            tagname@.len() == 0 ==> r@ == self@,
            tagname@.len() != 0 ==> r@.tags == tag_pass(self@.tags, tagname@) && !r@.whole,
    {
        if tagname.unicode_len() < 1 {
            return self.duplicate();
        }
        let ghost tags = tags_view(self.tag@);
        let mut kept: Vec<Tag> = Vec::new();
        let mut x: usize = 0;
        proof {
            assert(tags_view(kept@) =~= Seq::<TagView>::empty());
            assert(tag_pass(tags.take(0), tagname@) =~= Seq::<TagView>::empty());
        }
        while x < self.tag.len()
            invariant
                x <= self.tag@.len(),
                tags == tags_view(self.tag@),
                tags_view(kept@) == tag_pass(tags.take(x as int), tagname@),
            decreases self.tag@.len() - x,
        {
            let ghost pre = tags_view(kept@);
            if str_eq(self.tag[x].tagname.as_str(), tagname) {
                kept.push(self.tag[x].duplicate());
                proof {
                    assert(tags_view(kept@) =~= pre.push(tags[x as int]));
                }
            }
            proof {
                assert(tags.take(x + 1).drop_last() =~= tags.take(x as int));
                assert(tags.take(x + 1).last() == tags[x as int]);
            }
            x += 1;
        }
        proof {
            assert(tags.take(tags.len() as int) =~= tags);
        }
        Dom { tag: kept, is_parsed: false }
    }

    /// Narrow to the elements whose opening markup mentions the attribute
    /// `attr`; an empty name leaves the document as it is.
    fn attr(&self, attr: &str) -> (r: Dom)
        ensures
            attr@.len() == 0 ==> r@ == self@,
            attr@.len() != 0 ==> r@.tags == attr_pass(self@.tags, attr@) && !r@.whole,
    {
        if attr.unicode_len() < 1 {
            return self.duplicate();
        }
        let ghost tags = tags_view(self.tag@);
        let mut kept: Vec<Tag> = Vec::new();
        let mut x: usize = 0;
        proof {
            assert(tags_view(kept@) =~= Seq::<TagView>::empty());
            assert(attr_pass(tags.take(0), attr@) =~= Seq::<TagView>::empty());
        }
        while x < self.tag.len()
            invariant
                x <= self.tag@.len(),
                tags == tags_view(self.tag@),
                tags_view(kept@) == attr_pass(tags.take(x as int), attr@),
            decreases self.tag@.len() - x,
        {
            let ghost pre = tags_view(kept@);
            if keeps_attr(&self.tag[x], attr) {
                kept.push(self.tag[x].duplicate());
                proof {
                    assert(tags_view(kept@) =~= pre.push(tags[x as int]));
                }
            }
            proof {
                assert(tags.take(x + 1).drop_last() =~= tags.take(x as int));
                assert(tags.take(x + 1).last() == tags[x as int]);
            }
            x += 1;
        }
        proof {
            assert(tags.take(tags.len() as int) =~= tags);
        }
        Dom { tag: kept, is_parsed: false }
    }

    /// Narrow to the elements whose opening markup carries the attribute
    /// value `attrvalue`; an empty value leaves the document as it is.
    fn attr_value(&self, attrvalue: &str) -> (r: Dom)
        ensures
            attrvalue@.len() == 0 ==> r@ == self@,
            attrvalue@.len() != 0 ==> r@.tags == value_pass(self@.tags, attrvalue@) && !r@.whole,
    {
        if attrvalue.unicode_len() < 1 {
            return self.duplicate();
        }
        let ghost tags = tags_view(self.tag@);
        let mut kept: Vec<Tag> = Vec::new();
        let mut x: usize = 0;
        proof {
            assert(tags_view(kept@) =~= Seq::<TagView>::empty());
            assert(value_pass(tags.take(0), attrvalue@) =~= Seq::<TagView>::empty());
        }
        while x < self.tag.len()
            invariant
                x <= self.tag@.len(),
                tags == tags_view(self.tag@),
                tags_view(kept@) == value_pass(tags.take(x as int), attrvalue@),
            decreases self.tag@.len() - x,
        {
            let ghost pre = tags_view(kept@);
            if keeps_value(&self.tag[x], attrvalue) {
                kept.push(self.tag[x].duplicate());
                proof {
                    assert(tags_view(kept@) =~= pre.push(tags[x as int]));
                }
            }
            proof {
                assert(tags.take(x + 1).drop_last() =~= tags.take(x as int));
                assert(tags.take(x + 1).last() == tags[x as int]);
            }
            x += 1;
        }
        proof {
            assert(tags.take(tags.len() as int) =~= tags);
        }
        Dom { tag: kept, is_parsed: false }
    }

    /// Filter this document by a selector of 1, 2 or 3 components. With
    /// every component empty the receiver comes back unchanged. Otherwise
    /// each component that is neither empty nor `"*"` narrows the working
    /// sequence in fixed order, and the result is a new match-scope
    /// document; zero matches are a valid, empty result.
    pub fn filter<A: Args>(&self, args: A) -> (r: Dom)
        ensures
            r@ == spec_filter(self@, args.sel().0, args.sel().1, args.sel().2),
    {
        let (tag_name, attr_name, attr_value) = args.extract();
        if tag_name.unicode_len() == 0 && attr_name.unicode_len() == 0 && attr_value.unicode_len()
            == 0 {
            return self.duplicate();
        }
        let mut new: Dom;
        if self.is_parsed {
            let rendered = self.to_string();
            let fresh = extract_tags(rendered.as_str());
            new = Dom { tag: fresh, is_parsed: false };
        } else {
            new = self.duplicate();
        }
        if !unconstrained_exec(tag_name) {
            new = new.tag(tag_name);
        }
        if !unconstrained_exec(attr_name) {
            new = new.attr(attr_name);
        }
        if !unconstrained_exec(attr_value) {
            new = new.attr_value(attr_value);
        }
        new
    }
}

} // verus!
