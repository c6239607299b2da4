//! Document-level rendering. A whole-document `Dom` renders as its first
//! element with a non-blank name alone (or empty text when there is none); a
//! match-scope `Dom` renders every non-blank element, suppresses exact
//! duplicates keeping the first occurrence, and concatenates. Attribute-value
//! rendering always walks every element, on either scope.

use vstd::prelude::*;
use crate::dom::{Dom, TagView, tags_view, is_blank_name, is_blank, render_tag, attr_value_of};
use crate::text::text_of;
use crate::strutil::str_eq;

verus! {

/// The views of a sequence of owned strings, in order.
pub open spec fn str_views(s: Seq<String>) -> Seq<Seq<char>> {
    s.map_values(|t: String| t@)
}

/// All the items concatenated, in order, with no separator.
pub open spec fn concat_all(s: Seq<Seq<char>>) -> Seq<char>
    decreases s.len(),
{
    if s.len() == 0 {
        Seq::empty()
    } else {
        concat_all(s.drop_last()) + s.last()
    }
}

/// The items with exact duplicates removed, first occurrence kept, order
/// preserved.
pub open spec fn dedup_first(s: Seq<Seq<char>>) -> Seq<Seq<char>>
    decreases s.len(),
{
    if s.len() == 0 {
        Seq::empty()
    } else {
        let rest = dedup_first(s.drop_last());
        if rest.contains(s.last()) {
            rest
        } else {
            rest.push(s.last())
        }
    }
}

/// Index of the first element at or after `i` with a non-blank name, or `-1`.
pub open spec fn first_non_blank_from(tags: Seq<TagView>, i: int) -> int
    recommends
        0 <= i <= tags.len(),
    decreases tags.len() - i when 0 <= i <= tags.len()
{
    if i >= tags.len() {
        -1
    } else if !is_blank_name(tags[i].name) {
        i
    } else {
        first_non_blank_from(tags, i + 1)
    }
}

/// The full markup of each non-blank element, in order.
pub open spec fn vis_renders(tags: Seq<TagView>) -> Seq<Seq<char>>
    decreases tags.len(),
{
    if tags.len() == 0 {
        Seq::empty()
    } else {
        let rest = vis_renders(tags.drop_last());
        if is_blank_name(tags.last().name) {
            rest
        } else {
            rest.push(render_tag(tags.last()))
        }
    }
}

/// The inner markup of each non-blank element, in order.
pub open spec fn vis_inners(tags: Seq<TagView>) -> Seq<Seq<char>>
    decreases tags.len(),
{
    if tags.len() == 0 {
        Seq::empty()
    } else {
        let rest = vis_inners(tags.drop_last());
        if is_blank_name(tags.last().name) {
            rest
        } else {
            rest.push(tags.last().inner)
        }
    }
}

/// The visible text of each non-blank element, in order.
pub open spec fn vis_texts(tags: Seq<TagView>) -> Seq<Seq<char>>
    decreases tags.len(),
{
    if tags.len() == 0 {
        Seq::empty()
    } else {
        let rest = vis_texts(tags.drop_last());
        if is_blank_name(tags.last().name) {
            rest
        } else {
            rest.push(text_of(tags.last().name, tags.last().inner))
        }
    }
}

/// The attribute value of every element, blank-named ones included.
pub open spec fn attr_list(tags: Seq<TagView>, attr: Seq<char>) -> Seq<Seq<char>>
    decreases tags.len(),
{
    if tags.len() == 0 {
        Seq::empty()
    } else {
        attr_list(tags.drop_last(), attr).push(attr_value_of(tags.last().content, attr))
    }
}

/// The markup a document renders to: its first non-blank element alone on
/// whole-document scope, else every non-blank element, deduplicated and
/// concatenated.
pub open spec fn doc_markup(d: crate::dom::DomView) -> Seq<char> {
    if d.whole {
        let f = first_non_blank_from(d.tags, 0);
        if f == -1 {
            Seq::empty()
        } else {
            render_tag(d.tags[f])
        }
    } else {
        concat_all(dedup_first(vis_renders(d.tags)))
    }
}

/// The inner markup a document renders to, under the same scope rule.
pub open spec fn doc_inner_html(d: crate::dom::DomView) -> Seq<char> {
    if d.whole {
        let f = first_non_blank_from(d.tags, 0);
        if f == -1 {
            Seq::empty()
        } else {
            d.tags[f].inner
        }
    } else {
        concat_all(dedup_first(vis_inners(d.tags)))
    }
}

/// The visible text a document renders to, under the same scope rule.
pub open spec fn doc_text(d: crate::dom::DomView) -> Seq<char> {
    if d.whole {
        let f = first_non_blank_from(d.tags, 0);
        if f == -1 {
            Seq::empty()
        } else {
            text_of(d.tags[f].name, d.tags[f].inner)
        }
    } else {
        concat_all(dedup_first(vis_texts(d.tags)))
    }
}

/// The attribute values a document renders to: every element's value for
/// `attr`, deduplicated and concatenated, on either scope.
pub open spec fn doc_attr_values(d: crate::dom::DomView, attr: Seq<char>) -> Seq<char> {
    concat_all(dedup_first(attr_list(d.tags, attr)))
}

/// Whether some collected string equals `x`.
fn contains_string(v: &Vec<String>, x: &str) -> (r: bool)
    ensures
        r == str_views(v@).contains(x@),
{
    let mut i: usize = 0;
    while i < v.len()
        invariant
            i <= v@.len(),
            forall|k: int| 0 <= k < i ==> v@[k]@ != x@,
        decreases v@.len() - i,
    {
        if str_eq(v[i].as_str(), x) {
            proof {
                assert(str_views(v@)[i as int] == x@);
            }
            return true;
        }
        i += 1;
    }
    proof {
        assert(forall|k: int| 0 <= k < str_views(v@).len() ==> str_views(v@)[k] != x@);
    }
    false
}

/// Remove exact duplicates, first occurrence kept, order preserved.
fn dedup_strings(s: &Vec<String>) -> (r: Vec<String>)
    ensures
        str_views(r@) == dedup_first(str_views(s@)),
{
    let mut cleared: Vec<String> = Vec::new();
    let mut i: usize = 0;
    proof {
        assert(str_views(cleared@) =~= Seq::<Seq<char>>::empty());
        assert(str_views(s@).take(0) =~= Seq::<Seq<char>>::empty());
    }
    while i < s.len()
        invariant
            i <= s@.len(),
            str_views(cleared@) == dedup_first(str_views(s@).take(i as int)),
        decreases s@.len() - i,
    {
        let ghost pre = str_views(cleared@);
        if !contains_string(&cleared, s[i].as_str()) {
            cleared.push(s[i].clone());
            proof {
                assert(str_views(cleared@) =~= pre.push(s@[i as int]@));
            }
        }
        proof {
            assert(str_views(s@).take(i + 1).drop_last() =~= str_views(s@).take(i as int));
            assert(str_views(s@).take(i + 1).last() == s@[i as int]@);
        }
        i += 1;
    }
    proof {
        assert(str_views(s@).take(s@.len() as int) =~= str_views(s@));
    }
    cleared
}

/// Concatenate all the strings, in order, with no separator.
fn concat_strings(v: &Vec<String>) -> (r: String)
    ensures
        r@ == concat_all(str_views(v@)),
{
    let mut out = String::new();
    let mut i: usize = 0;
    proof {
        assert(str_views(v@).take(0) =~= Seq::<Seq<char>>::empty());
        assert(out@ =~= concat_all(str_views(v@).take(0)));
    }
    while i < v.len()
        invariant
            i <= v@.len(),
            out@ == concat_all(str_views(v@).take(i as int)),
        decreases v@.len() - i,
    {
        out.append(v[i].as_str());
        proof {
            assert(str_views(v@).take(i + 1).drop_last() =~= str_views(v@).take(i as int));
            assert(str_views(v@).take(i + 1).last() == v@[i as int]@);
        }
        i += 1;
    }
    proof {
        assert(str_views(v@).take(v@.len() as int) =~= str_views(v@));
    }
    out
}

impl Dom {
    /// This document rendered back to markup: its first non-blank element on
    /// whole-document scope, else all non-blank elements, deduplicated.
    pub fn to_string(&self) -> (r: String)
        ensures
            r@ == doc_markup(self@),
    {
        let ghost tags = tags_view(self.tag@);
        if self.is_parsed {
            let mut x: usize = 0;
            while x < self.tag.len()
                invariant
                    self.is_parsed,
                    x <= self.tag@.len(),
                    tags == tags_view(self.tag@),
                    first_non_blank_from(tags, 0) == first_non_blank_from(tags, x as int),
                decreases self.tag@.len() - x,
            {
                if !is_blank(self.tag[x].tagname.as_str()) {
                    return self.tag[x].to_string();
                }
                x += 1;
            }
            return String::new();
        }
        let mut s: Vec<String> = Vec::new();
        let mut x: usize = 0;
        proof {
            assert(str_views(s@) =~= vis_renders(tags.take(0)));
        }
        while x < self.tag.len()
            invariant
                !self.is_parsed,
                x <= self.tag@.len(),
                tags == tags_view(self.tag@),
                str_views(s@) == vis_renders(tags.take(x as int)),
            decreases self.tag@.len() - x,
        {
            let ghost pre = str_views(s@);
            if !is_blank(self.tag[x].tagname.as_str()) {
                s.push(self.tag[x].to_string());
                proof {
                    assert(str_views(s@) =~= pre.push(render_tag(tags[x as int])));
                }
            }
            proof {
                assert(tags.take(x + 1).drop_last() =~= tags.take(x as int));
                assert(tags.take(x + 1).last() == tags[x as int]);
            }
            x += 1;
        }
        proof {
            assert(tags.take(tags.len() as int) =~= tags);
        }
        let cleared = dedup_strings(&s);
        concat_strings(&cleared)
    }

    /// The inner markup this document renders to, under the same scope rule.
    pub fn get_inner_html(&self) -> (r: String)
        ensures
            r@ == doc_inner_html(self@),
    {
        let ghost tags = tags_view(self.tag@);
        if self.is_parsed {
            let mut x: usize = 0;
            while x < self.tag.len()
                invariant
                    self.is_parsed,
                    x <= self.tag@.len(),
                    tags == tags_view(self.tag@),
                    first_non_blank_from(tags, 0) == first_non_blank_from(tags, x as int),
                decreases self.tag@.len() - x,
            {
                if !is_blank(self.tag[x].tagname.as_str()) {
                    return self.tag[x].get_inner_html();
                }
                x += 1;
            }
            return String::new();
        }
        let mut s: Vec<String> = Vec::new();
        let mut x: usize = 0;
        proof {
            assert(str_views(s@) =~= vis_inners(tags.take(0)));
        }
        while x < self.tag.len()
            invariant
                !self.is_parsed,
                x <= self.tag@.len(),
                tags == tags_view(self.tag@),
                str_views(s@) == vis_inners(tags.take(x as int)),
            decreases self.tag@.len() - x,
        {
            let ghost pre = str_views(s@);
            if !is_blank(self.tag[x].tagname.as_str()) {
                s.push(self.tag[x].get_inner_html());
                proof {
                    assert(str_views(s@) =~= pre.push(tags[x as int].inner));
                }
            }
            proof {
                assert(tags.take(x + 1).drop_last() =~= tags.take(x as int));
                assert(tags.take(x + 1).last() == tags[x as int]);
            }
            x += 1;
        }
        proof {
            assert(tags.take(tags.len() as int) =~= tags);
        }
        let cleared = dedup_strings(&s);
        concat_strings(&cleared)
    }

    /// The visible text this document renders to, under the same scope rule.
    pub fn get_text(&self) -> (r: String)
        ensures
            r@ == doc_text(self@),
    {
        let ghost tags = tags_view(self.tag@);
        if self.is_parsed {
            let mut x: usize = 0;
            while x < self.tag.len()
                invariant
                    self.is_parsed,
                    x <= self.tag@.len(),
                    tags == tags_view(self.tag@),
                    first_non_blank_from(tags, 0) == first_non_blank_from(tags, x as int),
                decreases self.tag@.len() - x,
            {
                if !is_blank(self.tag[x].tagname.as_str()) {
                    return self.tag[x].get_text();
                }
                x += 1;
            }
            return String::new();
        }
        let mut s: Vec<String> = Vec::new();
        let mut x: usize = 0;
        proof {
            assert(str_views(s@) =~= vis_texts(tags.take(0)));
        }
        while x < self.tag.len()
            invariant
                !self.is_parsed,
                x <= self.tag@.len(),
                tags == tags_view(self.tag@),
                str_views(s@) == vis_texts(tags.take(x as int)),
            decreases self.tag@.len() - x,
        {
            let ghost pre = str_views(s@);
            if !is_blank(self.tag[x].tagname.as_str()) {
                s.push(self.tag[x].get_text());
                proof {
                    assert(str_views(s@) =~= pre.push(text_of(tags[x as int].name, tags[
                        x as int].inner)));
                }
            }
            proof {
                assert(tags.take(x + 1).drop_last() =~= tags.take(x as int));
                assert(tags.take(x + 1).last() == tags[x as int]);
            }
            x += 1;
        }
        proof {
            assert(tags.take(tags.len() as int) =~= tags);
        }
        let cleared = dedup_strings(&s);
        concat_strings(&cleared)
    }

    /// The values of `attrname` over every element, deduplicated and
    /// concatenated; not subject to the whole-document shortcut.
    pub fn get_attr_value(&self, attrname: &str) -> (r: String)
        ensures
            r@ == doc_attr_values(self@, attrname@),
    {
        let ghost tags = tags_view(self.tag@);
        let mut s: Vec<String> = Vec::new();
        let mut x: usize = 0;
        proof {
            assert(str_views(s@) =~= attr_list(tags.take(0), attrname@));
        }
        while x < self.tag.len()
            invariant
                x <= self.tag@.len(),
                tags == tags_view(self.tag@),
                str_views(s@) == attr_list(tags.take(x as int), attrname@),
            decreases self.tag@.len() - x,
        {
            let ghost pre = str_views(s@);
            s.push(self.tag[x].get_attr_value(attrname));
            proof {
                assert(str_views(s@) =~= pre.push(attr_value_of(tags[x as int].content, attrname@)));
                assert(tags.take(x + 1).drop_last() =~= tags.take(x as int));
                assert(tags.take(x + 1).last() == tags[x as int]);
            }
            x += 1;
        }
        proof {
            assert(tags.take(tags.len() as int) =~= tags);
        }
        let cleared = dedup_strings(&s);
        concat_strings(&cleared)
    }
}

} // verus!
