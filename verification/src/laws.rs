//! General laws of the filtering pipeline, stated over the document models
//! that the public contracts use: the unconstrained selector is the
//! identity, tag-name filtering is idempotent, adding selector components
//! only narrows the element sequence, and empty documents filter and render
//! to empty results.

use vstd::prelude::*;
use crate::dom::{DomView, TagView};
use crate::filter::{
    spec_filter, tag_pass, attr_pass, value_pass, tag_keep, attr_keep, value_keep, unconstrained,
};
use crate::render::{
    doc_markup, doc_inner_html, doc_text, doc_attr_values, first_non_blank_from, vis_renders,
    vis_inners, vis_texts, attr_list, dedup_first, concat_all,
};
use crate::scan::scan;

verus! {

/// A whole-document rendering is exactly the first non-blank element's own
/// markup — one element's rendering, never a concatenation of the nested
/// elements that follow it in the sequence.
pub proof fn lemma_whole_document_render_single(d: DomView)
    requires
        d.whole,
        first_non_blank_from(d.tags, 0) != -1,
    ensures
        doc_markup(d) == crate::dom::render_tag(d.tags[first_non_blank_from(d.tags, 0)]),
{
}

/// Filtering with every selector component empty is the identity: the
/// receiver comes back unchanged, scope flag included, so every rendering
/// of the result equals the same rendering of the receiver.
pub proof fn lemma_filter_unconstrained_identity(d: DomView)
    ensures
        spec_filter(d, Seq::empty(), Seq::empty(), Seq::empty()) == d,
        doc_markup(spec_filter(d, Seq::empty(), Seq::empty(), Seq::empty())) == doc_markup(d),
{
}

/// One tag-name pass more changes nothing: the pass keeps exactly the
/// elements it keeps.
proof fn lemma_tag_pass_idem(s: Seq<TagView>, name: Seq<char>)
    ensures
        tag_pass(tag_pass(s, name), name) == tag_pass(s, name),
    decreases s.len(),
{
    if s.len() > 0 {
        lemma_tag_pass_idem(s.drop_last(), name);
        if tag_keep(s.last(), name) {
            let rest = tag_pass(s.drop_last(), name);
            assert(rest.push(s.last()).drop_last() =~= rest);
            assert(rest.push(s.last()).last() == s.last());
        }
    }
}

/// Filtering by a tag name is idempotent: filtering the result by the same
/// tag name again yields the same document.
pub proof fn lemma_filter_tag_idempotent(d: DomView, tn: Seq<char>)
    requires
        tn.len() != 0,
        tn != seq!['*'],
    ensures
        spec_filter(spec_filter(d, tn, Seq::empty(), Seq::empty()), tn, Seq::empty(), Seq::empty())
            == spec_filter(d, tn, Seq::empty(), Seq::empty()),
{
    let work = if d.whole {
        scan(doc_markup(d))
    } else {
        d.tags
    };
    lemma_tag_pass_idem(work, tn);
}

/// `idx` maps each position of `a` to the position in `b` it came from:
/// in bounds, value-preserving, and strictly increasing, so `a` is a
/// stable, order-preserving selection out of `b`.
pub open spec fn is_index_map(idx: Seq<int>, a: Seq<TagView>, b: Seq<TagView>) -> bool {
    &&& idx.len() == a.len()
    &&& forall|k: int| 0 <= k < idx.len() ==> 0 <= #[trigger] idx[k] < b.len()
    &&& forall|k: int| 0 <= k < idx.len() ==> a[k] == b[#[trigger] idx[k]]
    &&& forall|k: int| 0 <= k && k + 1 < idx.len() ==> #[trigger] idx[k] < idx[k + 1]
}

/// `a` is a subsequence of `b`, in `b`'s order.
pub open spec fn subsequence_of(a: Seq<TagView>, b: Seq<TagView>) -> bool {
    exists|idx: Seq<int>| is_index_map(idx, a, b)
}

/// The attribute passes applied after the tag pass, each only when its
/// component is constrained.
pub open spec fn narrowed(
    s: Seq<TagView>,
    an: Seq<char>,
    av: Seq<char>,
    use_a: bool,
    use_v: bool,
) -> Seq<TagView> {
    let t2 = if use_a {
        attr_pass(s, an)
    } else {
        s
    };
    if use_v {
        value_pass(t2, av)
    } else {
        t2
    }
}

/// The attribute passes keep a stable subsequence: a strictly increasing
/// index map leads from their result back into their input.
proof fn lemma_narrowed_subseq(
    s: Seq<TagView>,
    an: Seq<char>,
    av: Seq<char>,
    use_a: bool,
    use_v: bool,
) -> (idx: Seq<int>)
    ensures
        is_index_map(idx, narrowed(s, an, av, use_a, use_v), s),
    decreases s.len(),
{
    if s.len() == 0 {
        let idx = Seq::<int>::empty();
        assert(narrowed(s, an, av, use_a, use_v) =~= Seq::<TagView>::empty());
        idx
    } else {
        let r = s.drop_last();
        let e = s.last();
        let idx0 = lemma_narrowed_subseq(r, an, av, use_a, use_v);
        let n0 = narrowed(r, an, av, use_a, use_v);
        let kept = (!use_a || attr_keep(e, an)) && (!use_v || value_keep(e, av));
        if use_a && attr_keep(e, an) {
            let ar = attr_pass(r, an);
            assert(ar.push(e).drop_last() =~= ar);
            assert(ar.push(e).last() == e);
        }
        if kept {
            assert(narrowed(s, an, av, use_a, use_v) =~= n0.push(e));
            let idx = idx0.push(s.len() - 1);
            assert forall|k: int| 0 <= k < idx.len() implies 0 <= #[trigger] idx[k]
                < s.len() by {}
            assert forall|k: int| 0 <= k < idx.len() implies n0.push(e)[k] == s[#[trigger] idx[
                k]] by {
                if k < idx0.len() {
                    assert(n0[k] == r[idx0[k]]);
                    assert(r[idx0[k]] == s[idx0[k]]);
                } else {
                    assert(idx[k] == s.len() - 1);
                    assert(n0.push(e)[k] == e);
                }
            }
            assert forall|k: int| 0 <= k && k + 1 < idx.len() implies #[trigger] idx[k] < idx[k
                + 1] by {
                if k + 1 < idx0.len() {
                    assert(idx[k] == idx0[k] && idx[k + 1] == idx0[k + 1]);
                } else {
                    assert(idx[k] == idx0[k] && idx0[k] < r.len());
                    assert(idx[k + 1] == s.len() - 1);
                }
            }
            assert(is_index_map(idx, narrowed(s, an, av, use_a, use_v), s));
            idx
        } else {
            assert(narrowed(s, an, av, use_a, use_v) =~= n0);
            assert forall|k: int| 0 <= k < idx0.len() implies n0[k] == s[#[trigger] idx0[k]] by {
                assert(n0[k] == r[idx0[k]]);
                assert(r[idx0[k]] == s[idx0[k]]);
            }
            assert(is_index_map(idx0, narrowed(s, an, av, use_a, use_v), s));
            idx0
        }
    }
}

/// Filtering is monotonically narrowing: the element sequence filtered by
/// the full selector is a stable subsequence, in source order, of the
/// element sequence filtered by the tag name alone.
pub proof fn lemma_filter_narrowing(d: DomView, tn: Seq<char>, an: Seq<char>, av: Seq<char>)
    requires
        tn.len() != 0,
        tn != seq!['*'],
    ensures
        subsequence_of(
            spec_filter(d, tn, an, av).tags,
            spec_filter(d, tn, Seq::empty(), Seq::empty()).tags,
        ),
{
    let work = if d.whole {
        scan(doc_markup(d))
    } else {
        d.tags
    };
    let t1 = tag_pass(work, tn);
    let idx = lemma_narrowed_subseq(t1, an, av, !unconstrained(an), !unconstrained(av));
    assert(spec_filter(d, tn, an, av).tags == narrowed(
        t1,
        an,
        av,
        !unconstrained(an),
        !unconstrained(av),
    ));
    assert(spec_filter(d, tn, Seq::empty(), Seq::empty()).tags == t1);
}

/// A document with no elements renders to empty text in every rendering.
pub proof fn lemma_render_empty(d: DomView, attr: Seq<char>)
    requires
        d.tags.len() == 0,
    ensures
        doc_markup(d) == Seq::<char>::empty(),
        doc_inner_html(d) == Seq::<char>::empty(),
        doc_text(d) == Seq::<char>::empty(),
        doc_attr_values(d, attr) == Seq::<char>::empty(),
{
    assert(first_non_blank_from(d.tags, 0) == -1);
    assert(vis_renders(d.tags) =~= Seq::<Seq<char>>::empty());
    assert(vis_inners(d.tags) =~= Seq::<Seq<char>>::empty());
    assert(vis_texts(d.tags) =~= Seq::<Seq<char>>::empty());
    assert(attr_list(d.tags, attr) =~= Seq::<Seq<char>>::empty());
    assert(dedup_first(Seq::<Seq<char>>::empty()) =~= Seq::<Seq<char>>::empty());
    assert(concat_all(Seq::<Seq<char>>::empty()) =~= Seq::<char>::empty());
}

/// Filtering a document with no elements, by any selector, yields a
/// document with no elements, and rendering that result yields empty text:
/// the empty cases are well-formed results, never errors.
pub proof fn lemma_filter_empty_dom(d: DomView, tn: Seq<char>, an: Seq<char>, av: Seq<char>)
    requires
        d.tags.len() == 0,
    ensures
        spec_filter(d, tn, an, av).tags.len() == 0,
        doc_markup(spec_filter(d, tn, an, av)) == Seq::<char>::empty(),
{
    lemma_render_empty(d, an);
    let r = spec_filter(d, tn, an, av);
    if !(tn.len() == 0 && an.len() == 0 && av.len() == 0) {
        let work = if d.whole {
            scan(doc_markup(d))
        } else {
            d.tags
        };
        if d.whole {
            assert(doc_markup(d).len() == 0);
            assert(scan(doc_markup(d)) =~= Seq::<TagView>::empty());
        }
        assert(work.len() == 0);
        let t1 = if !unconstrained(tn) {
            tag_pass(work, tn)
        } else {
            work
        };
        assert(t1.len() == 0);
        let t2 = if !unconstrained(an) {
            attr_pass(t1, an)
        } else {
            t1
        };
        assert(t2.len() == 0);
        let t3 = if !unconstrained(av) {
            value_pass(t2, av)
        } else {
            t2
        };
        assert(t3.len() == 0);
    }
    lemma_render_empty(r, an);
}

} // verus!
