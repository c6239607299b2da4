//! The extraction stage: one left-to-right pass over markup producing a
//! flattened, document-order sequence of elements. A stack of open elements
//! gives nesting-aware matching: a closing tag closes the most recently
//! opened, not-yet-closed element of the same name; unmatched closing tags
//! are ignored; elements still open at end of input close implicitly there.

use vstd::prelude::*;
use crate::dom::{Tag, TagView, tags_view};
use crate::strutil::{
    match_at, find_from, lower_seq, match_at_exec, find_sub_from, lower_substr, substr, str_eq,
    lemma_find_from_is_match,
};

verus! {

/// Element names that never have a matching closing tag.
pub open spec fn is_void_name(n: Seq<char>) -> bool {
    ||| n == "area"@
    ||| n == "base"@
    ||| n == "br"@
    ||| n == "col"@
    ||| n == "embed"@
    ||| n == "hr"@
    ||| n == "img"@
    ||| n == "input"@
    ||| n == "link"@
    ||| n == "meta"@
    ||| n == "param"@
    ||| n == "source"@
    ||| n == "track"@
    ||| n == "wbr"@
}

/// Whether `name` is a void element name.
pub fn is_void(name: &str) -> (r: bool)
    ensures
        r == is_void_name(name@),
{
    str_eq(name, "area") || str_eq(name, "base") || str_eq(name, "br") || str_eq(name, "col")
        || str_eq(name, "embed") || str_eq(name, "hr") || str_eq(name, "img") || str_eq(
        name,
        "input",
    ) || str_eq(name, "link") || str_eq(name, "meta") || str_eq(name, "param") || str_eq(
        name,
        "source",
    ) || str_eq(name, "track") || str_eq(name, "wbr")
}

/// A tag name token stops at a space or a slash.
pub open spec fn is_name_break(c: char) -> bool {
    c == ' ' || c == '/'
}

/// First position in `[from, lim)` where the name token ends, or `lim`.
pub open spec fn token_end(h: Seq<char>, from: int, lim: int) -> int
    recommends
        0 <= from <= lim <= h.len(),
    decreases lim - from when from <= lim
{
    if from >= lim {
        lim
    } else if is_name_break(h[from]) {
        from
    } else {
        token_end(h, from + 1, lim)
    }
}

/// Where the name token ends in `s`, scanning `[from, lim)`.
pub fn token_end_exec(s: &str, from: usize, lim: usize) -> (r: usize)
    requires
        from <= lim <= s@.len(),
    ensures
        r == token_end(s@, from as int, lim as int),
        from <= r <= lim,
{
    let mut i: usize = from;
    while i < lim
        invariant
            from <= i <= lim <= s@.len(),
            token_end(s@, from as int, lim as int) == token_end(s@, i as int, lim as int),
        decreases lim - i,
    {
        let c = s.get_char(i);
        if c == ' ' || c == '/' {
            return i;
        }
        i += 1;
    }
    i
}

/// An open-element record: index of its element in the output, and the
/// position where its inner markup starts.
pub type StackView = Seq<(int, int)>;

/// The model of the executable stack of open elements.
pub open spec fn stack_view(st: Seq<(usize, usize)>) -> StackView {
    st.map_values(|e: (usize, usize)| (e.0 as int, e.1 as int))
}

/// The tag `t` with its inner markup replaced.
pub open spec fn with_inner(t: TagView, inner: Seq<char>) -> TagView {
    TagView { name: t.name, content: t.content, inner: inner }
}

/// Position of the most recently opened, not-yet-closed element named
/// `cname`, or `-1` when no open element has that name.
pub open spec fn top_match(stack: StackView, out: Seq<TagView>, cname: Seq<char>) -> int
    decreases stack.len(),
{
    if stack.len() == 0 {
        -1
    } else if 0 <= stack.last().0 < out.len() && out[stack.last().0].name == cname {
        stack.len() - 1
    } else {
        top_match(stack.drop_last(), out, cname)
    }
}

/// When no entry at or above position `p` matches, the search result is the
/// same as on the first `p` entries alone.
pub proof fn lemma_top_match_prefix(stack: StackView, out: Seq<TagView>, cname: Seq<char>, p: int)
    requires
        0 <= p <= stack.len(),
        forall|q: int|
            p <= q < stack.len() ==> !(0 <= stack[q].0 < out.len() && out[stack[q].0].name
                == cname),
    ensures
        top_match(stack, out, cname) == top_match(stack.take(p), out, cname),
    decreases stack.len(),
{
    if p == stack.len() {
        assert(stack.take(p) =~= stack);
    } else {
        assert(!(0 <= stack.last().0 < out.len() && out[stack.last().0].name == cname));
        lemma_top_match_prefix(stack.drop_last(), out, cname, p);
        assert(stack.drop_last().take(p) =~= stack.take(p));
    }
}

/// Close every element still open at end of input: its inner markup runs
/// from its content start to the end of the text.
pub open spec fn finalize_open(h: Seq<char>, stack: StackView, out: Seq<TagView>) -> Seq<TagView>
    decreases stack.len(),
{
    if stack.len() == 0 {
        out
    } else {
        let e = stack.last();
        let out2 = if 0 <= e.0 < out.len() && 0 <= e.1 <= h.len() {
            out.update(e.0, with_inner(out[e.0], h.subrange(e.1, h.len() as int)))
        } else {
            out
        };
        finalize_open(h, stack.drop_last(), out2)
    }
}

/// One left-to-right scan of `h` from position `i`, given the elements
/// emitted so far and the stack of open elements. Comments and declarations
/// are skipped; an opening tag emits an element (void and self-closed ones
/// complete at once, others are pushed open); a closing tag completes the
/// most recently opened element of its name, or is ignored.
pub open spec fn scan_from(h: Seq<char>, i: int, stack: StackView, out: Seq<TagView>) -> Seq<
    TagView,
>
    recommends
        0 <= i <= h.len(),
    decreases h.len() - i when 0 <= i <= h.len() via scan_from_dec
{
    if i >= h.len() {
        finalize_open(h, stack, out)
    } else if h[i] != '<' {
        scan_from(h, i + 1, stack, out)
    } else if match_at(h, "<!--"@, i) {
        let j = find_from(h, "-->"@, i + 4);
        if j == -1 {
            finalize_open(h, stack, out)
        } else {
            scan_from(h, j + 3, stack, out)
        }
    } else if i + 1 < h.len() && h[i + 1] == '!' {
        let j = find_from(h, ">"@, i);
        if j == -1 {
            finalize_open(h, stack, out)
        } else {
            scan_from(h, j + 1, stack, out)
        }
    } else if i + 1 < h.len() && h[i + 1] == '/' {
        let j = find_from(h, ">"@, i);
        if j == -1 {
            finalize_open(h, stack, out)
        } else {
            let k = token_end(h, i + 2, j);
            let cname = lower_seq(h.subrange(i + 2, k));
            let p = top_match(stack, out, cname);
            if p == -1 {
                scan_from(h, j + 1, stack, out)
            } else {
                let idx = stack[p].0;
                let cs = stack[p].1;
                scan_from(
                    h,
                    j + 1,
                    stack.remove(p),
                    out.update(idx, with_inner(out[idx], h.subrange(cs, i))),
                )
            }
        }
    } else {
        let j = find_from(h, ">"@, i);
        if j == -1 {
            finalize_open(h, stack, out)
        } else {
            let k = token_end(h, i + 1, j);
            let name = lower_seq(h.subrange(i + 1, k));
            let content = h.subrange(i, j + 1);
            let t = TagView { name: name, content: content, inner: Seq::empty() };
            if is_void_name(name) || h[j - 1] == '/' {
                scan_from(h, j + 1, stack, out.push(t))
            } else {
                scan_from(h, j + 1, stack.push((out.len() as int, j + 1)), out.push(t))
            }
        }
    }
}

#[via_fn]
proof fn scan_from_dec(h: Seq<char>, i: int, stack: StackView, out: Seq<TagView>) {
    reveal_strlit("<!--");
    reveal_strlit("-->");
    reveal_strlit(">");
    if 0 <= i < h.len() && h[i] == '<' {
        if match_at(h, "<!--"@, i) {
            let j = find_from(h, "-->"@, i + 4);
            if j != -1 {
                lemma_find_from_is_match(h, "-->"@, i + 4);
            }
        } else {
            let j = find_from(h, ">"@, i);
            if j != -1 {
                lemma_find_from_is_match(h, ">"@, i);
            }
        }
    }
}

/// The elements extracted from the whole of `h`, in document order.
pub open spec fn scan(h: Seq<char>) -> Seq<TagView> {
    scan_from(h, 0, Seq::empty(), Seq::empty())
}

/// Scan `s` into its document-order element sequence.
pub fn extract_tags(s: &str) -> (r: Vec<Tag>)
    ensures
        tags_view(r@) == scan(s@),
{
    let n = s.unicode_len();
    let mut i: usize = 0;
    let mut out: Vec<Tag> = Vec::new();
    let mut stack: Vec<(usize, usize)> = Vec::new();
    proof {
        assert(stack_view(stack@) =~= Seq::<(int, int)>::empty());
        assert(tags_view(out@) =~= Seq::<TagView>::empty());
    }
    while i < n
        invariant
            n == s@.len(),
            i <= n,
            scan(s@) == scan_from(s@, i as int, stack_view(stack@), tags_view(out@)),
            forall|q: int|
                0 <= q < stack@.len() ==> ((#[trigger] stack@[q]).0 < out@.len() && stack@[q].1
                    <= i),
        decreases n - i,
    {
        let ghost old_i = i as int;
        let ghost sv = stack_view(stack@);
        let ghost ov = tags_view(out@);
        let c = s.get_char(i);
        if c != '<' {
            i += 1;
        } else if match_at_exec(s, "<!--", i) {
            proof {
                reveal_strlit("<!--");
                reveal_strlit("-->");
            }
            assert(i + 4 <= n);
            match find_sub_from(s, "-->", i + 4) {
                Some(j) => {
                    proof {
                        lemma_find_from_is_match(s@, "-->"@, i + 4 as int);
                    }
                    i = j + 3;
                },
                None => {
                    i = n;
                },
            }
        } else if i + 1 < n && s.get_char(i + 1) == '!' {
            match find_sub_from(s, ">", i) {
                Some(j) => {
                    proof {
                        reveal_strlit(">");
                        lemma_find_from_is_match(s@, ">"@, i as int);
                    }
                    i = j + 1;
                },
                None => {
                    i = n;
                },
            }
        } else if i + 1 < n && s.get_char(i + 1) == '/' {
            match find_sub_from(s, ">", i) {
                Some(j) => {
                    proof {
                        reveal_strlit(">");
                        lemma_find_from_is_match(s@, ">"@, i as int);
                        assert(">"@[0] == '>');
                        assert(s@[j as int + 0] == ">"@[0]);
                        assert(s@[j as int] == '>');
                        assert(j != i && j != i + 1);
                    }
                    let k = token_end_exec(s, i + 2, j);
                    let cname = lower_substr(s, i + 2, k);
                    let mut p: usize = stack.len();
                    let mut found: bool = false;
                    while p > 0 && !found
                        invariant
                            n == s@.len(),
                            p <= stack@.len(),
                            forall|q: int|
                                0 <= q < stack@.len() ==> #[trigger] stack@[q].0 < out@.len(),
                            !found ==> forall|q: int|
                                p <= q < stack@.len() ==> tags_view(out@)[#[trigger] stack_view(
                                    stack@,
                                )[q].0].name != cname@,
                            found ==> p < stack@.len() && tags_view(out@)[stack_view(
                                stack@,
                            )[p as int].0].name == cname@ && (forall|q: int|
                                p < q < stack@.len() ==> tags_view(out@)[#[trigger] stack_view(
                                    stack@,
                                )[q].0].name != cname@),
                        decreases p,
                    {
                        if str_eq(out[stack[p - 1].0].tagname.as_str(), cname.as_str()) {
                            p -= 1;
                            found = true;
                        } else {
                            p -= 1;
                        }
                    }
                    if found {
                        let (idx, cs) = stack[p];
                        proof {
                            lemma_top_match_prefix(
                                stack_view(stack@),
                                tags_view(out@),
                                cname@,
                                p + 1,
                            );
                            assert(stack_view(stack@).take(p + 1).last() == stack_view(stack@)[
                                p as int]);
                            assert(top_match(stack_view(stack@), tags_view(out@), cname@)
                                == p as int);
                        }
                        let inner = substr(s, cs, i);
                        let ghost ov0 = tags_view(out@);
                        out[idx].innerhtml = inner;
                        stack.remove(p);
                        i = j + 1;
                        proof {
                            assert(tags_view(out@) =~= ov0.update(
                                idx as int,
                                with_inner(ov0[idx as int], s@.subrange(cs as int, old_i)),
                            ));
                            assert(stack_view(stack@) =~= sv.remove(p as int));
                        }
                    } else {
                        proof {
                            lemma_top_match_prefix(stack_view(stack@), tags_view(out@), cname@, 0);
                            assert(stack_view(stack@).take(0) =~= Seq::<(int, int)>::empty());
                            assert(top_match(stack_view(stack@), tags_view(out@), cname@) == -1);
                        }
                        i = j + 1;
                    }
                },
                None => {
                    i = n;
                },
            }
        } else {
            match find_sub_from(s, ">", i) {
                Some(j) => {
                    proof {
                        reveal_strlit(">");
                        lemma_find_from_is_match(s@, ">"@, i as int);
                        assert(">"@[0] == '>');
                        assert(s@[j as int + 0] == ">"@[0]);
                        assert(s@[j as int] == '>');
                        assert(j != i);
                    }
                    let k = token_end_exec(s, i + 1, j);
                    let name = lower_substr(s, i + 1, k);
                    let content = substr(s, i, j + 1);
                    let selfclosed = s.get_char(j - 1) == '/';
                    let voidname = is_void(name.as_str());
                    let t = Tag { tagname: name, tagcontent: content, innerhtml: String::new() };
                    let ghost tv = t@;
                    if voidname || selfclosed {
                        out.push(t);
                        proof {
                            assert(tags_view(out@) =~= ov.push(tv));
                        }
                    } else {
                        out.push(t);
                        let newlen = out.len();
                        stack.push((newlen - 1, j + 1));
                        proof {
                            assert(tags_view(out@) =~= ov.push(tv));
                            assert(stack_view(stack@) =~= sv.push((ov.len() as int, j + 1)));
                        }
                    }
                    i = j + 1;
                },
                None => {
                    i = n;
                },
            }
        }
    }
    while stack.len() > 0
        invariant
            n == s@.len(),
            scan(s@) == finalize_open(s@, stack_view(stack@), tags_view(out@)),
            forall|q: int|
                0 <= q < stack@.len() ==> #[trigger] stack@[q].0 < out@.len() && stack@[q].1 <= n,
        decreases stack@.len(),
    {
        let ghost sv = stack_view(stack@);
        let ghost ov = tags_view(out@);
        match stack.pop() {
            Some((idx, cs)) => {
                let inner = substr(s, cs, n);
                out[idx].innerhtml = inner;
                proof {
                    assert(stack_view(stack@) =~= sv.drop_last());
                    assert(tags_view(out@) =~= ov.update(
                        idx as int,
                        with_inner(ov[idx as int], s@.subrange(cs as int, n as int)),
                    ));
                }
            },
            None => {},
        }
    }
    proof {
        assert(finalize_open(s@, stack_view(stack@), tags_view(out@)) == tags_view(out@));
    }
    out
}

} // verus!
