//! The text extractor: strips all nested markup from an element's inner
//! markup and keeps only visible text, excluding the content of non-visible
//! elements (style and script) and of comments and declarations.

use vstd::prelude::*;
use crate::strutil::{
    match_at, find_from, lower_seq, match_at_exec, find_sub_from, lower_substr, str_eq,
    lemma_find_from_is_match,
};
use crate::scan::{token_end, token_end_exec};

verus! {

/// A tag name whose element content is not visible text.
pub open spec fn is_invisible_name(n: Seq<char>) -> bool {
    n == "style"@ || n == "script"@
}

/// Whether `name` names a non-visible element.
pub fn is_invisible(name: &str) -> (r: bool)
    ensures
        r == is_invisible_name(name@),
{
    str_eq(name, "style") || str_eq(name, "script")
}

/// The visible text of the markup `h` from position `i` on: ordinary
/// characters are kept; tags, comments and declarations are dropped; the
/// whole content of a style or script element is dropped. An unterminated
/// construct drops the remainder.
pub open spec fn text_from(h: Seq<char>, i: int) -> Seq<char>
    recommends
        0 <= i <= h.len(),
    decreases h.len() - i when 0 <= i <= h.len() via text_from_dec
{
    if i >= h.len() {
        Seq::empty()
    } else if h[i] != '<' {
        seq![h[i]] + text_from(h, i + 1)
    } else if match_at(h, "<!--"@, i) {
        let j = find_from(h, "-->"@, i + 4);
        if j == -1 {
            Seq::empty()
        } else {
            text_from(h, j + 3)
        }
    } else if i + 1 < h.len() && (h[i + 1] == '!' || h[i + 1] == '/') {
        let j = find_from(h, ">"@, i);
        if j == -1 {
            Seq::empty()
        } else {
            text_from(h, j + 1)
        }
    } else {
        let j = find_from(h, ">"@, i);
        if j == -1 {
            Seq::empty()
        } else {
            let k = token_end(h, i + 1, j);
            let name = lower_seq(h.subrange(i + 1, k));
            if is_invisible_name(name) {
                let e = find_from(h, "</"@ + name, j + 1);
                if e == -1 {
                    Seq::empty()
                } else {
                    let g = find_from(h, ">"@, e);
                    if g == -1 {
                        Seq::empty()
                    } else {
                        text_from(h, g + 1)
                    }
                }
            } else {
                text_from(h, j + 1)
            }
        }
    }
}

#[via_fn]
proof fn text_from_dec(h: Seq<char>, i: int) {
    reveal_strlit("<!--");
    reveal_strlit("-->");
    reveal_strlit(">");
    if 0 <= i < h.len() && h[i] == '<' {
        if match_at(h, "<!--"@, i) {
            if find_from(h, "-->"@, i + 4) != -1 {
                lemma_find_from_is_match(h, "-->"@, i + 4);
            }
        } else {
            let j = find_from(h, ">"@, i);
            if j != -1 {
                lemma_find_from_is_match(h, ">"@, i);
                let k = token_end(h, i + 1, j);
                let name = lower_seq(h.subrange(i + 1, k));
                if is_invisible_name(name) {
                    let e = find_from(h, "</"@ + name, j + 1);
                    if e != -1 {
                        lemma_find_from_is_match(h, "</"@ + name, j + 1);
                        let g = find_from(h, ">"@, e);
                        if g != -1 {
                            lemma_find_from_is_match(h, ">"@, e);
                        }
                    }
                }
            }
        }
    }
}

/// The visible text of an element with the given (lowercased) name and inner
/// markup: empty for non-visible elements, else the visible text of the
/// inner markup.
pub open spec fn text_of(name: Seq<char>, inner: Seq<char>) -> Seq<char> {
    if is_invisible_name(name) {
        Seq::empty()
    } else {
        text_from(inner, 0)
    }
}

/// Extract the visible text of an element.
pub fn extract_text(name: &str, inner: &str) -> (r: String)
    ensures
        r@ == text_of(name@, inner@),
{
    if is_invisible(name) {
        return String::new();
    }
    let n = inner.unicode_len();
    let mut i: usize = 0;
    let mut acc = String::new();
    while i < n
        invariant
            n == inner@.len(),
            i <= n,
            text_of(name@, inner@) == text_from(inner@, 0),
            text_from(inner@, 0) == acc@ + text_from(inner@, i as int),
        decreases n - i,
    {
        let ghost acc0 = acc@;
        let c = inner.get_char(i);
        if c != '<' {
            crate::strutil::push_char(&mut acc, c);
            proof {
                assert(acc0 + (seq![inner@[i as int]] + text_from(inner@, i + 1)) =~= acc@
                    + text_from(inner@, i + 1));
            }
            i += 1;
        } else if match_at_exec(inner, "<!--", i) {
            proof {
                reveal_strlit("<!--");
                reveal_strlit("-->");
            }
            assert(i + 4 <= n);
            match find_sub_from(inner, "-->", i + 4) {
                Some(j) => {
                    proof {
                        lemma_find_from_is_match(inner@, "-->"@, i + 4 as int);
                    }
                    i = j + 3;
                },
                None => {
                    proof {
                        assert(acc@ + text_from(inner@, i as int) =~= acc@);
                    }
                    return acc;
                },
            }
        } else if i + 1 < n && (inner.get_char(i + 1) == '!' || inner.get_char(i + 1) == '/') {
            match find_sub_from(inner, ">", i) {
                Some(j) => {
                    proof {
                        reveal_strlit(">");
                        lemma_find_from_is_match(inner@, ">"@, i as int);
                    }
                    i = j + 1;
                },
                None => {
                    proof {
                        assert(acc@ + text_from(inner@, i as int) =~= acc@);
                    }
                    return acc;
                },
            }
        } else {
            match find_sub_from(inner, ">", i) {
                Some(j) => {
                    proof {
                        reveal_strlit(">");
                        lemma_find_from_is_match(inner@, ">"@, i as int);
                        assert(">"@[0] == '>');
                        assert(inner@[j as int + 0] == ">"@[0]);
                        assert(j != i);
                    }
                    let k = token_end_exec(inner, i + 1, j);
                    let name2 = lower_substr(inner, i + 1, k);
                    if is_invisible(name2.as_str()) {
                        let mut pat = String::from_str("</");
                        pat.append(name2.as_str());
                        match find_sub_from(inner, pat.as_str(), j + 1) {
                            Some(e) => {
                                proof {
                                    lemma_find_from_is_match(inner@, pat@, j + 1 as int);
                                }
                                match find_sub_from(inner, ">", e) {
                                    Some(g) => {
                                        proof {
                                            reveal_strlit(">");
                                            lemma_find_from_is_match(inner@, ">"@, e as int);
                                        }
                                        i = g + 1;
                                    },
                                    None => {
                                        proof {
                                            assert(acc@ + text_from(inner@, i as int) =~= acc@);
                                        }
                                        return acc;
                                    },
                                }
                            },
                            None => {
                                proof {
                                    assert(acc@ + text_from(inner@, i as int) =~= acc@);
                                }
                                return acc;
                            },
                        }
                    } else {
                        i = j + 1;
                    }
                },
                None => {
                    proof {
                        assert(acc@ + text_from(inner@, i as int) =~= acc@);
                    }
                    return acc;
                },
            }
        }
    }
    acc
}

} // verus!
