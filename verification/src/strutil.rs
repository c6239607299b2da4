//! Verified character-level string helpers: substring search, equality,
//! ASCII lowercasing and substring extraction, all specified over `Seq<char>`.

use vstd::prelude::*;

verus! {

/// The pattern `p` occurs in `h` starting at position `i`.
pub open spec fn match_at(h: Seq<char>, p: Seq<char>, i: int) -> bool {
    &&& 0 <= i
    &&& i + p.len() <= h.len()
    &&& forall|k: int| 0 <= k < p.len() ==> h[i + k] == p[k]
}

/// First position `>= i` where `p` occurs in `h`, or `-1` when there is none.
pub open spec fn find_from(h: Seq<char>, p: Seq<char>, i: int) -> int
    recommends
        0 <= i <= h.len(),
    decreases h.len() - i when 0 <= i <= h.len()
{
    if i + p.len() > h.len() {
        -1
    } else if match_at(h, p, i) {
        i
    } else if i < h.len() {
        find_from(h, p, i + 1)
    } else {
        -1
    }
}

/// The pattern `p` occurs somewhere in `h`.
pub open spec fn contains_seq(h: Seq<char>, p: Seq<char>) -> bool {
    find_from(h, p, 0) != -1
}

/// A found position is a real match at or after the start position.
pub proof fn lemma_find_from_is_match(h: Seq<char>, p: Seq<char>, i: int)
    requires
        0 <= i <= h.len(),
        find_from(h, p, i) != -1,
    ensures
        i <= find_from(h, p, i),
        match_at(h, p, find_from(h, p, i)),
    decreases h.len() - i,
{
    if i + p.len() > h.len() {
    } else if match_at(h, p, i) {
    } else if i < h.len() {
        lemma_find_from_is_match(h, p, i + 1);
    }
}

/// Whether `p` occurs in `s` at position `i`.
pub fn match_at_exec(s: &str, p: &str, i: usize) -> (r: bool)
    ensures
        r == match_at(s@, p@, i as int),
{
    let n = s.unicode_len();
    let m = p.unicode_len();
    if i > n || m > n - i {
        return false;
    }
    let mut k: usize = 0;
    while k < m
        invariant
            n == s@.len(),
            m == p@.len(),
            i + m <= n,
            k <= m,
            forall|q: int| 0 <= q < k ==> s@[i + q] == p@[q],
        decreases m - k,
    {
        if s.get_char(i + k) != p.get_char(k) {
            return false;
        }
        k += 1;
    }
    true
}

/// First occurrence of `p` in `s` at or after position `from`.
pub fn find_sub_from(s: &str, p: &str, from: usize) -> (r: Option<usize>)
    requires
        from <= s@.len(),
    ensures
        match r {
            Some(j) => find_from(s@, p@, from as int) == j as int,
            None => find_from(s@, p@, from as int) == -1,
        },
{
    let n = s.unicode_len();
    let m = p.unicode_len();
    let mut i: usize = from;
    loop
        invariant
            n == s@.len(),
            m == p@.len(),
            from <= i <= n,
            find_from(s@, p@, from as int) == find_from(s@, p@, i as int),
        decreases n - i,
    {
        if m > n - i {
            return None;
        }
        if match_at_exec(s, p, i) {
            return Some(i);
        }
        if i == n {
            return None;
        }
        i += 1;
    }
}

/// Whether `p` occurs anywhere in `s`.
pub fn contains_sub(s: &str, p: &str) -> (r: bool)
    ensures
        r == contains_seq(s@, p@),
{
    match find_sub_from(s, p, 0) {
        Some(_) => true,
        None => false,
    }
}

/// Whether the single character `c` occurs in `s`.
pub fn contains_char(s: &str, c: char) -> (r: bool)
    ensures
        r == s@.contains(c),
{
    let n = s.unicode_len();
    let mut i: usize = 0;
    while i < n
        invariant
            n == s@.len(),
            i <= n,
            forall|q: int| 0 <= q < i ==> s@[q] != c,
        decreases n - i,
    {
        if s.get_char(i) == c {
            assert(s@[i as int] == c);
            return true;
        }
        i += 1;
    }
    assert(forall|q: int| 0 <= q < s@.len() ==> s@[q] != c);
    false
}

/// The two string slices hold the same characters.
pub fn str_eq(a: &str, b: &str) -> (r: bool)
    ensures
        r == (a@ == b@),
{
    let n = a.unicode_len();
    if n != b.unicode_len() {
        return false;
    }
    let mut i: usize = 0;
    while i < n
        invariant
            n == a@.len(),
            n == b@.len(),
            i <= n,
            forall|q: int| 0 <= q < i ==> a@[q] == b@[q],
        decreases n - i,
    {
        if a.get_char(i) != b.get_char(i) {
            return false;
        }
        i += 1;
    }
    proof {
        assert(a@ =~= b@);
    }
    true
}

/// ASCII lowercase of one character; other characters are unchanged.
pub open spec fn lower_char(c: char) -> char {
    if 'A' <= c && c <= 'Z' {
        (((c as u8) + 32) as char)
    } else {
        c
    }
}

/// Characterwise ASCII lowercase of a character sequence.
pub open spec fn lower_seq(s: Seq<char>) -> Seq<char> {
    s.map_values(|c: char| lower_char(c))
}

/// ASCII lowercase of one character.
pub fn lower_char_exec(c: char) -> (r: char)
    ensures
        r == lower_char(c),
{
    if 'A' <= c && c <= 'Z' {
        (((c as u8) + 32) as char)
    } else {
        c
    }
}

/// Relies on `String::push`: appends exactly the given character at the end.
#[verifier::external_body]
pub(crate) fn push_char(s: &mut String, c: char)
    ensures
        final(s)@ == old(s)@.push(c),
{
    s.push(c);
}

/// The lowercased substring of `s` from `from` (inclusive) to `to` (exclusive).
pub fn lower_substr(s: &str, from: usize, to: usize) -> (r: String)
    requires
        from <= to <= s@.len(),
    ensures
        r@ == lower_seq(s@.subrange(from as int, to as int)),
{
    let mut out = String::new();
    let mut i: usize = from;
    while i < to
        invariant
            from <= i <= to <= s@.len(),
            out@ == lower_seq(s@.subrange(from as int, i as int)),
        decreases to - i,
    {
        let c = lower_char_exec(s.get_char(i));
        push_char(&mut out, c);
        proof {
            assert(s@.subrange(from as int, i + 1).drop_last() =~= s@.subrange(
                from as int,
                i as int,
            ));
            assert(out@ =~= lower_seq(s@.subrange(from as int, i + 1)));
        }
        i += 1;
    }
    out
}

/// The substring of `s` from `from` (inclusive) to `to` (exclusive), owned.
pub fn substr(s: &str, from: usize, to: usize) -> (r: String)
    requires
        from <= to <= s@.len(),
    ensures
        r@ == s@.subrange(from as int, to as int),
{
    String::from_str(s.substring_char(from, to))
}

} // verus!
