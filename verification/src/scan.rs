//! Finding tool calls in a model's raw output: locating markers, skipping
//! white space and matching the braces of a JSON object, over the
//! characters of the output.
use vstd::prelude::*;

use crate::text::{
    first_where, lemma_first_where_absent, lemma_first_where_found, lemma_first_where_shift,
};

verus! {

/// Whether `c` is white space, as `char::is_whitespace` says: the
/// characters with the Unicode `White_Space` property.
pub open spec fn is_whitespace(c: char) -> bool {
    ||| ('\u{9}' <= c && c <= '\u{D}')
    ||| c == ' '
    ||| c == '\u{85}'
    ||| c == '\u{A0}'
    ||| c == '\u{1680}'
    ||| ('\u{2000}' <= c && c <= '\u{200A}')
    ||| c == '\u{2028}'
    ||| c == '\u{2029}'
    ||| c == '\u{202F}'
    ||| c == '\u{205F}'
    ||| c == '\u{3000}'
}

/// Whether `c` is white space (`char::is_whitespace`).
pub fn is_whitespace_char(c: char) -> (b: bool)
    ensures
        b == is_whitespace(c),
{
    ('\u{9}' <= c && c <= '\u{D}') || c == ' ' || c == '\u{85}' || c == '\u{A0}' || c == '\u{1680}'
        || ('\u{2000}' <= c && c <= '\u{200A}') || c == '\u{2028}' || c == '\u{2029}' || c
        == '\u{202F}' || c == '\u{205F}' || c == '\u{3000}'
}

/// Whether `pat` occurs in `cs` at position `i`.
pub open spec fn occurs_at(cs: Seq<char>, i: int, pat: Seq<char>) -> bool {
    0 <= i && i + pat.len() <= cs.len() && cs.subrange(i, i + pat.len()) == pat
}

/// Whether `pat` occurs at a position, counting from `from`.
pub open spec fn occurs_from(cs: Seq<char>, from: int, pat: Seq<char>) -> spec_fn(int) -> bool {
    |i: int| i >= from && occurs_at(cs, i, pat)
}

/// The first position at or after `from` where `pat` occurs in `cs`.
pub open spec fn find_from(cs: Seq<char>, from: int, pat: Seq<char>) -> Option<int> {
    first_where((cs.len() + 1) as int, occurs_from(cs, from, pat))
}

/// Whether `pat` occurs in `cs` at position `i`.
fn occurs_here(cs: &Vec<char>, i: usize, pat: &Vec<char>) -> (b: bool)
    requires
        i <= cs@.len(),
    ensures
        b == occurs_at(cs@, i as int, pat@),
{
    let n = cs.len();
    if pat.len() > n - i {
        return false;
    }
    let mut k: usize = 0;
    while k < pat.len()
        invariant
            n == cs@.len(),
            i + pat@.len() <= n,
            k <= pat@.len(),
            forall|j: int| 0 <= j < k ==> cs@[i + j] == #[trigger] pat@[j],
        decreases pat.len() - k,
    {
        let ik = i + k;
        if cs[ik] != pat[k] {
            assert(cs@.subrange(i as int, i + pat@.len())[k as int] != pat@[k as int]);
            return false;
        }
        k += 1;
    }
    assert(cs@.subrange(i as int, i + pat@.len()) =~= pat@);
    true
}

/// The first position at or after `from` where `pat` occurs in `cs`.
pub fn find_text_from(cs: &Vec<char>, from: usize, pat: &Vec<char>) -> (r: Option<usize>)
    ensures
        match r {
            Some(i) => find_from(cs@, from as int, pat@) == Some(i as int) && from <= i && i
                + pat@.len() <= cs@.len(),
            None => find_from(cs@, from as int, pat@) is None,
        },
{
    let ghost p = occurs_from(cs@, from as int, pat@);
    if from > cs.len() {
        proof {
            lemma_first_where_absent((cs@.len() + 1) as int, p);
        }
        return None;
    }
    let mut i: usize = from;
    loop
        invariant
            from <= i <= cs@.len(),
            p == occurs_from(cs@, from as int, pat@),
            forall|j: int| 0 <= j < i ==> !#[trigger] p(j),
        ensures
            forall|j: int| 0 <= j <= cs@.len() ==> !#[trigger] p(j),
        decreases cs.len() + 1 - i,
    {
        if occurs_here(cs, i, pat) {
            proof {
                lemma_first_where_found((cs@.len() + 1) as int, p, i as int);
            }
            return Some(i);
        }
        if i == cs.len() {
            break;
        }
        i += 1;
    }
    proof {
        lemma_first_where_absent((cs@.len() + 1) as int, p);
    }
    None
}

/// Whether position `i` holds a character other than white space, counting
/// from `from`.
pub open spec fn non_space_from(cs: Seq<char>, from: int) -> spec_fn(int) -> bool {
    |i: int| i >= from && !is_whitespace(cs[i])
}

/// The first position in `from..to` that holds no white space, or `to`.
pub open spec fn skip_space(cs: Seq<char>, from: int, to: int) -> int {
    match first_where(to, non_space_from(cs, from)) {
        Some(i) => i,
        None => to,
    }
}

/// The first position in `from..to` that holds no white space, or `to`.
pub fn skip_space_from(cs: &Vec<char>, from: usize, to: usize) -> (r: usize)
    requires
        from <= to <= cs@.len(),
    ensures
        r == skip_space(cs@, from as int, to as int),
        from <= r <= to,
{
    let ghost p = non_space_from(cs@, from as int);
    let mut i = from;
    while i < to
        invariant
            from <= i <= to,
            to <= cs@.len(),
            p == non_space_from(cs@, from as int),
            forall|j: int| 0 <= j < i ==> !#[trigger] p(j),
        decreases to - i,
    {
        if !is_whitespace_char(cs[i]) {
            proof {
                lemma_first_where_found(to as int, p, i as int);
            }
            return i;
        }
        i += 1;
    }
    proof {
        lemma_first_where_absent(to as int, p);
    }
    to
}

/// The position just past the last character in `from..to` that is not
/// white space, or `from`.
pub open spec fn trim_end(cs: Seq<char>, from: int, to: int) -> int
    decreases to - from,
{
    if to <= from {
        from
    } else if is_whitespace(cs[to - 1]) {
        trim_end(cs, from, to - 1)
    } else {
        to
    }
}

/// The position just past the last character in `from..to` that is not
/// white space, or `from`.
pub fn trim_end_from(cs: &Vec<char>, from: usize, to: usize) -> (r: usize)
    requires
        from <= to <= cs@.len(),
    ensures
        r == trim_end(cs@, from as int, to as int),
        from <= r <= to,
{
    let mut e = to;
    while e > from && is_whitespace_char(cs[e - 1])
        invariant
            from <= e <= to,
            to <= cs@.len(),
            trim_end(cs@, from as int, to as int) == trim_end(cs@, from as int, e as int),
        decreases e,
    {
        e -= 1;
    }
    e
}

/// The state of a scan over a JSON object: nesting depth, inside a string,
/// right after a backslash inside a string.
pub open spec fn scan_step(st: (int, bool, bool), c: char) -> (int, bool, bool) {
    if st.2 {
        (st.0, st.1, false)
    } else if st.1 {
        if c == '\\' {
            (st.0, true, true)
        } else if c == '"' {
            (st.0, false, false)
        } else {
            st
        }
    } else if c == '"' {
        (st.0, true, false)
    } else if c == '{' {
        (st.0 + 1, false, false)
    } else if c == '}' {
        (st.0 - 1, false, false)
    } else {
        st
    }
}

/// The scan state after the characters `q..i`.
pub open spec fn scan_to(cs: Seq<char>, q: int, i: int) -> (int, bool, bool)
    decreases i - q,
{
    if i <= q {
        (0, false, false)
    } else {
        scan_step(scan_to(cs, q, i - 1), cs[i - 1])
    }
}

/// Whether the character at `i` closes the object that starts at `q`.
pub open spec fn closes_at(cs: Seq<char>, q: int) -> spec_fn(int) -> bool {
    |i: int|
        i >= q && cs[i] == '}' && !scan_to(cs, q, i).1 && !scan_to(cs, q, i).2 && scan_to(
            cs,
            q,
            i,
        ).0 == 1
}

/// The position just past the `}` that closes the object starting at `q`,
/// looking no further than `to`.
pub open spec fn object_end(cs: Seq<char>, q: int, to: int) -> Option<int> {
    match first_where(to, closes_at(cs, q)) {
        Some(i) => Some(i + 1),
        None => None,
    }
}

/// Where the object that `from..to` starts with (after white space) lies:
/// its first and one-past-last positions.
pub open spec fn object_span(cs: Seq<char>, from: int, to: int) -> Option<(int, int)> {
    let q = skip_space(cs, from, to);
    if q < to && cs[q] == '{' {
        match object_end(cs, q, to) {
            Some(e) => Some((q, e)),
            None => None,
        }
    } else {
        None
    }
}

/// The position just past the `}` that closes the object starting at `q`
/// (strings and escapes inside it taken into account), looking no further
/// than `to`.
pub fn object_end_from(cs: &Vec<char>, q: usize, to: usize) -> (r: Option<usize>)
    requires
        q < to <= cs@.len(),
        cs@[q as int] == '{',
    ensures
        match r {
            Some(e) => object_end(cs@, q as int, to as int) == Some(e as int) && q < e <= to,
            None => object_end(cs@, q as int, to as int) is None,
        },
{
    let ghost p = closes_at(cs@, q as int);
    let mut depth: usize = 0;
    let mut in_str = false;
    let mut escape = false;
    let mut i = q;
    while i < to
        invariant
            q <= i <= to,
            to <= cs@.len(),
            cs@[q as int] == '{',
            p == closes_at(cs@, q as int),
            (depth as int, in_str, escape) == scan_to(cs@, q as int, i as int),
            depth <= i - q,
            i > q ==> depth >= 1,
            forall|j: int| 0 <= j < i ==> !#[trigger] p(j),
        decreases to - i,
    {
        let c = cs[i];
        proof {
            assert(scan_to(cs@, q as int, i + 1) == scan_step(scan_to(cs@, q as int, i as int), c));
        }
        if escape {
            escape = false;
        } else if in_str {
            if c == '\\' {
                escape = true;
            } else if c == '"' {
                in_str = false;
            }
        } else if c == '"' {
            in_str = true;
        } else if c == '{' {
            depth += 1;
        } else if c == '}' {
            if depth == 1 {
                proof {
                    assert(p(i as int));
                    lemma_first_where_found(to as int, p, i as int);
                }
                return Some(i + 1);
            }
            depth -= 1;
        }
        i += 1;
    }
    proof {
        lemma_first_where_absent(to as int, p);
    }
    None
}

/// Where the object that `from..to` starts with (after white space) lies.
pub fn object_span_in(cs: &Vec<char>, from: usize, to: usize) -> (r: Option<(usize, usize)>)
    requires
        from <= to <= cs@.len(),
    ensures
        match r {
            Some((q, e)) => object_span(cs@, from as int, to as int) == Some((q as int, e as int))
                && from <= q < e <= to,
            None => object_span(cs@, from as int, to as int) is None,
        },
{
    let q = skip_space_from(cs, from, to);
    if q < to && cs[q] == '{' {
        match object_end_from(cs, q, to) {
            Some(e) => Some((q, e)),
            None => None,
        }
    } else {
        None
    }
}

/// `pat` occurs in `p + r` at `p.len() + i` exactly where it occurs in `r`
/// at `i`.
pub proof fn lemma_occurs_at_shift(p: Seq<char>, r: Seq<char>, i: int, pat: Seq<char>)
    requires
        0 <= i,
    ensures
        occurs_at(p + r, p.len() + i, pat) == occurs_at(r, i, pat),
{
    let cs = p + r;
    if i + pat.len() <= r.len() {
        assert(cs.subrange(p.len() + i, p.len() + i + pat.len()) =~= r.subrange(i, i + pat.len()));
    }
}

/// Searching `p + r` from a position past `p` finds what searching `r`
/// finds, `p.len()` further on.
pub proof fn lemma_find_from_shift(p: Seq<char>, r: Seq<char>, j: int, pat: Seq<char>)
    requires
        0 <= j,
    ensures
        find_from(p + r, p.len() + j, pat) == (match find_from(r, j, pat) {
            Some(i) => Some(p.len() + i),
            None => None::<int>,
        }),
{
    let cs = p + r;
    let big = occurs_from(cs, p.len() + j, pat);
    let small = occurs_from(r, j, pat);
    assert forall|x: int| 0 <= x < p.len() implies !#[trigger] big(x) by {}
    assert forall|x: int| p.len() <= x < cs.len() + 1 implies #[trigger] big(x) == small(
        x - p.len(),
    ) by {
        lemma_occurs_at_shift(p, r, x - p.len(), pat);
    }
    lemma_first_where_shift((cs.len() + 1) as int, (r.len() + 1) as int, p.len() as int, big, small);
}

/// Skipping white space in `from..to` reads only `from..to`.
pub proof fn lemma_skip_space_window(cs: Seq<char>, from: int, to: int)
    requires
        0 <= from <= to <= cs.len(),
    ensures
        skip_space(cs, from, to) == from + skip_space(cs.subrange(from, to), 0, to - from),
{
    let w = cs.subrange(from, to);
    let big = non_space_from(cs, from);
    let small = non_space_from(w, 0);
    assert forall|x: int| 0 <= x < from implies !#[trigger] big(x) by {}
    assert forall|x: int| from <= x < to implies #[trigger] big(x) == small(x - from) by {
        assert(w[x - from] == cs[x]);
    }
    lemma_first_where_shift(to, to - from, from, big, small);
}

/// The scan state over `q..i` reads only those characters.
proof fn lemma_scan_to_window(cs: Seq<char>, from: int, to: int, q: int, i: int)
    requires
        0 <= from <= q <= i <= to <= cs.len(),
    ensures
        scan_to(cs, q, i) == scan_to(cs.subrange(from, to), q - from, i - from),
    decreases i - q,
{
    if i > q {
        lemma_scan_to_window(cs, from, to, q, i - 1);
        assert(cs.subrange(from, to)[i - 1 - from] == cs[i - 1]);
    }
}

/// Finding the end of an object that starts at `q` within `from..to`
/// reads only `from..to`.
pub proof fn lemma_object_end_window(cs: Seq<char>, from: int, to: int, q: int)
    requires
        0 <= from <= q <= to <= cs.len(),
    ensures
        object_end(cs, q, to) == (match object_end(cs.subrange(from, to), q - from, to - from) {
            Some(e) => Some(from + e),
            None => None::<int>,
        }),
{
    let w = cs.subrange(from, to);
    let big = closes_at(cs, q);
    let small = closes_at(w, q - from);
    assert forall|x: int| 0 <= x < from implies !#[trigger] big(x) by {}
    assert forall|x: int| from <= x < to implies #[trigger] big(x) == small(x - from) by {
        if x >= q {
            lemma_scan_to_window(cs, from, to, q, x);
        }
        assert(w[x - from] == cs[x]);
    }
    lemma_first_where_shift(to, to - from, from, big, small);
}

} // verus!
