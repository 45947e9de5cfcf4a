//! Character-level helpers shared by the registry, the cache and the
//! tool-call scanner: views of strings as character vectors, the
//! lexicographic order of `str`, and a sort by string key.
use vstd::prelude::*;
use vstd::string::StrSliceExecFns;

verus! {

/// Lexicographic order on character sequences: the order in which `str`'s
/// `<` puts two strings (UTF-8 keeps the order of code points).
pub open spec fn lex_lt(a: Seq<char>, b: Seq<char>) -> bool
    decreases a.len(),
{
    if a.len() == 0 {
        b.len() > 0
    } else if b.len() == 0 {
        false
    } else if a[0] != b[0] {
        a[0] < b[0]
    } else {
        lex_lt(a.drop_first(), b.drop_first())
    }
}

/// No sequence is below itself.
pub proof fn lemma_lex_irreflexive(a: Seq<char>)
    ensures
        !lex_lt(a, a),
    decreases a.len(),
{
    if a.len() > 0 {
        lemma_lex_irreflexive(a.drop_first());
    }
}

/// Two distinct sequences are ordered one way or the other, never both.
pub proof fn lemma_lex_total(a: Seq<char>, b: Seq<char>)
    ensures
        a != b ==> (lex_lt(a, b) || lex_lt(b, a)),
        !(lex_lt(a, b) && lex_lt(b, a)),
    decreases a.len(),
{
    if a.len() == 0 || b.len() == 0 {
        if a.len() == 0 && b.len() == 0 {
            assert(a =~= b);
        }
    } else if a[0] != b[0] {
    } else {
        lemma_lex_total(a.drop_first(), b.drop_first());
        if a != b {
            assert(a.drop_first() != b.drop_first()) by {
                if a.drop_first() == b.drop_first() {
                    assert(a =~= seq![a[0]] + a.drop_first());
                    assert(b =~= seq![b[0]] + b.drop_first());
                }
            }
        }
    }
}

/// The order is transitive.
pub proof fn lemma_lex_transitive(a: Seq<char>, b: Seq<char>, c: Seq<char>)
    requires
        lex_lt(a, b),
        lex_lt(b, c),
    ensures
        lex_lt(a, c),
    decreases a.len(),
{
    if a.len() > 0 && b.len() > 0 && c.len() > 0 {
        if a[0] == b[0] && b[0] == c[0] {
            lemma_lex_transitive(a.drop_first(), b.drop_first(), c.drop_first());
        }
    }
}

/// The characters of `s`, in order.
pub fn chars_of(s: &str) -> (r: Vec<char>)
    ensures
        r@ == s@,
{
    let n = s.unicode_len();
    let mut v: Vec<char> = Vec::new();
    let mut i: usize = 0;
    while i < n
        invariant
            n == s@.len(),
            i <= n,
            v@ == s@.take(i as int),
        decreases n - i,
    {
        v.push(s.get_char(i));
        i += 1;
        assert(v@ =~= s@.take(i as int));
    }
    assert(v@ =~= s@);
    v
}

/// Whether `a` sorts strictly before `b` as `str` values do.
pub fn str_lt(a: &str, b: &str) -> (r: bool)
    ensures
        r == lex_lt(a@, b@),
{
    let ac = chars_of(a);
    let bc = chars_of(b);
    let mut i: usize = 0;
    assert(a@.skip(0) =~= a@);
    assert(b@.skip(0) =~= b@);
    while i < ac.len() && i < bc.len()
        invariant
            ac@ == a@,
            bc@ == b@,
            i <= ac.len(),
            i <= bc.len(),
            lex_lt(a@, b@) == lex_lt(a@.skip(i as int), b@.skip(i as int)),
        decreases ac.len() - i,
    {
        if ac[i] != bc[i] {
            return ac[i] < bc[i];
        }
        assert(a@.skip(i as int).drop_first() =~= a@.skip(i + 1));
        assert(b@.skip(i as int).drop_first() =~= b@.skip(i + 1));
        i += 1;
    }
    i < bc.len()
}

/// Whether two strings hold the same characters.
pub fn str_eq(a: &str, b: &str) -> (r: bool)
    ensures
        r == (a@ == b@),
{
    let x = a.to_owned();
    let y = b.to_owned();
    x == y
}

/// `i` is the first position at which `p` holds.
pub open spec fn is_first(p: spec_fn(int) -> bool, i: int) -> bool {
    0 <= i && p(i) && forall|j: int| 0 <= j < i ==> !#[trigger] p(j)
}

/// The first position below `n` at which `p` holds, if there is one.
pub open spec fn first_where(n: int, p: spec_fn(int) -> bool) -> Option<int> {
    if exists|i: int| 0 <= i < n && #[trigger] p(i) {
        Some(choose|i: int| 0 <= i < n && #[trigger] is_first(p, i))
    } else {
        None
    }
}

/// A position found by scanning from the front is the first one.
pub proof fn lemma_first_where_found(n: int, p: spec_fn(int) -> bool, i: int)
    requires
        i < n,
        is_first(p, i),
    ensures
        first_where(n, p) == Some(i),
{
    assert(0 <= i < n && p(i));
    let c = choose|c: int| 0 <= c < n && is_first(p, c);
    assert(0 <= c < n && is_first(p, c));
    if c < i {
        assert(p(c));
    } else if c > i {
        assert(!p(i));
    }
}

/// Where `p` holds below `n`, it holds at a first position below `n`.
pub proof fn lemma_first_exists(n: int, p: spec_fn(int) -> bool)
    requires
        exists|i: int| 0 <= i < n && #[trigger] p(i),
    ensures
        exists|i: int| 0 <= i < n && #[trigger] is_first(p, i),
    decreases n,
{
    if exists|i: int| 0 <= i < n - 1 && #[trigger] p(i) {
        lemma_first_exists(n - 1, p);
        let i = choose|i: int| 0 <= i < n - 1 && #[trigger] is_first(p, i);
        assert(0 <= i < n && is_first(p, i));
    } else {
        assert(is_first(p, n - 1));
    }
}

/// What `first_where` finds is the first position at which `p` holds, and
/// when it finds nothing, `p` holds nowhere below `n`.
pub proof fn lemma_first_where(n: int, p: spec_fn(int) -> bool)
    ensures
        first_where(n, p) matches Some(i) ==> 0 <= i < n && is_first(p, i),
        first_where(n, p) is None ==> forall|j: int| 0 <= j < n ==> !#[trigger] p(j),
{
    if exists|i: int| 0 <= i < n && #[trigger] p(i) {
        lemma_first_exists(n, p);
    }
}

/// Where `p` holds nowhere below `n` there is no first position.
pub proof fn lemma_first_where_absent(n: int, p: spec_fn(int) -> bool)
    requires
        forall|j: int| 0 <= j < n ==> !#[trigger] p(j),
    ensures
        first_where(n, p) is None,
{
}

/// Where `p` holds nowhere below `d` and, from `d` on, holds at `x` exactly
/// where `q` holds at `x - d`, the first position of `p` below `m + d` is
/// `d` past the first position of `q` below `m`.
pub proof fn lemma_first_where_shift(
    n: int,
    m: int,
    d: int,
    p: spec_fn(int) -> bool,
    q: spec_fn(int) -> bool,
)
    requires
        d >= 0,
        m >= 0,
        n == m + d,
        forall|x: int| 0 <= x < d ==> !#[trigger] p(x),
        forall|x: int| d <= x < n ==> #[trigger] p(x) == q(x - d),
    ensures
        first_where(n, p) == (match first_where(m, q) {
            Some(g) => Some(d + g),
            None => None::<int>,
        }),
{
    lemma_first_where(m, q);
    match first_where(m, q) {
        Some(g) => {
            assert(p(d + g) == q(d + g - d));
            assert forall|x: int| 0 <= x < d + g implies !#[trigger] p(x) by {
                if x >= d {
                    assert(p(x) == q(x - d));
                    assert(!q(x - d));
                }
            }
            lemma_first_where_found(n, p, d + g);
        },
        None => {
            assert forall|x: int| 0 <= x < n implies !#[trigger] p(x) by {
                if x >= d {
                    assert(p(x) == q(x - d));
                    assert(!q(x - d));
                }
            }
            lemma_first_where_absent(n, p);
        },
    }
}

/// The same text, as a new string.
pub fn clone_opt_string(o: &Option<String>) -> (r: Option<String>)
    ensures
        r == *o,
{
    match o {
        Some(s) => Some(s.clone()),
        None => None,
    }
}

/// `String::push`: appends the character `c` to `s`.
#[verifier::external_body]
pub fn push_char(s: &mut String, c: char)
    ensures
        final(s)@ == old(s)@.push(c),
{
    s.push(c);
}

/// The characters of each string.
pub open spec fn string_views(v: Seq<String>) -> Seq<Seq<char>> {
    v.map_values(|s: String| s@)
}

/// A value that is ordered and identified by a string key.
pub trait Keyed {
    /// The key, as characters.
    spec fn key(&self) -> Seq<char>;

    /// The key, as a string.
    fn key_str(&self) -> (k: &str)
        ensures
            k@ == self.key(),
    ;
}

impl<'a> Keyed for &'a str {
    open spec fn key(&self) -> Seq<char> {
        (**self)@
    }

    fn key_str(&self) -> (k: &str) {
        *self
    }
}

/// The keys of a sequence of keyed values, in order.
pub open spec fn keys_of<T: Keyed>(s: Seq<T>) -> Seq<Seq<char>> {
    s.map_values(|x: T| x.key())
}

/// Every key sorts strictly before the keys that follow it.
pub open spec fn strictly_sorted(ks: Seq<Seq<char>>) -> bool {
    forall|i: int, j: int| 0 <= i < j < ks.len() ==> lex_lt(#[trigger] ks[i], #[trigger] ks[j])
}

/// The values of `v`, reordered so that their keys ascend. The keys must be
/// distinct, so the result is the one strictly ascending arrangement of `v`.
pub fn sort_by_key<T: Keyed + Copy>(v: &Vec<T>) -> (r: Vec<T>)
    requires
        keys_of(v@).no_duplicates(),
    ensures
        r.len() == v.len(),
        strictly_sorted(keys_of(r@)),
        forall|x: T| v@.contains(x) <==> r@.contains(x),
{
    let mut r: Vec<T> = Vec::new();
    let mut i: usize = 0;
    while i < v.len()
        invariant
            i <= v.len(),
            r.len() == i,
            keys_of(v@).no_duplicates(),
            strictly_sorted(keys_of(r@)),
            forall|x: T| r@.contains(x) <==> v@.take(i as int).contains(x),
        decreases v.len() - i,
    {
        let x = v[i];
        let kx = x.key_str();
        let mut pos: usize = 0;
        loop
            invariant
                pos <= r.len(),
                kx@ == x.key(),
                forall|j: int| 0 <= j < pos ==> lex_lt(#[trigger] r@[j].key(), x.key()),
            ensures
                pos <= r.len(),
                forall|j: int| 0 <= j < pos ==> lex_lt(#[trigger] r@[j].key(), x.key()),
                pos < r.len() ==> !lex_lt(r@[pos as int].key(), x.key()),
            decreases r.len() - pos,
        {
            if pos >= r.len() {
                break;
            }
            let below = str_lt(r[pos].key_str(), kx);
            if !below {
                break;
            }
            pos += 1;
        }
        let ghost old_r = r@;
        proof {
            // Every key already placed differs from the key of `x`.
            assert forall|j: int| 0 <= j < old_r.len() implies old_r[j].key() != x.key() by {
                assert(old_r.contains(old_r[j]));
                assert(v@.take(i as int).contains(old_r[j]));
                let k = choose|k: int| 0 <= k < i && v@.take(i as int)[k] == old_r[j];
                assert(keys_of(v@)[k] == v@[k].key());
                assert(keys_of(v@)[i as int] == v@[i as int].key());
            }
            if pos < old_r.len() {
                lemma_lex_total(old_r[pos as int].key(), x.key());
                assert forall|j: int| pos <= j < old_r.len() implies lex_lt(
                    x.key(),
                    #[trigger] old_r[j].key(),
                ) by {
                    if j > pos {
                        assert(keys_of(old_r)[pos as int] == old_r[pos as int].key());
                        assert(keys_of(old_r)[j] == old_r[j].key());
                        lemma_lex_transitive(x.key(), old_r[pos as int].key(), old_r[j].key());
                    }
                }
            }
        }
        r.insert(pos, x);
        proof {
            let nr = r@;
            assert(nr == old_r.insert(pos as int, x));
            assert forall|a: int, b: int| 0 <= a < b < nr.len() implies lex_lt(
                #[trigger] keys_of(nr)[a],
                #[trigger] keys_of(nr)[b],
            ) by {
                assert(keys_of(nr)[a] == nr[a].key());
                assert(keys_of(nr)[b] == nr[b].key());
                if b < pos {
                    assert(keys_of(old_r)[a] == old_r[a].key());
                    assert(keys_of(old_r)[b] == old_r[b].key());
                } else if b == pos {
                } else if a < pos {
                    assert(nr[b] == old_r[b - 1]);
                    lemma_lex_transitive(old_r[a].key(), x.key(), old_r[b - 1].key());
                } else if a == pos {
                    assert(nr[b] == old_r[b - 1]);
                } else {
                    assert(keys_of(old_r)[a - 1] == old_r[a - 1].key());
                    assert(keys_of(old_r)[b - 1] == old_r[b - 1].key());
                }
            }
            let t1 = v@.take(i + 1);
            assert(t1 =~= v@.take(i as int).push(x));
            assert forall|y: T| nr.contains(y) <==> t1.contains(y) by {
                if nr.contains(y) {
                    let k = choose|k: int| 0 <= k < nr.len() && nr[k] == y;
                    if k < pos {
                        assert(old_r[k] == y);
                        assert(old_r.contains(y));
                    } else if k > pos {
                        assert(old_r[k - 1] == y);
                        assert(old_r.contains(y));
                    }
                    assert(t1[i as int] == x);
                }
                if t1.contains(y) {
                    let k = choose|k: int| 0 <= k < t1.len() && t1[k] == y;
                    if k < i {
                        assert(v@.take(i as int)[k] == y);
                        assert(v@.take(i as int).contains(y));
                        assert(old_r.contains(y));
                        let m = choose|m: int| 0 <= m < old_r.len() && old_r[m] == y;
                        if m < pos {
                            assert(nr[m] == y);
                        } else {
                            assert(nr[m + 1] == y);
                        }
                    } else {
                        assert(nr[pos as int] == y);
                    }
                }
            }
        }
        i += 1;
    }
    assert(v@.take(v.len() as int) =~= v@);
    r
}

} // verus!
