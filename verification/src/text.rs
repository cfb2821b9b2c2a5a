//! Character-level string helpers.
//!
//! The codec and the record managers work over `Vec<char>` buffers whose
//! views are `Seq<char>`, so that every transformation can be stated
//! exactly. The only trusted pieces here are a wrapper around
//! `String::push` and the two normalization wrappers, whose results are
//! named by uninterpreted functions.

use vstd::prelude::*;
use vstd::string::*;
use vstd::string::StrSliceExecFns;
use vstd::multiset::Multiset;

verus! {

/// Relies on `String::push`: appends exactly one character.
#[verifier::external_body]
pub(crate) fn push_char(s: &mut String, c: char)
    ensures
        final(s)@ == old(s)@.push(c),
{
    s.push(c);
}

/// Collects the characters of a string slice into a vector.
pub fn str_to_chars(s: &str) -> (r: Vec<char>)
    ensures
        r@ == s@,
{
    let n: usize = s.unicode_len();
    let mut r: Vec<char> = Vec::new();
    let mut i: usize = 0;
    while i < n
        invariant
            i <= n,
            n == s@.len(),
            r@ == s@.subrange(0, i as int),
        decreases n - i,
    {
        let c = s.get_char(i);
        r.push(c);
        i = i + 1;
        assert(r@ =~= s@.subrange(0, i as int));
    }
    assert(r@ =~= s@);
    r
}

/// Builds a `String` out of a character vector.
pub fn chars_to_string(v: &Vec<char>) -> (r: String)
    ensures
        r@ == v@,
{
    let mut r = String::new();
    let mut i: usize = 0;
    while i < v.len()
        invariant
            i <= v.len(),
            r@ == v@.subrange(0, i as int),
        decreases v.len() - i,
    {
        push_char(&mut r, v[i]);
        i = i + 1;
        assert(r@ =~= v@.subrange(0, i as int));
    }
    assert(r@ =~= v@);
    r
}

/// The lowercase form that `str::to_lowercase` produces for a sequence of
/// characters. The full Unicode case-folding table is not restated here;
/// the result is a function of the characters alone.
pub uninterp spec fn lower_of(s: Seq<char>) -> Seq<char>;

/// The result of `str::trim` on a sequence of characters: the sequence
/// without its leading and trailing whitespace.
pub uninterp spec fn trim_of(s: Seq<char>) -> Seq<char>;

/// Relies on `str::to_lowercase`: Unicode lowercase mapping, a function
/// of the input characters alone.
#[verifier::external_body]
pub(crate) fn lowercase(s: &str) -> (r: String)
    ensures
        r@ == lower_of(s@),
        s@.len() == 0 ==> r@.len() == 0,
{
    s.to_lowercase()
}

/// Relies on `str::trim`: strips leading and trailing whitespace, a
/// function of the input characters alone.
#[verifier::external_body]
pub(crate) fn trim_ws(s: &str) -> (r: &str)
    ensures
        r@ == trim_of(s@),
        s@.len() == 0 ==> r@.len() == 0,
{
    s.trim()
}

/// The canonical form a record name is reduced to before any lookup or
/// storage operation: surrounding whitespace removed, then lowercased.
pub open spec fn norm_of(s: Seq<char>) -> Seq<char> {
    lower_of(trim_of(s))
}

/// Normalizes a raw record name: trims surrounding whitespace and
/// lowercases the rest, so that lookups are case-insensitive.
pub fn normalize_name(s: &str) -> (r: String)
    ensures
        r@ == norm_of(s@),
{
    lowercase(trim_ws(s))
}

/// Whether `pat` occurs in `s` starting at index `i`.
pub open spec fn contains_at(s: Seq<char>, pat: Seq<char>, i: int) -> bool {
    0 <= i && i + pat.len() <= s.len() && s.subrange(i, i + pat.len()) == pat
}

/// Whether `pat` occurs anywhere in `s`.
pub open spec fn contains_pat(s: Seq<char>, pat: Seq<char>) -> bool {
    exists|i: int| contains_at(s, pat, i)
}

/// Whether the characters of `pat` occur as a contiguous run in `s`.
pub fn contains_chars(s: &Vec<char>, pat: &str) -> (r: bool)
    ensures
        r == contains_pat(s@, pat@),
{
    let m = pat.unicode_len();
    if m > s.len() {
        proof {
            if contains_pat(s@, pat@) {
                let w = choose|w: int| contains_at(s@, pat@, w);
            }
        }
        return false;
    }
    let mut i: usize = 0;
    while i <= s.len() - m
        invariant
            m == pat@.len(),
            m <= s.len(),
            i <= s.len() - m + 1,
            forall|w: int| 0 <= w < i ==> !contains_at(s@, pat@, w),
        decreases s.len() - i,
    {
        let mut j: usize = 0;
        let mut matched = true;
        while j < m
            invariant
                m == pat@.len(),
                i + m <= s.len(),
                j <= m,
                matched ==> forall|q: int| 0 <= q < j ==> s@[i + q] == pat@[q],
                !matched ==> exists|q: int| 0 <= q < j && s@[i + q] != (#[trigger] pat@[q]),
            decreases m - j,
        {
            if s[i + j] != pat.get_char(j) {
                matched = false;
                j = m;
            } else {
                j = j + 1;
            }
        }
        if matched {
            proof {
                assert(s@.subrange(i as int, i + pat@.len()) =~= pat@);
                assert(contains_at(s@, pat@, i as int));
            }
            return true;
        }
        proof {
            let q = choose|q: int| 0 <= q < m && s@[i + q] != (#[trigger] pat@[q]);
            assert(!contains_at(s@, pat@, i as int)) by {
                if contains_at(s@, pat@, i as int) {
                    assert(s@.subrange(i as int, i + pat@.len())[q] == pat@[q]);
                }
            }
        }
        i = i + 1;
    }
    proof {
        if contains_pat(s@, pat@) {
            let w = choose|w: int| contains_at(s@, pat@, w);
        }
    }
    false
}

/// Dictionary order on character sequences, by code point.
pub open spec fn lex_le(a: Seq<char>, b: Seq<char>) -> bool
    decreases a.len(),
{
    if a.len() == 0 {
        true
    } else if b.len() == 0 {
        false
    } else if a[0] == b[0] {
        lex_le(a.drop_first(), b.drop_first())
    } else {
        (a[0] as u32) < (b[0] as u32)
    }
}

proof fn lemma_lex_total(a: Seq<char>, b: Seq<char>)
    ensures
        lex_le(a, b) || lex_le(b, a),
    decreases a.len(),
{
    if a.len() > 0 && b.len() > 0 && a[0] == b[0] {
        lemma_lex_total(a.drop_first(), b.drop_first());
    } else if a.len() > 0 && b.len() > 0 {
        vstd::utf8::char_u32_cast(a[0], a[0] as u32);
        vstd::utf8::char_u32_cast(b[0], b[0] as u32);
        assert(a[0] as u32 != b[0] as u32);
    }
}

proof fn lemma_lex_trans(a: Seq<char>, b: Seq<char>, c: Seq<char>)
    requires
        lex_le(a, b),
        lex_le(b, c),
    ensures
        lex_le(a, c),
    decreases a.len(),
{
    if a.len() > 0 && b.len() > 0 && c.len() > 0 {
        if a[0] == b[0] && b[0] == c[0] {
            lemma_lex_trans(a.drop_first(), b.drop_first(), c.drop_first());
        }
    }
}

/// Compares two names in dictionary order.
fn str_lex_le(a: &String, b: &String) -> (r: bool)
    ensures
        r == lex_le(a@, b@),
{
    let an = a.as_str().unicode_len();
    let bn = b.as_str().unicode_len();
    let mut i: usize = 0;
    proof {
        assert(a@.skip(0) =~= a@);
        assert(b@.skip(0) =~= b@);
    }
    loop
        invariant
            i <= an,
            i <= bn,
            an == a@.len(),
            bn == b@.len(),
            lex_le(a@, b@) == lex_le(a@.skip(i as int), b@.skip(i as int)),
        decreases an - i,
    {
        if i == an {
            proof {
                assert(a@.skip(i as int).len() == 0);
            }
            return true;
        }
        if i == bn {
            proof {
                assert(b@.skip(i as int).len() == 0);
                assert(a@.skip(i as int).len() > 0);
            }
            return false;
        }
        let ca = a.as_str().get_char(i);
        let cb = b.as_str().get_char(i);
        proof {
            assert(a@.skip(i as int)[0] == a@[i as int]);
            assert(b@.skip(i as int)[0] == b@[i as int]);
            assert(a@.skip(i as int).drop_first() =~= a@.skip(i as int + 1));
            assert(b@.skip(i as int).drop_first() =~= b@.skip(i as int + 1));
        }
        if ca == cb {
            i = i + 1;
        } else {
            return (ca as u32) < (cb as u32);
        }
    }
}

/// Whether some name in the list reads `n`.
pub open spec fn name_in(v: Seq<String>, n: Seq<char>) -> bool {
    exists|i: int| 0 <= i < v.len() && (#[trigger] v[i])@ == n
}

/// Sorts names into dictionary order, keeping exactly the same names.
pub fn sort_names(v: Vec<String>) -> (r: Vec<String>)
    ensures
        r@.to_multiset() == v@.to_multiset(),
        forall|i: int, j: int|
            0 <= i < j < r@.len() ==> lex_le((#[trigger] r@[i])@, (#[trigger] r@[j])@),
        forall|n: Seq<char>| #[trigger] name_in(r@, n) <==> name_in(v@, n),
{
    broadcast use vstd::seq_lib::group_to_multiset_ensures;

    let mut out: Vec<String> = Vec::new();
    let mut rest = v;
    proof {
        assert(out@.to_multiset() =~= Multiset::<String>::empty());
        assert(out@.to_multiset().add(rest@.to_multiset()) =~= rest@.to_multiset());
    }
    while rest.len() > 0
        invariant
            out@.to_multiset().add(rest@.to_multiset()) == v@.to_multiset(),
            forall|i: int, j: int|
                0 <= i < j < out@.len() ==> lex_le((#[trigger] out@[i])@, (#[trigger] out@[j])@),
        decreases rest.len(),
    {
        let ghost outms = out@.to_multiset();
        let ghost restv = rest@;
        let x = rest.remove(0);
        proof {
            assert(restv[0] == x);
            vstd::seq_lib::to_multiset_remove(restv, 0);
            assert(rest@.to_multiset() == restv.to_multiset().remove(x));
            assert(restv.contains(x));
            vstd::seq_lib::to_multiset_contains(restv, x);
            assert(restv.to_multiset().count(x) > 0);
        }
        let mut p: usize = 0;
        while p < out.len() && str_lex_le(&out[p], &x)
            invariant
                p <= out.len(),
                forall|q: int| 0 <= q < p ==> lex_le((#[trigger] out@[q])@, x@),
            decreases out.len() - p,
        {
            p = p + 1;
        }
        let ghost outv = out@;
        out.insert(p, x);
        proof {
            broadcast use vstd::multiset::group_multiset_axioms;

            vstd::seq_lib::to_multiset_insert(outv, p as int, x);
            assert(out@.to_multiset() == outv.to_multiset().insert(x));
            assert(out@.to_multiset().add(rest@.to_multiset()) =~= v@.to_multiset());
            assert forall|i: int, j: int|
                0 <= i < j < out@.len() implies lex_le(
                (#[trigger] out@[i])@,
                (#[trigger] out@[j])@,
            ) by {
                if j < p {
                    assert(out@[i] == outv[i] && out@[j] == outv[j]);
                } else if i < p && j == p {
                    assert(out@[i] == outv[i] && out@[j] == x);
                } else if i == p && j > p {
                    assert(out@[i] == x && out@[j] == outv[j - 1]);
                    assert(p < outv.len());
                    assert(!lex_le(outv[p as int]@, x@));
                    lemma_lex_total(outv[p as int]@, x@);
                    if j - 1 > p {
                        lemma_lex_trans(x@, outv[p as int]@, outv[j - 1]@);
                    }
                } else if i < p && j > p {
                    assert(out@[i] == outv[i] && out@[j] == outv[j - 1]);
                    if i < j - 1 {
                    } else {
                        assert(i == p - 1 && j == p + 1 && i == j - 2 && false || i == j - 1);
                        assert(i < p && j - 1 >= p && i != j - 1);
                    }
                } else {
                    assert(i > p);
                    assert(out@[i] == outv[i - 1] && out@[j] == outv[j - 1]);
                }
            }
        }
    }
    proof {
        broadcast use vstd::multiset::group_multiset_axioms;

        vstd::seq_lib::to_multiset_len(rest@);
        assert(rest@.to_multiset().len() == 0);
        assert(rest@.to_multiset() =~= Multiset::<String>::empty());
        assert(out@.to_multiset().add(rest@.to_multiset()) =~= out@.to_multiset());
        assert forall|n: Seq<char>| #[trigger] name_in(out@, n) <==> name_in(v@, n) by {
            if name_in(out@, n) {
                let i = choose|i: int| 0 <= i < out@.len() && (#[trigger] out@[i])@ == n;
                let s = out@[i];
                assert(out@.contains(s));
                vstd::seq_lib::to_multiset_contains(out@, s);
                vstd::seq_lib::to_multiset_contains(v@, s);
                assert(v@.contains(s));
                let j = choose|j: int| 0 <= j < v@.len() && v@[j] == s;
                assert(v@[j]@ == n);
                assert(name_in(v@, n));
            }
            if name_in(v@, n) {
                let i = choose|i: int| 0 <= i < v@.len() && (#[trigger] v@[i])@ == n;
                let s = v@[i];
                assert(v@.contains(s));
                vstd::seq_lib::to_multiset_contains(v@, s);
                vstd::seq_lib::to_multiset_contains(out@, s);
                assert(out@.contains(s));
                let j = choose|j: int| 0 <= j < out@.len() && out@[j] == s;
                assert(out@[j]@ == n);
                assert(name_in(out@, n));
            }
        }
    }
    out
}

} // verus!
