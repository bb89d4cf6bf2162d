//! Character-level text utilities: conversions between `&str`, `Vec<char>`
//! and `String`, equality and lexicographic comparison, and substring search.
//!
//! Everything here is exact: contracts are stated over the `Seq<char>` views.

use vstd::prelude::*;
use vstd::string::*;

verus! {

/// Relies on `core::char::from_u32`: per its documentation it returns
/// `Some` exactly for Unicode scalar values (codes below the surrogate range
/// or between the surrogates' end and the largest code point), and the
/// returned `char` has the given code.
#[verifier::external_body]
pub fn char_from_u32(v: u32) -> (r: Option<char>)
    ensures
        r is Some <==> (v < 0xD800 || (0xE000 <= v && v <= 0x10FFFF)),
        r matches Some(c) ==> c == (v as char) && c as u32 == v,
{
    char::from_u32(v)
}

/// Relies on `String::from_iter` over a copied char iterator: it builds the
/// string holding exactly the given characters, in order.
#[verifier::external_body]
pub fn chars_to_string(v: &Vec<char>) -> (r: String)
    ensures
        r@ == v@,
{
    v.iter().collect()
}

/// What `str::to_lowercase` returns: a function of the characters alone,
/// per the Unicode lowercasing tables.
pub uninterp spec fn lower_of(s: Seq<char>) -> Seq<char>;

/// Relies on `str::to_lowercase`: the result depends only on the characters
/// of the input, and an empty input yields an empty result.
#[verifier::external_body]
pub fn lowercase(s: &str) -> (r: String)
    ensures
        r@ == lower_of(s@),
        s@.len() == 0 ==> r@.len() == 0,
{
    s.to_lowercase()
}

/// The characters of a string, as a vector.
pub fn to_chars(s: &str) -> (r: Vec<char>)
    ensures
        r@ == s@,
{
    let n = s.unicode_len();
    let mut r: Vec<char> = Vec::new();
    let mut i: usize = 0;
    while i < n
        invariant
            n == s@.len(),
            i <= n,
            r@ == s@.subrange(0, i as int),
        decreases n - i,
    {
        r.push(s.get_char(i));
        i = i + 1;
        proof {
            assert(r@ =~= s@.subrange(0, i as int));
        }
    }
    proof {
        assert(s@.subrange(0, n as int) =~= s@);
    }
    r
}

/// Character-for-character string equality.
pub fn str_eq(a: &str, b: &str) -> (r: bool)
    ensures
        r == (a@ == b@),
{
    let na = a.unicode_len();
    let nb = b.unicode_len();
    if na != nb {
        return false;
    }
    let mut i: usize = 0;
    while i < na
        invariant
            na == a@.len(),
            na == b@.len(),
            i <= na,
            forall|j: int| 0 <= j < i ==> a@[j] == b@[j],
        decreases na - i,
    {
        if a.get_char(i) != b.get_char(i) {
            return false;
        }
        i = i + 1;
    }
    proof {
        assert(a@ =~= b@);
    }
    true
}

/// Whether a character vector holds exactly the characters of a string.
pub fn chars_eq_str(v: &Vec<char>, s: &str) -> (r: bool)
    ensures
        r == (v@ == s@),
{
    let n = s.unicode_len();
    if v.len() != n {
        return false;
    }
    let mut i: usize = 0;
    while i < n
        invariant
            n == s@.len(),
            n == v@.len(),
            i <= n,
            forall|j: int| 0 <= j < i ==> v@[j] == s@[j],
        decreases n - i,
    {
        if v[i] != s.get_char(i) {
            return false;
        }
        i = i + 1;
    }
    proof {
        assert(v@ =~= s@);
    }
    true
}

/// Lexicographic order on character sequences, by code point. This is the
/// order `String` comparison gives, since UTF-8 byte order follows code-point
/// order.
pub open spec fn lex_leq(a: Seq<char>, b: Seq<char>) -> bool
    decreases a.len(),
{
    if a.len() == 0 {
        true
    } else if b.len() == 0 {
        false
    } else if (a[0] as u32) < (b[0] as u32) {
        true
    } else if (a[0] as u32) > (b[0] as u32) {
        false
    } else {
        lex_leq(a.skip(1), b.skip(1))
    }
}

/// `lex_leq` is total: of two sequences, one is below the other.
pub proof fn lemma_lex_leq_total(a: Seq<char>, b: Seq<char>)
    ensures
        lex_leq(a, b) || lex_leq(b, a),
    decreases a.len(),
{
    if a.len() == 0 || b.len() == 0 {
    } else if (a[0] as u32) == (b[0] as u32) {
        lemma_lex_leq_total(a.skip(1), b.skip(1));
    }
}

/// `lex_leq` is transitive.
pub proof fn lemma_lex_leq_trans(a: Seq<char>, b: Seq<char>, c: Seq<char>)
    requires
        lex_leq(a, b),
        lex_leq(b, c),
    ensures
        lex_leq(a, c),
    decreases a.len(),
{
    if a.len() == 0 || b.len() == 0 || c.len() == 0 {
    } else if (a[0] as u32) == (b[0] as u32) && (b[0] as u32) == (c[0] as u32) {
        lemma_lex_leq_trans(a.skip(1), b.skip(1), c.skip(1));
    }
}

/// Lexicographic comparison of two strings, by characters.
pub fn str_lex_leq(a: &str, b: &str) -> (r: bool)
    ensures
        r == lex_leq(a@, b@),
{
    let na = a.unicode_len();
    let nb = b.unicode_len();
    let mut i: usize = 0;
    proof {
        assert(a@.skip(0) =~= a@);
        assert(b@.skip(0) =~= b@);
    }
    loop
        invariant
            na == a@.len(),
            nb == b@.len(),
            i <= na,
            i <= nb,
            forall|j: int| 0 <= j < i ==> a@[j] == b@[j],
            lex_leq(a@, b@) == lex_leq(a@.skip(i as int), b@.skip(i as int)),
        decreases na - i,
    {
        if i == na {
            proof {
                assert(a@.skip(i as int).len() == 0);
            }
            return true;
        }
        if i == nb {
            proof {
                assert(b@.skip(i as int).len() == 0);
                assert(a@.skip(i as int).len() > 0);
            }
            return false;
        }
        let ca = a.get_char(i);
        let cb = b.get_char(i);
        proof {
            assert(a@.skip(i as int)[0] == a@[i as int]);
            assert(b@.skip(i as int)[0] == b@[i as int]);
            assert(a@.skip(i as int).skip(1) =~= a@.skip(i as int + 1));
            assert(b@.skip(i as int).skip(1) =~= b@.skip(i as int + 1));
        }
        if (ca as u32) < (cb as u32) {
            return true;
        }
        if (ca as u32) > (cb as u32) {
            return false;
        }
        i = i + 1;
    }
}

/// Whether `needle` occurs as a contiguous run inside `hay`.
pub open spec fn is_substring(needle: Seq<char>, hay: Seq<char>) -> bool {
    exists|k: int|
        0 <= k && k + needle.len() <= hay.len() && #[trigger] hay.subrange(
            k,
            k + needle.len(),
        ) == needle
}

/// Substring search: whether the characters of `lit` occur contiguously in
/// `hay`.
pub fn contains_lit(hay: &Vec<char>, lit: &str) -> (r: bool)
    ensures
        r == is_substring(lit@, hay@),
{
    let m = lit.unicode_len();
    let n = hay.len();
    if m > n {
        proof {
            assert(!is_substring(lit@, hay@));
        }
        return false;
    }
    if m == 0 {
        proof {
            assert(hay@.subrange(0, 0 + lit@.len() as int) =~= lit@);
        }
        return true;
    }
    let mut k: usize = 0;
    while k < n - m + 1
        invariant
            m == lit@.len(),
            n == hay@.len(),
            0 < m <= n,
            k <= n - m + 1,
            forall|k2: int|
                0 <= k2 < k ==> #[trigger] hay@.subrange(k2, k2 + lit@.len()) != lit@,
        decreases n - m + 1 - k,
    {
        let mut j: usize = 0;
        let mut matched = true;
        while j < m
            invariant
                m == lit@.len(),
                n == hay@.len(),
                k + m <= n,
                j <= m,
                matched ==> forall|j2: int| 0 <= j2 < j ==> hay@[k + j2] == lit@[j2],
                !matched ==> hay@.subrange(k as int, k as int + lit@.len()) != lit@,
            decreases m - j,
        {
            if hay[k + j] != lit.get_char(j) {
                proof {
                    assert(hay@.subrange(k as int, k as int + lit@.len())[j as int]
                        == hay@[k + j]);
                }
                matched = false;
                j = m;
            } else {
                j = j + 1;
            }
        }
        if matched {
            proof {
                assert(hay@.subrange(k as int, k as int + lit@.len()) =~= lit@);
            }
            return true;
        }
        k = k + 1;
    }
    proof {
        assert(forall|k2: int|
            0 <= k2 && k2 + lit@.len() <= hay@.len() ==> #[trigger] hay@.subrange(
                k2,
                k2 + lit@.len(),
            ) != lit@);
    }
    false
}

} // verus!
