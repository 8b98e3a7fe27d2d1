//! Verified string utilities: equality, prefix tests, substring search,
//! lexicographic comparison, pattern replacement and prefix stripping,
//! together with trusted wrappers around the standard library's trimming
//! and case folding.

use vstd::prelude::*;
use vstd::string::StrSliceExecFns;

verus! {

/// Character-for-character equality of two string slices.
pub fn str_eq(a: &str, b: &str) -> (r: bool)
    ensures
        r == (a@ == b@),
{
    let alen = a.unicode_len();
    let blen = b.unicode_len();
    if alen != blen {
        return false;
    }
    let mut i: usize = 0;
    while i < alen
        invariant
            alen == a@.len(),
            blen == b@.len(),
            alen == blen,
            0 <= i <= alen,
            forall|k: int| 0 <= k < i ==> a@[k] == b@[k],
        decreases alen - i,
    {
        if a.get_char(i) != b.get_char(i) {
            return false;
        }
        i += 1;
    }
    proof {
        assert(a@ =~= b@);
    }
    true
}

/// `prefix` occurs in `s` starting at position 0.
pub open spec fn seq_starts_with(s: Seq<char>, prefix: Seq<char>) -> bool {
    prefix.len() <= s.len() && s.subrange(0, prefix.len() as int) == prefix
}

/// `pat` occurs in `hay` starting at position `k`.
pub fn str_match_at(hay: &str, pat: &str, k: usize) -> (r: bool)
    requires
        k + pat@.len() <= hay@.len(),
    ensures
        r == (hay@.subrange(k as int, k + pat@.len()) == pat@),
{
    let hlen = hay.unicode_len();
    let plen = pat.unicode_len();
    let mut i: usize = 0;
    while i < plen
        invariant
            hlen == hay@.len(),
            plen == pat@.len(),
            k + plen <= hlen,
            0 <= i <= plen,
            forall|j: int| 0 <= j < i ==> hay@[k + j] == pat@[j],
        decreases plen - i,
    {
        if hay.get_char(k + i) != pat.get_char(i) {
            proof {
                assert(hay@.subrange(k as int, k + pat@.len())[i as int] != pat@[i as int]);
            }
            return false;
        }
        i += 1;
    }
    proof {
        assert(hay@.subrange(k as int, k + pat@.len()) =~= pat@);
    }
    true
}

/// `needle` occurs somewhere in `hay` as a contiguous run.
pub open spec fn has_substring(hay: Seq<char>, needle: Seq<char>) -> bool {
    exists|k: int|
        0 <= k <= hay.len() - needle.len() && #[trigger] hay.subrange(k, k + needle.len())
            == needle
}

pub fn str_contains(hay: &str, needle: &str) -> (r: bool)
    ensures
        r == has_substring(hay@, needle@),
{
    let hlen = hay.unicode_len();
    let nlen = needle.unicode_len();
    if nlen > hlen {
        return false;
    }
    if nlen == 0 {
        proof {
            assert(hay@.subrange(0, 0 + needle@.len() as int) =~= needle@);
        }
        return true;
    }
    let mut k: usize = 0;
    while k <= hlen - nlen
        invariant
            hlen == hay@.len(),
            nlen == needle@.len(),
            0 < nlen <= hlen,
            0 <= k <= hlen - nlen + 1,
            forall|j: int|
                0 <= j < k ==> #[trigger] hay@.subrange(j, j + needle@.len()) != needle@,
        decreases hlen - k,
    {
        if str_match_at(hay, needle, k) {
            return true;
        }
        k += 1;
    }
    false
}

/// Lexicographic order on character sequences, by code point.
pub open spec fn lex_le(a: Seq<char>, b: Seq<char>) -> bool
    decreases a.len(),
{
    if a.len() == 0 {
        true
    } else if b.len() == 0 {
        false
    } else if a[0] < b[0] {
        true
    } else if a[0] > b[0] {
        false
    } else {
        lex_le(a.drop_first(), b.drop_first())
    }
}

pub proof fn lemma_lex_le_total(a: Seq<char>, b: Seq<char>)
    ensures
        lex_le(a, b) || lex_le(b, a),
    decreases a.len(),
{
    if a.len() > 0 && b.len() > 0 && a[0] == b[0] {
        lemma_lex_le_total(a.drop_first(), b.drop_first());
    }
}

pub proof fn lemma_lex_le_transitive(a: Seq<char>, b: Seq<char>, c: Seq<char>)
    requires
        lex_le(a, b),
        lex_le(b, c),
    ensures
        lex_le(a, c),
    decreases a.len(),
{
    if a.len() == 0 {
    } else if b.len() == 0 {
        assert(!lex_le(a, b));
    } else if c.len() == 0 {
        assert(!lex_le(b, c));
    } else if a[0] == b[0] && b[0] == c[0] {
        lemma_lex_le_transitive(a.drop_first(), b.drop_first(), c.drop_first());
    } else {
        assert(a[0] <= b[0]);
        assert(b[0] <= c[0]);
        assert(a[0] < c[0]);
    }
}

/// Lexicographic comparison of two string slices.
pub fn str_le(a: &str, b: &str) -> (r: bool)
    ensures
        r == lex_le(a@, b@),
{
    let alen = a.unicode_len();
    let blen = b.unicode_len();
    proof {
        assert(a@.skip(0) =~= a@);
        assert(b@.skip(0) =~= b@);
    }
    let mut i: usize = 0;
    while i < alen && i < blen
        invariant
            alen == a@.len(),
            blen == b@.len(),
            0 <= i <= alen,
            0 <= i <= blen,
            lex_le(a@, b@) == lex_le(a@.skip(i as int), b@.skip(i as int)),
        decreases alen - i,
    {
        let ca = a.get_char(i);
        let cb = b.get_char(i);
        proof {
            assert(a@.skip(i as int)[0] == a@[i as int]);
            assert(b@.skip(i as int)[0] == b@[i as int]);
        }
        if (ca as u32) < (cb as u32) {
            return true;
        }
        if (ca as u32) > (cb as u32) {
            return false;
        }
        proof {
            assert(a@.skip(i as int).drop_first() =~= a@.skip(i + 1));
            assert(b@.skip(i as int).drop_first() =~= b@.skip(i + 1));
        }
        i += 1;
    }
    proof {
        if i == alen {
            assert(a@.skip(i as int).len() == 0);
        } else {
            assert(b@.skip(i as int).len() == 0);
            assert(a@.skip(i as int).len() > 0);
        }
    }
    alen <= blen
}

/// Leftmost, non-overlapping replacement of `from` by `to`; sequences
/// shorter than `from`, and any `from` that is empty, are left as they are.
pub open spec fn replace_spec(s: Seq<char>, from: Seq<char>, to: Seq<char>) -> Seq<char>
    decreases s.len(),
{
    if from.len() == 0 || s.len() < from.len() {
        s
    } else if seq_starts_with(s, from) {
        to + replace_spec(s.skip(from.len() as int), from, to)
    } else {
        seq![s[0]] + replace_spec(s.drop_first(), from, to)
    }
}

/// Every occurrence of `from` in `hay` replaced by `to`, scanning from the
/// left without overlap.
pub fn replace_str(hay: &str, from: &str, to: &str) -> (r: String)
    requires
        from@.len() > 0,
    ensures
        r@ == replace_spec(hay@, from@, to@),
{
    let hlen = hay.unicode_len();
    let flen = from.unicode_len();
    let mut out = String::new();
    proof {
        assert(hay@.skip(0) =~= hay@);
        assert(out@ + replace_spec(hay@, from@, to@) =~= replace_spec(hay@, from@, to@));
    }
    let mut i: usize = 0;
    while i < hlen
        invariant
            hlen == hay@.len(),
            flen == from@.len(),
            flen > 0,
            0 <= i <= hlen,
            replace_spec(hay@, from@, to@) == out@ + replace_spec(
                hay@.skip(i as int),
                from@,
                to@,
            ),
        decreases hlen - i,
    {
        let ghost rest = hay@.skip(i as int);
        if flen <= hlen - i && str_match_at(hay, from, i) {
            proof {
                assert(rest.subrange(0, flen as int) =~= hay@.subrange(i as int, i + flen));
                assert(seq_starts_with(rest, from@));
                assert(rest.skip(flen as int) =~= hay@.skip(i + flen));
                assert(out@ + (to@ + replace_spec(hay@.skip(i + flen), from@, to@)) =~= (out@
                    + to@) + replace_spec(hay@.skip(i + flen), from@, to@));
            }
            out.append(to);
            i += flen;
        } else {
            proof {
                if flen <= hlen - i {
                    assert(rest.subrange(0, flen as int) =~= hay@.subrange(i as int, i + flen));
                }
                assert(!seq_starts_with(rest, from@));
                assert(rest.drop_first() =~= hay@.skip(i + 1));
                assert(rest[0] == hay@[i as int]);
            }
            let piece = hay.substring_char(i, i + 1);
            proof {
                assert(piece@ =~= seq![hay@[i as int]]);
                assert(out@ + (seq![rest[0]] + replace_spec(hay@.skip(i + 1), from@, to@)) =~= (
                out@ + piece@) + replace_spec(hay@.skip(i + 1), from@, to@));
            }
            out.append(piece);
            i += 1;
        }
    }
    proof {
        assert(hay@.skip(hlen as int).len() == 0);
        assert(out@ + replace_spec(hay@.skip(hlen as int), from@, to@) =~= out@);
    }
    out
}

/// All leading copies of `prefix` removed; an empty `prefix` removes nothing.
pub open spec fn strip_prefix_spec(s: Seq<char>, prefix: Seq<char>) -> Seq<char>
    decreases s.len(),
{
    if prefix.len() == 0 {
        s
    } else if seq_starts_with(s, prefix) {
        strip_prefix_spec(s.skip(prefix.len() as int), prefix)
    } else {
        s
    }
}

/// Removes every successive copy of `prefix` from the front of `s`.
pub fn strip_prefix_repeated<'a>(s: &'a str, prefix: &str) -> (r: &'a str)
    requires
        prefix@.len() > 0,
    ensures
        r@ == strip_prefix_spec(s@, prefix@),
{
    let plen = prefix.unicode_len();
    let mut cur: &'a str = s;
    loop
        invariant
            plen == prefix@.len(),
            plen > 0,
            strip_prefix_spec(s@, prefix@) == strip_prefix_spec(cur@, prefix@),
        decreases cur@.len(),
    {
        let clen = cur.unicode_len();
        if plen > clen {
            return cur;
        }
        if !str_match_at(cur, prefix, 0) {
            return cur;
        }
        proof {
            assert(seq_starts_with(cur@, prefix@));
        }
        let next = cur.substring_char(plen, clen);
        proof {
            assert(next@ =~= cur@.skip(plen as int));
        }
        cur = next;
    }
}

/// Named result of the standard library's whitespace trimming.
pub uninterp spec fn trim_of(s: Seq<char>) -> Seq<char>;

/// Relies on str::trim: removes leading and trailing whitespace, and the
/// result depends on the characters alone.
#[verifier::external_body]
pub fn trim_str<'a>(s: &'a str) -> (r: &'a str)
    ensures
        r@ == trim_of(s@),
        s@.len() == 0 ==> r@.len() == 0,
{
    s.trim()
}

/// Named result of the standard library's case folding.
pub uninterp spec fn lower_of(s: Seq<char>) -> Seq<char>;

/// Relies on str::to_lowercase: the result depends on the characters alone.
#[verifier::external_body]
pub fn lowercase_str(s: &str) -> (r: String)
    ensures
        r@ == lower_of(s@),
        s@.len() == 0 ==> r@.len() == 0,
{
    s.to_lowercase()
}

} // verus!
