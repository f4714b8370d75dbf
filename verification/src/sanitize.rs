//! Undoing what browsers do to saved pages: NUL bytes come back as the
//! replacement character or as its numeric entity, line breaks appear in
//! element text, and the document gets trimmed. These repairs are byte
//! functions with exact contracts, and restoring the replacement character
//! to NUL is proved to invert the damage.

use vstd::prelude::*;

verus! {

/// The UTF-8 bytes of the replacement character.
pub open spec fn spec_fffd() -> Seq<u8> {
    seq![239u8, 191u8, 189u8]
}

/// The numeric character entity a browser may write for it instead.
pub open spec fn spec_entity() -> Seq<u8> {
    seq![38u8, 35u8, 54u8, 53u8, 53u8, 51u8, 51u8, 59u8]
}

/// `s` with every occurrence of `pat` replaced by one NUL byte, left to
/// right and without overlap.
pub open spec fn spec_replace_with_nul(s: Seq<u8>, pat: Seq<u8>) -> Seq<u8>
    decreases s.len(),
{
    if s.len() == 0 {
        Seq::empty()
    } else if 0 < pat.len() <= s.len() && s.take(pat.len() as int) == pat {
        seq![0u8] + spec_replace_with_nul(s.skip(pat.len() as int), pat)
    } else {
        seq![s[0]] + spec_replace_with_nul(s.skip(1), pat)
    }
}

/// How many copies of `v` start `s`.
pub open spec fn count_leading(s: Seq<u8>, v: u8) -> nat
    decreases s.len(),
{
    if s.len() == 0 || s[0] != v {
        0
    } else {
        1 + count_leading(s.skip(1), v)
    }
}

/// How many copies of `v` end `s`.
pub open spec fn count_trailing(s: Seq<u8>, v: u8) -> nat
    decreases s.len(),
{
    if s.len() == 0 || s.last() != v {
        0
    } else {
        1 + count_trailing(s.drop_last(), v)
    }
}

/// `s` without its leading and trailing copies of `v`.
pub open spec fn spec_trim_byte(s: Seq<u8>, v: u8) -> Seq<u8> {
    let rest = s.skip(count_leading(s, v) as int);
    rest.take((rest.len() - count_trailing(rest, v)) as int)
}

/// Is this byte ASCII whitespace as a browser may insert it?
pub open spec fn is_ws(b: u8) -> bool {
    b == 9 || b == 10 || b == 11 || b == 12 || b == 13 || b == 32
}

/// Keep every byte that is neither `a` nor `b`.
pub open spec fn spec_keep(a: u8, b: u8) -> spec_fn(u8) -> bool {
    |x: u8| x != a && x != b
}

/// `s` without every byte equal to `a` or `b`.
pub open spec fn spec_remove_bytes(s: Seq<u8>, a: u8, b: u8) -> Seq<u8> {
    s.filter(spec_keep(a, b))
}

/// How many whitespace bytes start `s`.
pub open spec fn count_leading_ws(s: Seq<u8>) -> nat
    decreases s.len(),
{
    if s.len() == 0 || !is_ws(s[0]) {
        0
    } else {
        1 + count_leading_ws(s.skip(1))
    }
}

/// How many whitespace bytes end `s`.
pub open spec fn count_trailing_ws(s: Seq<u8>) -> nat
    decreases s.len(),
{
    if s.len() == 0 || !is_ws(s.last()) {
        0
    } else {
        1 + count_trailing_ws(s.drop_last())
    }
}

/// `s` without leading and trailing whitespace.
pub open spec fn spec_trim_ws(s: Seq<u8>) -> Seq<u8> {
    let rest = s.skip(count_leading_ws(s) as int);
    rest.take((rest.len() - count_trailing_ws(rest)) as int)
}

/// Replaces every occurrence of `pat` with one NUL byte, matching
/// `spec_replace_with_nul`.
pub fn replace_with_nul(s: &Vec<u8>, pat: &Vec<u8>) -> (r: Vec<u8>)
    requires
        pat@.len() > 0,
    ensures
        r@ == spec_replace_with_nul(s@, pat@),
{
    let n = s.len();
    let m = pat.len();
    let mut out: Vec<u8> = Vec::new();
    let mut i: usize = 0;
    proof {
        assert(s@.skip(0) =~= s@);
    }
    while i < n
        invariant
            n == s@.len(),
            m == pat@.len(),
            m > 0,
            i <= n,
            out@ + spec_replace_with_nul(s@.skip(i as int), pat@) == spec_replace_with_nul(
                s@,
                pat@,
            ),
        decreases n - i,
    {
        let mut matched = m <= n - i;
        if matched {
            let mut j: usize = 0;
            while j < m
                invariant
                    n == s@.len(),
                    m == pat@.len(),
                    i + m <= n,
                    j <= m,
                    matched <==> (forall|t: int| 0 <= t < j ==> s@[i + t] == pat@[t]),
                    !matched ==> j == m,
                decreases m - j,
            {
                if s[i + j] != pat[j] {
                    matched = false;
                    proof {
                        assert(s@[i + j] != pat@[j as int]);
                    }
                    j = m;
                } else {
                    proof {
                        assert(forall|t: int|
                            0 <= t < j + 1 ==> s@[i + t] == pat@[t] || t == j);
                    }
                    j += 1;
                }
            }
        }
        proof {
            let rest = s@.skip(i as int);
            if matched {
                assert(rest.take(m as int) =~= pat@);
                assert(rest.skip(m as int) =~= s@.skip(i + m));
            } else {
                if 0 < pat@.len() <= rest.len() && rest.take(m as int) == pat@ {
                    assert(forall|t: int|
                        0 <= t < m ==> #[trigger] rest.take(m as int)[t] == s@[i + t]);
                    assert(false);
                }
                assert(rest[0] == s@[i as int]);
                assert(rest.skip(1) =~= s@.skip(i + 1));
            }
        }
        if matched {
            out.push(0u8);
            proof {
                assert(out@ + spec_replace_with_nul(s@.skip(i + m), pat@)
                    =~= spec_replace_with_nul(s@, pat@));
            }
            i += m;
        } else {
            out.push(s[i]);
            proof {
                assert(out@ + spec_replace_with_nul(s@.skip(i + 1), pat@)
                    =~= spec_replace_with_nul(s@, pat@));
            }
            i += 1;
        }
    }
    proof {
        assert(s@.skip(n as int).len() == 0);
        assert(out@ =~= spec_replace_with_nul(s@, pat@));
    }
    out
}

/// Strips leading and trailing copies of `v`, matching `spec_trim_byte`.
pub fn trim_byte(s: &Vec<u8>, v: u8) -> (r: Vec<u8>)
    ensures
        r@ == spec_trim_byte(s@, v),
{
    let n = s.len();
    let mut lo: usize = 0;
    proof {
        assert(s@.skip(0) =~= s@);
    }
    while lo < n && s[lo] == v
        invariant
            n == s@.len(),
            lo <= n,
            count_leading(s@, v) == lo + count_leading(s@.skip(lo as int), v),
        decreases n - lo,
    {
        proof {
            assert(s@.skip(lo as int)[0] == s@[lo as int]);
            assert(s@.skip(lo as int).skip(1) =~= s@.skip(lo + 1));
        }
        lo += 1;
    }
    proof {
        if lo < n {
            assert(s@.skip(lo as int)[0] == s@[lo as int]);
        }
        assert(count_leading(s@, v) == lo);
    }
    let rest_len = n - lo;
    let ghost rest = s@.skip(lo as int);
    proof {
        assert(rest.take(rest_len as int) =~= rest);
    }
    let mut hi: usize = rest_len;
    while hi > 0 && s[lo + hi - 1] == v
        invariant
            n == s@.len(),
            lo + rest_len == n,
            rest == s@.skip(lo as int),
            hi <= rest_len,
            count_trailing(rest, v) == (rest_len - hi) + count_trailing(rest.take(hi as int), v),
        decreases hi,
    {
        proof {
            assert(rest.take(hi as int).last() == s@[lo + hi - 1]);
            assert(rest.take(hi as int).drop_last() =~= rest.take(hi as int - 1));
        }
        hi -= 1;
    }
    proof {
        if hi > 0 {
            assert(rest.take(hi as int).last() == s@[lo + hi - 1]);
        }
        assert(rest.take(rest_len as int) =~= rest);
        assert(count_trailing(rest, v) == rest_len - hi);
    }
    let r = crate::bytes::copy_range(s, lo, lo + hi);
    proof {
        assert(r@ =~= spec_trim_byte(s@, v));
    }
    r
}

/// Strips leading and trailing ASCII whitespace, matching `spec_trim_ws`.
pub fn trim_ws(s: &Vec<u8>) -> (r: Vec<u8>)
    ensures
        r@ == spec_trim_ws(s@),
{
    let n = s.len();
    let mut lo: usize = 0;
    proof {
        assert(s@.skip(0) =~= s@);
    }
    while lo < n && ws_byte(s[lo])
        invariant
            n == s@.len(),
            lo <= n,
            count_leading_ws(s@) == lo + count_leading_ws(s@.skip(lo as int)),
        decreases n - lo,
    {
        proof {
            assert(s@.skip(lo as int)[0] == s@[lo as int]);
            assert(s@.skip(lo as int).skip(1) =~= s@.skip(lo + 1));
        }
        lo += 1;
    }
    proof {
        if lo < n {
            assert(s@.skip(lo as int)[0] == s@[lo as int]);
        }
        assert(count_leading_ws(s@) == lo);
    }
    let rest_len = n - lo;
    let ghost rest = s@.skip(lo as int);
    proof {
        assert(rest.take(rest_len as int) =~= rest);
    }
    let mut hi: usize = rest_len;
    while hi > 0 && ws_byte(s[lo + hi - 1])
        invariant
            n == s@.len(),
            lo + rest_len == n,
            rest == s@.skip(lo as int),
            hi <= rest_len,
            count_trailing_ws(rest) == (rest_len - hi) + count_trailing_ws(rest.take(hi as int)),
        decreases hi,
    {
        proof {
            assert(rest.take(hi as int).last() == s@[lo + hi - 1]);
            assert(rest.take(hi as int).drop_last() =~= rest.take(hi as int - 1));
        }
        hi -= 1;
    }
    proof {
        if hi > 0 {
            assert(rest.take(hi as int).last() == s@[lo + hi - 1]);
        }
        assert(rest.take(rest_len as int) =~= rest);
        assert(count_trailing_ws(rest) == rest_len - hi);
    }
    let r = crate::bytes::copy_range(s, lo, lo + hi);
    proof {
        assert(r@ =~= spec_trim_ws(s@));
    }
    r
}

/// Is this byte ASCII whitespace, matching `is_ws`.
fn ws_byte(b: u8) -> (r: bool)
    ensures
        r == is_ws(b),
{
    b == 9 || b == 10 || b == 11 || b == 12 || b == 13 || b == 32
}

/// Drops every byte equal to `a` or `b`, matching `spec_remove_bytes`.
pub fn remove_bytes(s: &Vec<u8>, a: u8, b: u8) -> (r: Vec<u8>)
    ensures
        r@ == spec_remove_bytes(s@, a, b),
{
    let n = s.len();
    let mut out: Vec<u8> = Vec::new();
    let mut i: usize = 0;
    proof {
        reveal(Seq::filter);
        assert(s@.take(0).len() == 0);
    }
    while i < n
        invariant
            n == s@.len(),
            i <= n,
            out@ == s@.take(i as int).filter(spec_keep(a, b)),
        decreases n - i,
    {
        let c = s[i];
        proof {
            reveal(Seq::filter);
            assert(s@.take(i + 1).drop_last() =~= s@.take(i as int));
            assert(s@.take(i + 1).last() == s@[i as int]);
        }
        if c != a && c != b {
            out.push(c);
        }
        i += 1;
    }
    proof {
        assert(s@.take(n as int) =~= s@);
    }
    out
}

/// The bytes of the replacement character, as a vector.
pub fn fffd_bytes() -> (r: Vec<u8>)
    ensures
        r@ == spec_fffd(),
{
    let mut v: Vec<u8> = Vec::new();
    v.push(239u8);
    v.push(191u8);
    v.push(189u8);
    proof {
        assert(v@ =~= spec_fffd());
    }
    v
}

/// The bytes of the numeric entity, as a vector.
pub fn entity_bytes() -> (r: Vec<u8>)
    ensures
        r@ == spec_entity(),
{
    let mut v: Vec<u8> = Vec::new();
    v.push(38u8);
    v.push(35u8);
    v.push(54u8);
    v.push(53u8);
    v.push(53u8);
    v.push(51u8);
    v.push(51u8);
    v.push(59u8);
    proof {
        assert(v@ =~= spec_entity());
    }
    v
}

/// Mangling as a browser applies it: every NUL byte becomes the
/// replacement character.
pub open spec fn spec_mangle_nuls(s: Seq<u8>) -> Seq<u8>
    decreases s.len(),
{
    if s.len() == 0 {
        Seq::empty()
    } else if s[0] == 0u8 {
        spec_fffd() + spec_mangle_nuls(s.skip(1))
    } else {
        seq![s[0]] + spec_mangle_nuls(s.skip(1))
    }
}

/// The mangling-resilience law: replacing every NUL of an ASCII byte
/// string with the replacement character and then restoring NULs gives the
/// string back unchanged.
pub proof fn lemma_restore_inverts_mangling(s: Seq<u8>)
    requires
        forall|i: int| 0 <= i < s.len() ==> #[trigger] s[i] < 128,
    ensures
        spec_replace_with_nul(spec_mangle_nuls(s), spec_fffd()) == s,
    decreases s.len(),
{
    if s.len() == 0 {
    } else {
        assert(s.skip(1).len() == s.len() - 1);
        assert(forall|i: int| 0 <= i < s.skip(1).len() ==> #[trigger] s.skip(1)[i] < 128);
        lemma_restore_inverts_mangling(s.skip(1));
        let m = spec_mangle_nuls(s);
        if s[0] == 0u8 {
            assert(m == spec_fffd() + spec_mangle_nuls(s.skip(1)));
            assert(m.take(3) =~= spec_fffd());
            assert(m.skip(3) =~= spec_mangle_nuls(s.skip(1)));
            assert(spec_replace_with_nul(m, spec_fffd()) =~= s);
        } else {
            assert(m == seq![s[0]] + spec_mangle_nuls(s.skip(1)));
            assert(m[0] == s[0]);
            if 0 < spec_fffd().len() <= m.len() && m.take(3) == spec_fffd() {
                assert(m.take(3)[0] == m[0]);
                assert(false);
            }
            assert(m.skip(1) =~= spec_mangle_nuls(s.skip(1)));
            assert(spec_replace_with_nul(m, spec_fffd()) =~= s);
        }
    }
}

} // verus!
