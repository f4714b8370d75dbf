//! Zero-padded ASCII numerals in a fixed width, as the tar header fields use
//! them: octal for every numeric field, decimal for the pax payload size
//! prefix. Formatting and parsing are verified inverses of each other.

use vstd::prelude::*;

verus! {

/// `base` raised to `w`.
pub open spec fn pow_of(base: nat, w: nat) -> nat
    decreases w,
{
    if w == 0 {
        1
    } else {
        base * pow_of(base, (w - 1) as nat)
    }
}

/// The ASCII digit for a value below ten.
pub open spec fn digit_byte(d: nat) -> u8 {
    (48 + d) as u8
}

/// `n` written in `base`, zero padded to exactly `width` ASCII digits, most
/// significant digit first. Digits above the width are cut off.
pub open spec fn radix_rep(n: nat, width: nat, base: nat) -> Seq<u8>
    decreases width,
{
    if width == 0 {
        Seq::empty()
    } else {
        radix_rep(n / base, (width - 1) as nat, base).push(digit_byte(n % base))
    }
}

/// Is `b` an ASCII digit of the given base?
pub open spec fn is_digit_of(b: u8, base: nat) -> bool {
    48 <= b && (b as nat) < 48 + base
}

pub open spec fn all_digits_of(s: Seq<u8>, base: nat) -> bool {
    forall|i: int| 0 <= i < s.len() ==> is_digit_of(#[trigger] s[i], base)
}

/// The numeric value of a digit string, read most significant first.
pub open spec fn radix_val(s: Seq<u8>, base: nat) -> nat
    decreases s.len(),
{
    if s.len() == 0 {
        0
    } else {
        radix_val(s.drop_last(), base) * base + ((s.last() - 48) as nat)
    }
}

pub proof fn lemma_pow_positive(base: nat, w: nat)
    requires
        base >= 1,
    ensures
        pow_of(base, w) >= 1,
    decreases w,
{
    if w > 0 {
        lemma_pow_positive(base, (w - 1) as nat);
        let p = pow_of(base, (w - 1) as nat);
        assert(base * p >= 1) by (nonlinear_arith)
            requires
                base >= 1,
                p >= 1,
        ;
    }
}

pub proof fn lemma_pow_increases(base: nat, v: nat, w: nat)
    requires
        base >= 1,
        v <= w,
    ensures
        pow_of(base, v) <= pow_of(base, w),
    decreases w,
{
    if v < w {
        lemma_pow_increases(base, v, (w - 1) as nat);
        let p = pow_of(base, (w - 1) as nat);
        lemma_pow_positive(base, (w - 1) as nat);
        assert(base * p >= p) by (nonlinear_arith)
            requires
                base >= 1,
                p >= 1,
        ;
    }
}

pub proof fn lemma_radix_rep_len(n: nat, width: nat, base: nat)
    requires
        base >= 2,
    ensures
        radix_rep(n, width, base).len() == width,
    decreases width,
{
    if width > 0 {
        lemma_radix_rep_len(n / base, (width - 1) as nat, base);
    }
}

pub proof fn lemma_radix_rep_digits(n: nat, width: nat, base: nat)
    requires
        2 <= base <= 10,
    ensures
        all_digits_of(radix_rep(n, width, base), base),
    decreases width,
{
    if width > 0 {
        lemma_radix_rep_digits(n / base, (width - 1) as nat, base);
        lemma_radix_rep_len(n / base, (width - 1) as nat, base);
        let m = n % base;
        assert(m < base) by (nonlinear_arith)
            requires
                base >= 2,
                m == n % base,
        ;
        let inner = radix_rep(n / base, (width - 1) as nat, base);
        let whole = radix_rep(n, width, base);
        assert forall|i: int| 0 <= i < whole.len() implies is_digit_of(
            #[trigger] whole[i],
            base,
        ) by {
            if i < inner.len() {
                assert(whole[i] == inner[i]);
            } else {
                assert(whole[i] == digit_byte(m));
            }
        }
    }
}

/// Formatting then reading back yields the value modulo the width cut-off.
pub proof fn lemma_radix_round_trip(n: nat, width: nat, base: nat)
    requires
        2 <= base <= 10,
    ensures
        radix_val(radix_rep(n, width, base), base) == n % pow_of(base, width),
    decreases width,
{
    lemma_radix_rep_len(n, width, base);
    if width == 0 {
        assert(n % 1 == 0) by (nonlinear_arith);
    } else {
        let q = n / base;
        let r = n % base;
        let p = pow_of(base, (width - 1) as nat);
        lemma_radix_round_trip(q, (width - 1) as nat, base);
        lemma_pow_positive(base, (width - 1) as nat);
        let rep = radix_rep(n, width, base);
        lemma_radix_rep_len(q, (width - 1) as nat, base);
        assert(rep.drop_last() =~= radix_rep(q, (width - 1) as nat, base));
        assert(rep.last() == digit_byte(r));
        assert(r < base) by (nonlinear_arith)
            requires
                base >= 2,
                r == n % base,
        ;
        assert((digit_byte(r) - 48) as nat == r);
        assert(radix_val(rep, base) == (q % p) * base + r);
        assert((q % p) * base + r == n % (base * p)) by {
            let b = base as int;
            let pi = p as int;
            let ni = n as int;
            let qi = q as int;
            let ri = r as int;
            let qm = qi % pi;
            let qd = qi / pi;
            vstd::arithmetic::div_mod::lemma_fundamental_div_mod(qi, pi);
            vstd::arithmetic::div_mod::lemma_mod_division_less_than_divisor(qi, pi);
            vstd::arithmetic::div_mod::lemma_fundamental_div_mod(ni, b);
            assert(ni == b * qi + ri);
            assert(b * (pi * qd + qm) == (b * pi) * qd + b * qm) by (nonlinear_arith);
            assert(b * qm + ri < b * pi) by (nonlinear_arith)
                requires
                    0 <= qm < pi,
                    0 <= ri < b,
                    b >= 2,
                    pi >= 1,
            ;
            assert(ni == qd * (b * pi) + (b * qm + ri)) by (nonlinear_arith)
                requires
                    ni == b * qi + ri,
                    qi == pi * qd + qm,
            ;
            vstd::arithmetic::div_mod::lemma_fundamental_div_mod_converse(
                ni,
                b * pi,
                qd,
                b * qm + ri,
            );
            assert(qm * b == b * qm) by (nonlinear_arith);
        }
        assert(pow_of(base, width) == base * p);
    }
}

/// A value below `base^width` is recovered exactly.
pub proof fn lemma_radix_round_trip_exact(n: nat, width: nat, base: nat)
    requires
        2 <= base <= 10,
        n < pow_of(base, width),
    ensures
        radix_val(radix_rep(n, width, base), base) == n,
{
    lemma_radix_round_trip(n, width, base);
    let p = pow_of(base, width);
    lemma_pow_positive(base, width);
    assert(n % p == n) by (nonlinear_arith)
        requires
            0 <= n < p,
    ;
}

/// One more digit in front: the representation grows at the significant end.
proof fn lemma_radix_rep_grow(n: nat, width: nat, base: nat)
    requires
        base >= 2,
    ensures
        radix_rep(n, width + 1, base) == seq![
            digit_byte((n / pow_of(base, width)) % base),
        ] + radix_rep(n, width, base),
    decreases width,
{
    lemma_radix_rep_len(n, width, base);
    if width == 0 {
        assert(pow_of(base, 0) == 1);
        assert(n / 1 == n) by (nonlinear_arith);
        assert(radix_rep(n, 1, base) == radix_rep(n / base, 0, base).push(digit_byte(n % base)));
        assert(radix_rep(n, 1, base) =~= seq![
            digit_byte((n / pow_of(base, 0)) % base),
        ] + radix_rep(n, 0, base));
    } else {
        let q = n / base;
        lemma_radix_rep_grow(q, (width - 1) as nat, base);
        let p = pow_of(base, (width - 1) as nat);
        lemma_pow_positive(base, (width - 1) as nat);
        assert((n / base) / p == n / (base * p)) by (nonlinear_arith)
            requires
                base >= 2,
                p >= 1,
                n >= 0,
        ;
        assert(pow_of(base, width) == base * p);
        assert(radix_rep(n, width + 1, base) =~= seq![
            digit_byte((n / pow_of(base, width)) % base),
        ] + radix_rep(n, width, base));
    }
}

/// Writes `n` in `base`, zero padded to `width` digits.
///
/// The width must be able to hold the value, so no digit is cut off.
#[verifier::rlimit(30)]
pub fn format_radix(n: u64, width: usize, base: u64) -> (r: Vec<u8>)
    requires
        2 <= base <= 10,
        n < pow_of(base as nat, width as nat),
    ensures
        r@ == radix_rep(n as nat, width as nat, base as nat),
        r@.len() == width,
        all_digits_of(r@, base as nat),
        radix_val(r@, base as nat) == n,
{
    proof {
        lemma_radix_rep_len(n as nat, width as nat, base as nat);
        lemma_radix_rep_digits(n as nat, width as nat, base as nat);
        lemma_radix_round_trip_exact(n as nat, width as nat, base as nat);
    }
    let mut r: Vec<u8> = crate::bytes::zero_vec(width);
    let mut m: u64 = n;
    let mut k: usize = 0;
    proof {
        assert((n as nat) / pow_of(base as nat, 0) == n as nat) by (nonlinear_arith);
        assert(r@.skip(width as int) =~= radix_rep(n as nat, 0, base as nat));
    }
    while k < width
        invariant
            2 <= base <= 10,
            k <= width,
            r@.len() == width,
            m as nat == (n as nat) / pow_of(base as nat, k as nat),
            r@.skip((width - k) as int) =~= radix_rep(n as nat, k as nat, base as nat),
        decreases width - k,
    {
        let d: u8 = (m % base) as u8;
        r[width - 1 - k] = 48 + d;
        proof {
            let nb = base as nat;
            let nn = n as nat;
            let pk = pow_of(nb, k as nat);
            lemma_radix_rep_grow(nn, k as nat, nb);
            lemma_radix_rep_len(nn, (k + 1) as nat, nb);
            lemma_pow_positive(nb, k as nat);
            assert((m as nat) % nb < nb) by (nonlinear_arith)
                requires
                    nb >= 2,
            ;
            assert(digit_byte((nn / pk) % nb) == 48 + d);
            assert(r@.skip((width - k - 1) as int) =~= radix_rep(nn, (k + 1) as nat, nb));
            assert((m as nat) / nb == nn / pow_of(nb, (k + 1) as nat)) by {
                assert(pow_of(nb, (k + 1) as nat) == nb * pk);
                assert((nn / pk) / nb == nn / (nb * pk)) by (nonlinear_arith)
                    requires
                        nb >= 2,
                        pk >= 1,
                        nn >= 0,
                ;
            }
        }
        m = m / base;
        k += 1;
    }
    proof {
        assert(r@.skip(0) =~= r@);
    }
    r
}

/// The widest value `parse_radix` accepts; far above any tar field value.
pub open spec fn parse_limit() -> nat {
    0x1000_0000_0000_0000
}

/// Reads a digit string of the given base, most significant digit first.
///
/// Yields `None` exactly when the string is empty, holds a byte that is no
/// digit of the base, or encodes a value at or above `parse_limit`.
#[verifier::rlimit(30)]
pub fn parse_radix(s: &Vec<u8>, base: u64) -> (r: Option<u64>)
    requires
        2 <= base <= 10,
    ensures
        match r {
            Some(v) => s@.len() > 0 && all_digits_of(s@, base as nat) && v as nat == radix_val(
                s@,
                base as nat,
            ) && (v as nat) < parse_limit(),
            None => s@.len() == 0 || !all_digits_of(s@, base as nat) || radix_val(
                s@,
                base as nat,
            ) >= parse_limit(),
        },
{
    if s.len() == 0 {
        return None;
    }
    let n = s.len();
    let mut acc: u64 = 0;
    let mut i: usize = 0;
    while i < n
        invariant
            2 <= base <= 10,
            n == s@.len(),
            i <= n,
            acc as nat == radix_val(s@.take(i as int), base as nat),
            acc < 0x1000_0000_0000_0000u64,
            all_digits_of(s@.take(i as int), base as nat),
        decreases n - i,
    {
        let b = s[i];
        if b < 48 || (b as u64) >= 48 + base {
            proof {
                assert(!is_digit_of(s@[i as int], base as nat));
            }
            return None;
        }
        let d: u64 = (b - 48) as u64;
        proof {
            assert(acc * base + d < 0xA000_0000_0000_0010) by (nonlinear_arith)
                requires
                    0 <= acc < 0x1000_0000_0000_0000u64,
                    0 <= base <= 10,
                    0 <= d < 10,
            ;
        }
        let next: u64 = acc * base + d;
        proof {
            assert(s@.take(i + 1).drop_last() =~= s@.take(i as int));
            assert(s@.take(i + 1).last() == b);
            assert(forall|j: int|
                0 <= j < i + 1 ==> s@.take(i + 1)[j] == #[trigger] s@.take(i as int)[j] || j == i);
        }
        if next >= 0x1000_0000_0000_0000u64 {
            proof {
                lemma_radix_val_prefix(s@, i + 1, base as nat);
            }
            return None;
        }
        acc = next;
        i += 1;
    }
    proof {
        assert(s@.take(n as int) =~= s@);
    }
    Some(acc)
}

/// A digit string's value never falls below the value of any of its
/// prefixes.
proof fn lemma_radix_val_prefix(s: Seq<u8>, i: int, base: nat)
    requires
        base >= 2,
        0 <= i <= s.len(),
    ensures
        radix_val(s, base) >= radix_val(s.take(i), base),
    decreases s.len() - i,
{
    if i == s.len() {
        assert(s.take(i) =~= s);
    } else {
        assert(s.take(i + 1).drop_last() =~= s.take(i));
        let lo = radix_val(s.take(i), base);
        assert(radix_val(s.take(i + 1), base) == lo * base + ((s.take(i + 1).last() - 48) as nat));
        assert(lo * base >= lo) by (nonlinear_arith)
            requires
                base >= 2,
                lo >= 0,
        ;
        lemma_radix_val_prefix(s, i + 1, base);
    }
}

} // verus!
