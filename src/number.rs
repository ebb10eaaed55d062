use vstd::prelude::*;

verus! {

/// Digit values at or above this bound are held at it while reading.
pub const DIGITS_CAP: u128 = 100_000_000_000_000_000_000;

pub open spec fn is_digit(b: u8) -> bool {
    48 <= b <= 57
}

pub open spec fn all_digits(s: Seq<u8>) -> bool {
    forall|i: int| 0 <= i < s.len() ==> is_digit(#[trigger] s[i])
}

/// The number that the decimal digits `s` write.
pub open spec fn digits_value(s: Seq<u8>) -> int
    decreases s.len(),
{
    if s.len() == 0 { 0 } else { digits_value(s.drop_last()) * 10 + (s.last() - 48) }
}

pub open spec fn sign_len(t: Seq<u8>) -> int {
    if t.len() > 0 && (t[0] == 45 || t[0] == 43) { 1 } else { 0 }
}

pub open spec fn is_negative(t: Seq<u8>) -> bool {
    t.len() > 0 && t[0] == 45
}

pub open spec fn signed(t: Seq<u8>, m: int) -> int {
    if is_negative(t) { -m } else { m }
}

/// An integer written as an optional sign and one or more decimal digits.
pub open spec fn integer_of(t: Seq<u8>) -> Option<int> {
    let d = t.subrange(sign_len(t), t.len() as int);
    if d.len() > 0 && all_digits(d) { Some(signed(t, digits_value(d))) } else { None }
}

/// Position of the first `.` in `b`, or its length where it has none.
pub open spec fn first_dot(b: Seq<u8>) -> int
    decreases b.len(),
{
    if b.len() == 0 { 0 } else if b[0] == 46 { 0 } else { 1 + first_dot(b.drop_first()) }
}

/// The first three digits of a fraction, padded with zeros.
pub open spec fn thousandths(f: Seq<u8>) -> int {
    digits_value((f + seq![48u8, 48u8, 48u8]).subrange(0, 3))
}

/// A decimal number in thousandths, digits past the third decimal dropped:
/// an optional sign, then digits with at most one `.` among them, and at
/// least one digit.
pub open spec fn decimal_of(t: Seq<u8>) -> Option<int> {
    let b = t.subrange(sign_len(t), t.len() as int);
    let d = first_dot(b);
    let ip = b.subrange(0, d);
    let fp = if d < b.len() { b.subrange(d + 1, b.len() as int) } else { Seq::empty() };
    if all_digits(ip) && all_digits(fp) && ip.len() + fp.len() > 0 {
        Some(signed(t, digits_value(ip) * 1000 + thousandths(fp)))
    } else {
        None
    }
}

pub open spec fn fits_i64(v: int) -> bool {
    i64::MIN <= v <= i64::MAX
}

pub open spec fn capped(v: int) -> int {
    if v < DIGITS_CAP { v } else { DIGITS_CAP as int }
}

pub proof fn lemma_digits_nonneg(s: Seq<u8>)
    requires
        all_digits(s),
    ensures
        digits_value(s) >= 0,
    decreases s.len(),
{
    if s.len() > 0 {
        lemma_digits_nonneg(s.drop_last());
    }
}

proof fn lemma_first_dot_bound(b: Seq<u8>)
    ensures
        0 <= first_dot(b) <= b.len(),
        first_dot(b) < b.len() ==> b[first_dot(b)] == 46,
    decreases b.len(),
{
    if b.len() > 0 && b[0] != 46 {
        lemma_first_dot_bound(b.drop_first());
    }
}

/// The digits `s[lo..hi]`, their value held at `DIGITS_CAP`; `None` where
/// one of them is not a digit.
pub fn read_digits(s: &[u8], lo: usize, hi: usize) -> (r: Option<u128>)
    requires
        lo <= hi <= s@.len(),
    ensures
        r is Some <==> all_digits(s@.subrange(lo as int, hi as int)),
        r matches Some(v) ==> v == capped(digits_value(s@.subrange(lo as int, hi as int))),
{
    let mut acc: u128 = 0;
    let mut i: usize = lo;
    while i < hi
        invariant
            lo <= i <= hi <= s@.len(),
            all_digits(s@.subrange(lo as int, i as int)),
            acc == capped(digits_value(s@.subrange(lo as int, i as int))),
        decreases hi - i,
    {
        let b = s[i];
        let ghost prev = s@.subrange(lo as int, i as int);
        let ghost next = s@.subrange(lo as int, i as int + 1);
        assert(next.drop_last() == prev);
        if b < 48 || b > 57 {
            assert(!is_digit(s@.subrange(lo as int, hi as int)[i - lo]));
            return None;
        }
        proof {
            lemma_digits_nonneg(prev);
        }
        let grown = acc * 10 + (b - 48) as u128;
        acc = if grown < DIGITS_CAP { grown } else { DIGITS_CAP };
        i = i + 1;
        assert(all_digits(s@.subrange(lo as int, i as int))) by {
            assert forall|k: int| 0 <= k < next.len() implies is_digit(#[trigger] next[k]) by {
                if k < prev.len() {
                    assert(next[k] == prev[k]);
                }
            }
        }
    }
    Some(acc)
}

/// The integer that `t` writes, where it fits in `i64`.
pub fn parse_integer(t: &[u8]) -> (r: Option<i64>)
    ensures
        r matches Some(v) ==> integer_of(t@) == Some(v as int),
        r is None <==> (integer_of(t@) is None || !fits_i64(integer_of(t@).unwrap())),
{
    let n = t.len();
    let sl: usize = if n > 0 && (t[0] == 45 || t[0] == 43) { 1 } else { 0 };
    let neg = n > 0 && t[0] == 45;
    if sl == n {
        return None;
    }
    match read_digits(t, sl, n) {
        None => None,
        Some(v) => {
            proof {
                lemma_digits_nonneg(t@.subrange(sl as int, n as int));
            }
            if neg {
                if v > 0x8000_0000_0000_0000 {
                    None
                } else if v == 0x8000_0000_0000_0000 {
                    Some(i64::MIN)
                } else {
                    Some(-(v as i64))
                }
            } else if v > 0x7fff_ffff_ffff_ffff {
                None
            } else {
                Some(v as i64)
            }
        },
    }
}

proof fn lemma_three_digits(q: Seq<u8>)
    requires
        q.len() == 3,
    ensures
        digits_value(q) == (q[0] - 48) * 100 + (q[1] - 48) * 10 + (q[2] - 48),
{
    let q2 = q.drop_last();
    let q1 = q2.drop_last();
    let q0 = q1.drop_last();
    assert(q0.len() == 0);
    assert(q1.drop_last() == q0 && q1.last() == q[0]);
    assert(q2.drop_last() == q1 && q2.last() == q[1]);
    assert(q.last() == q[2]);
    assert(digits_value(q0) == 0);
    assert(digits_value(q1) == q[0] - 48);
    assert(digits_value(q2) == (q[0] - 48) * 10 + (q[1] - 48));
}

/// The decimal number that `t` writes, in thousandths, where it fits in `i64`.
pub fn parse_fixed(t: &[u8]) -> (r: Option<i64>)
    ensures
        r matches Some(v) ==> decimal_of(t@) == Some(v as int),
        r is None <==> (decimal_of(t@) is None || !fits_i64(decimal_of(t@).unwrap())),
{
    let n = t.len();
    let sl: usize = if n > 0 && (t[0] == 45 || t[0] == 43) { 1 } else { 0 };
    let neg = n > 0 && t[0] == 45;
    let ghost b = t@.subrange(sl as int, n as int);
    let mut d: usize = sl;
    while d < n && t[d] != 46
        invariant
            sl <= d <= n == t@.len(),
            b == t@.subrange(sl as int, n as int),
            first_dot(b) == (d - sl) + first_dot(t@.subrange(d as int, n as int)),
        decreases n - d,
    {
        assert(t@.subrange(d as int, n as int).drop_first() == t@.subrange(d as int + 1, n as int));
        d = d + 1;
    }
    proof {
        lemma_first_dot_bound(b);
        assert(first_dot(b) == d - sl);
        assert(b.subrange(0, d - sl) == t@.subrange(sl as int, d as int));
        if d < n {
            assert(b.subrange(d - sl + 1, b.len() as int) == t@.subrange(d as int + 1, n as int));
        }
    }
    let fl: usize = if d < n { d + 1 } else { n };
    assert(d >= n ==> t@.subrange(fl as int, n as int) =~= Seq::<u8>::empty());
    let ip = read_digits(t, sl, d);
    let fp = read_digits(t, fl, n);
    if ip.is_none() || fp.is_none() || (d == sl && fl == n) {
        return None;
    }
    let iv = ip.unwrap();
    if iv >= DIGITS_CAP {
        proof {
            lemma_digits_nonneg(t@.subrange(fl as int, n as int));
        }
        let ghost fpart = t@.subrange(fl as int, n as int);
        let ghost q = (fpart + seq![48u8, 48u8, 48u8]).subrange(0, 3);
        proof {
            assert forall|k: int| 0 <= k < 3 implies is_digit(#[trigger] q[k]) by {
                if k < fpart.len() {
                    assert(q[k] == fpart[k]);
                }
            }
            lemma_digits_nonneg(q);
        }
        return None;
    }
    let f0: u8 = if fl < n { t[fl] } else { 48 };
    let f1: u8 = if n - fl > 1 { t[fl + 1] } else { 48 };
    let f2: u8 = if n - fl > 2 { t[fl + 2] } else { 48 };
    let ghost fpart = t@.subrange(fl as int, n as int);
    let ghost q = (fpart + seq![48u8, 48u8, 48u8]).subrange(0, 3);
    proof {
        assert(q[0] == f0 && q[1] == f1 && q[2] == f2);
        assert(is_digit(f0) && is_digit(f1) && is_digit(f2)) by {
            if fl < n {
                assert(fpart[0] == f0);
            }
            if n - fl > 1 {
                assert(fpart[1] == f1);
            }
            if n - fl > 2 {
                assert(fpart[2] == f2);
            }
        }
        lemma_three_digits(q);
    }
    let frac: u128 = (f0 - 48) as u128 * 100 + (f1 - 48) as u128 * 10 + (f2 - 48) as u128;
    let m: u128 = iv as u128 * 1000 + frac;
    if neg {
        if m > 0x8000_0000_0000_0000 {
            None
        } else if m == 0x8000_0000_0000_0000 {
            Some(i64::MIN)
        } else {
            Some(-(m as i64))
        }
    } else {
        if m > 0x7fff_ffff_ffff_ffff {
            None
        } else {
            Some(m as i64)
        }
    }
}

} // verus!
