use vstd::prelude::*;
use vstd::string::StringSliceAdditionalSpecFns;

verus! {

/// An ASCII decimal digit.
pub open spec fn is_digit(b: u8) -> bool {
    48 <= b <= 57
}

/// Every byte is a decimal digit.
pub open spec fn all_digits(s: Seq<u8>) -> bool {
    forall|i: int| 0 <= i < s.len() ==> is_digit(#[trigger] s[i])
}

/// Value of a run of decimal digits.
pub open spec fn digits_value(s: Seq<u8>) -> int
    decreases s.len(),
{
    if s.len() == 0 {
        0
    } else {
        digits_value(s.drop_last()) * 10 + (s.last() - 48)
    }
}

/// Ten to the power `k`.
pub open spec fn pow10(k: nat) -> int
    decreases k,
{
    if k == 0 {
        1
    } else {
        10 * pow10((k - 1) as nat)
    }
}

/// Index of the first `.` in `s`, or its length.
pub open spec fn dot_index(s: Seq<u8>) -> int {
    if exists|i: int| 0 <= i < s.len() && s[i] == 46u8 {
        choose|i: int| 0 <= i < s.len() && s[i] == 46u8 && forall|j: int| 0 <= j < i ==> s[j] != 46u8
    } else {
        s.len() as int
    }
}

/// Value in millionths of a decimal text `digits[.digits]`; fraction digits
/// beyond the sixth are dropped. Nothing for any other text, or a value
/// beyond `u64`.
pub open spec fn decimal_micros(s: Seq<u8>) -> Option<int> {
    let d = dot_index(s);
    let ip = s.take(d);
    let fp = if d < s.len() {
        s.skip(d + 1)
    } else {
        Seq::empty()
    };
    let f6 = if fp.len() <= 6 {
        fp
    } else {
        fp.take(6)
    };
    if ip.len() == 0 || !all_digits(ip) || !all_digits(fp) {
        None
    } else {
        let v = digits_value(ip) * 1_000_000 + digits_value(f6) * pow10((6 - f6.len()) as nat);
        if v > u64::MAX {
            None
        } else {
            Some(v)
        }
    }
}

/// Value of a text of decimal digits, when it fits `u64`.
pub open spec fn integer_value(s: Seq<u8>) -> Option<int> {
    if s.len() == 0 || !all_digits(s) || digits_value(s) > u64::MAX {
        None
    } else {
        Some(digits_value(s))
    }
}

proof fn lemma_digits_grow(s: Seq<u8>, k: int)
    requires
        0 <= k <= s.len(),
        all_digits(s),
    ensures
        digits_value(s.take(k)) <= digits_value(s),
        digits_value(s) >= 0,
    decreases s.len() - k,
{
    lemma_digits_nonneg(s);
    if k < s.len() {
        lemma_digits_grow(s, k + 1);
        assert(s.take(k + 1).drop_last() =~= s.take(k));
        lemma_digits_nonneg(s.take(k));
    } else {
        assert(s.take(k) =~= s);
    }
}

proof fn lemma_digits_nonneg(s: Seq<u8>)
    requires
        all_digits(s),
    ensures
        digits_value(s) >= 0,
    decreases s.len(),
{
    if s.len() > 0 {
        lemma_digits_nonneg(s.drop_last());
    }
}

proof fn lemma_pow10_pos(k: nat)
    ensures
        pow10(k) >= 1,
    decreases k,
{
    if k > 0 {
        lemma_pow10_pos((k - 1) as nat);
    }
}

/// Reads `s[lo..hi]` as decimal digits, when they all are and their value fits `u64`.
fn read_digits(s: &[u8], lo: usize, hi: usize) -> (r: Option<u64>)
    requires
        lo <= hi <= s@.len(),
    ensures
        all_digits(s@.subrange(lo as int, hi as int)) && digits_value(
            s@.subrange(lo as int, hi as int),
        ) <= u64::MAX ==> r == Some(digits_value(s@.subrange(lo as int, hi as int)) as u64),
        !(all_digits(s@.subrange(lo as int, hi as int)) && digits_value(
            s@.subrange(lo as int, hi as int),
        ) <= u64::MAX) ==> r is None,
{
    let mut v: u64 = 0;
    let mut i: usize = lo;
    while i < hi
        invariant
            lo <= i <= hi <= s@.len(),
            all_digits(s@.subrange(lo as int, i as int)),
            v == digits_value(s@.subrange(lo as int, i as int)),
        decreases hi - i,
    {
        let b = s[i];
        let ghost prefix = s@.subrange(lo as int, i as int);
        let ghost next = s@.subrange(lo as int, i + 1);
        proof {
            assert(next.drop_last() =~= prefix);
        }
        if b < 48 || b > 57 {
            proof {
                assert(!all_digits(s@.subrange(lo as int, hi as int))) by {
                    assert(s@.subrange(lo as int, hi as int)[i - lo] == b);
                }
            }
            return None;
        }
        if v > (u64::MAX - 9) / 10 {
            proof {
                if all_digits(s@.subrange(lo as int, hi as int)) {
                    assert(next =~= s@.subrange(lo as int, hi as int).take(i + 1 - lo));
                    lemma_digits_grow(s@.subrange(lo as int, hi as int), i + 1 - lo);
                    lemma_digits_nonneg(prefix);
                }
            }
            if v > u64::MAX / 10 || v * 10 > u64::MAX - (b - 48) as u64 {
                proof {
                    if all_digits(s@.subrange(lo as int, hi as int)) {
                        assert(digits_value(next) > u64::MAX);
                    }
                }
                return None;
            }
        }
        v = v * 10 + (b - 48) as u64;
        proof {
            assert forall|j: int| 0 <= j < next.len() implies is_digit(#[trigger] next[j]) by {
                if j < prefix.len() {
                    assert(next[j] == prefix[j]);
                }
            }
        }
        i = i + 1;
    }
    Some(v)
}

/// Whether `s[lo..hi]` holds only decimal digits.
fn digits_only(s: &[u8], lo: usize, hi: usize) -> (r: bool)
    requires
        lo <= hi <= s@.len(),
    ensures
        r == all_digits(s@.subrange(lo as int, hi as int)),
{
    let mut i: usize = lo;
    while i < hi
        invariant
            lo <= i <= hi <= s@.len(),
            all_digits(s@.subrange(lo as int, i as int)),
        decreases hi - i,
    {
        if s[i] < 48 || s[i] > 57 {
            proof {
                assert(s@.subrange(lo as int, hi as int)[i - lo] == s@[i as int]);
            }
            return false;
        }
        proof {
            assert forall|j: int| 0 <= j < i + 1 - lo implies is_digit(
                #[trigger] s@.subrange(lo as int, i + 1)[j],
            ) by {
                if j < i - lo {
                    assert(s@.subrange(lo as int, i + 1)[j] == s@.subrange(lo as int, i as int)[j]);
                }
            }
        }
        i = i + 1;
    }
    proof {
        assert forall|j: int| 0 <= j < hi - lo implies is_digit(#[trigger] s@.subrange(lo as int, hi as int)[j]) by {
            assert(s@.subrange(lo as int, hi as int)[j] == s@.subrange(lo as int, i as int)[j]);
        }
    }
    true
}

/// Reads a text of decimal digits as an integer.
pub fn parse_integer(text: &str) -> (r: Option<u64>)
    ensures
        match integer_value(text.spec_bytes()) {
            Some(v) => r matches Some(x) && x == v,
            None => r is None,
        },
{
    let b = text.as_bytes();
    if b.len() == 0 {
        return None;
    }
    proof {
        assert(b@.subrange(0, b@.len() as int) =~= b@);
        if all_digits(b@) {
            lemma_digits_nonneg(b@);
        }
    }
    read_digits(b, 0, b.len())
}

/// Reads a decimal text `digits[.digits]` as millionths.
pub fn parse_decimal_micros(text: &str) -> (r: Option<u64>)
    ensures
        match decimal_micros(text.spec_bytes()) {
            Some(v) => r matches Some(x) && x == v,
            None => r is None,
        },
{
    let b = text.as_bytes();
    let ghost s = b@;
    let n = b.len();
    let mut d: usize = 0;
    while d < n && b[d] != 46u8
        invariant
            0 <= d <= n,
            n == s.len(),
            b@ == s,
            forall|j: int| 0 <= j < d ==> s[j] != 46u8,
        decreases n - d,
    {
        d = d + 1;
    }
    proof {
        if d < n {
            assert(exists|i: int| 0 <= i < s.len() && s[i] == 46u8);
            let c = choose|i: int|
                0 <= i < s.len() && s[i] == 46u8 && forall|j: int| 0 <= j < i ==> s[j] != 46u8;
            assert(s[d as int] == 46u8);
            if c > d {
                assert(s[d as int] != 46u8);
            }
            assert(c == d);
        } else {
            assert(!exists|i: int| 0 <= i < s.len() && s[i] == 46u8);
        }
        assert(dot_index(s) == d);
    }
    let ghost ip = s.take(d as int);
    let ghost fp = if d < n {
        s.skip(d + 1)
    } else {
        Seq::<u8>::empty()
    };
    let ghost f6 = if fp.len() <= 6 {
        fp
    } else {
        fp.take(6)
    };
    proof {
        assert(ip =~= s.subrange(0, d as int));
    }
    if d == 0 {
        return None;
    }
    let frac_lo: usize = if d < n {
        d + 1
    } else {
        n
    };
    proof {
        assert(fp =~= s.subrange(frac_lo as int, n as int));
    }
    if !digits_only(b, 0, d) || !digits_only(b, frac_lo, n) {
        return None;
    }
    let frac_hi: usize = if n - frac_lo <= 6 {
        n
    } else {
        frac_lo + 6
    };
    proof {
        assert(f6 =~= s.subrange(frac_lo as int, frac_hi as int));
        assert forall|j: int| 0 <= j < f6.len() implies is_digit(#[trigger] f6[j]) by {
            assert(f6[j] == fp[j]);
        }
        lemma_digits_nonneg(f6);
        lemma_digits_nonneg(ip);
    }
    let frac = match read_digits(b, frac_lo, frac_hi) {
        Some(v) => v,
        None => {
            proof {
                lemma_digits_bound(f6);
                assert(pow10(f6.len()) <= 1_000_000) by {
                    lemma_pow10_le(f6.len(), 6);
                }
            }
            return None;
        },
    };
    let mut scale: u64 = 1;
    let mut k: usize = frac_hi - frac_lo;
    while k < 6
        invariant
            frac_lo <= frac_hi,
            frac_hi - frac_lo <= k <= 6,
            scale == pow10((k - (frac_hi - frac_lo)) as nat),
        decreases 6 - k,
    {
        proof {
            lemma_pow10_le((k - (frac_hi - frac_lo)) as nat, 6);
        }
        scale = scale * 10;
        k = k + 1;
    }
    proof {
        lemma_digits_bound(f6);
        lemma_pow10_le(f6.len(), 6);
        lemma_pow10_pos((6 - f6.len()) as nat);
        assert(pow10((6 - f6.len()) as nat) <= 1_000_000) by {
            lemma_pow10_le((6 - f6.len()) as nat, 6);
        }
        crate::arith::lemma_mul_bounded(frac as int, scale as int, 1_000_000, 1_000_000);
    }
    let int_part = match read_digits(b, 0, d) {
        Some(v) => v,
        None => {
            proof {
                assert(digits_value(f6) * pow10((6 - f6.len()) as nat) >= 0) by (nonlinear_arith)
                    requires
                        digits_value(f6) >= 0,
                        pow10((6 - f6.len()) as nat) >= 1,
                ;
            }
            return None;
        },
    };
    let v: u128 = (int_part as u128) * 1_000_000 + (frac as u128) * (scale as u128);
    if v > u64::MAX as u128 {
        return None;
    }
    Some(v as u64)
}

/// `10^k` grows with `k`.
proof fn lemma_pow10_le(k: nat, m: nat)
    requires
        k <= m,
    ensures
        1 <= pow10(k) <= pow10(m),
        m == 6 ==> pow10(m) == 1_000_000,
    decreases m,
{
    lemma_pow10_pos(k);
    if k < m {
        lemma_pow10_le(k, (m - 1) as nat);
        lemma_pow10_pos((m - 1) as nat);
    }
    if m == 6 {
        reveal_with_fuel(pow10, 7);
        assert(pow10(6) == 1_000_000);
    }
}

/// A run of `k` digits is below `10^k`.
proof fn lemma_digits_bound(s: Seq<u8>)
    requires
        all_digits(s),
    ensures
        0 <= digits_value(s) < pow10(s.len()),
    decreases s.len(),
{
    if s.len() > 0 {
        let t = s.drop_last();
        assert forall|i: int| 0 <= i < t.len() implies is_digit(#[trigger] t[i]) by {
            assert(t[i] == s[i]);
        }
        lemma_digits_bound(t);
        assert(is_digit(s[s.len() - 1]));
    }
}

} // verus!
