use vstd::prelude::*;
use vstd::string::StringSliceAdditionalSpecFns;
use vstd::utf8::encode_utf8;

verus! {

/// Number of decimal places kept by a fixed-point price or quantity.
pub const SCALE_DIGITS: usize = 8;

/// Whether `b` is an ASCII decimal digit.
pub open spec fn is_digit(b: u8) -> bool {
    48 <= b <= 57
}

/// Whether every byte of `s` is an ASCII decimal digit.
pub open spec fn all_digits(s: Seq<u8>) -> bool {
    forall|i: int| 0 <= i < s.len() ==> is_digit(#[trigger] s[i])
}

/// The number written by the digit string `s` in base ten (0 for the empty string).
pub open spec fn digits_value(s: Seq<u8>) -> nat
    decreases s.len(),
{
    if s.len() == 0 {
        0
    } else {
        digits_value(s.drop_last()) * 10 + (s.last() - 48) as nat
    }
}

/// Ten to the power `n`.
pub open spec fn pow10(n: nat) -> nat
    decreases n,
{
    if n == 0 {
        1
    } else {
        10 * pow10((n - 1) as nat)
    }
}

/// `s` is `int '.' frac` with the dot at `k`, both parts non-empty digit strings,
/// and `frac` no longer than `SCALE_DIGITS`.
pub open spec fn dotted_at(s: Seq<u8>, k: int) -> bool {
    &&& 0 < k < s.len() - 1
    &&& s[k] == 46
    &&& all_digits(s.take(k))
    &&& all_digits(s.skip(k + 1))
    &&& s.len() - k - 1 <= SCALE_DIGITS
}

/// The value, in units of 10^-SCALE_DIGITS, of a plain decimal numeral:
/// either a non-empty digit string or a dotted one (see `dotted_at`).
/// Anything else (signs, exponents, blanks, too many decimals) has no value.
pub open spec fn decimal_value(s: Seq<u8>) -> Option<nat> {
    if s.len() > 0 && all_digits(s) {
        Some(digits_value(s) * pow10(SCALE_DIGITS as nat))
    } else if exists|k: int| dotted_at(s, k) {
        let k = choose|k: int| dotted_at(s, k);
        Some(
            digits_value(s.take(k) + s.skip(k + 1)) * pow10(
                (SCALE_DIGITS - (s.len() - k - 1)) as nat,
            ),
        )
    } else {
        None
    }
}

/// The fixed-point value of `s` where it has one that fits in a `u64`.
pub open spec fn fixed_value(s: Seq<u8>) -> Option<u64> {
    match decimal_value(s) {
        Some(v) => if v <= u64::MAX {
            Some(v as u64)
        } else {
            None
        },
        None => None,
    }
}

proof fn lemma_pow10_pos(n: nat)
    ensures
        pow10(n) >= 1,
    decreases n,
{
    if n > 0 {
        lemma_pow10_pos((n - 1) as nat);
    }
}

proof fn lemma_pow10_mono(a: nat, b: nat)
    requires
        a <= b,
    ensures
        pow10(a) <= pow10(b),
    decreases b,
{
    if a < b {
        lemma_pow10_mono(a, (b - 1) as nat);
    }
}

/// A digit string's value never falls when more digits follow.
proof fn lemma_digits_prefix_le(s: Seq<u8>, j: int)
    requires
        0 <= j <= s.len(),
    ensures
        digits_value(s.take(j)) <= digits_value(s),
    decreases s.len(),
{
    if j < s.len() {
        lemma_digits_prefix_le(s.drop_last(), j);
        assert(s.drop_last().take(j) =~= s.take(j));
    } else {
        assert(s.take(j) =~= s);
    }
}

/// Appends the digits `b[start..end]` to the numeral `prefix`, whose value is `acc`.
fn accumulate(b: &[u8], start: usize, end: usize, acc: u64, Ghost(prefix): Ghost<Seq<u8>>) -> (r:
    Option<u64>)
    requires
        start <= end <= b@.len(),
        acc == digits_value(prefix),
    ensures
        match r {
            Some(v) => all_digits(b@.subrange(start as int, end as int)) && v == digits_value(
                prefix + b@.subrange(start as int, end as int),
            ),
            None => !all_digits(b@.subrange(start as int, end as int)) || digits_value(
                prefix + b@.subrange(start as int, end as int),
            ) > u64::MAX,
        },
{
    let mut i: usize = start;
    let mut acc: u64 = acc;
    while i < end
        invariant
            start <= i <= end <= b@.len(),
            all_digits(b@.subrange(start as int, i as int)),
            acc == digits_value(prefix + b@.subrange(start as int, i as int)),
        decreases end - i,
    {
        let c = b[i];
        let ghost cur = prefix + b@.subrange(start as int, i as int);
        let ghost next = prefix + b@.subrange(start as int, i + 1);
        assert(next.drop_last() =~= cur);
        if c < 48 || c > 57 {
            assert(b@.subrange(start as int, end as int)[i - start] == c);
            return None;
        }
        proof {
            assert forall|j: int| 0 <= j < b@.subrange(start as int, i + 1).len() implies is_digit(
                #[trigger] b@.subrange(start as int, i + 1)[j],
            ) by {
                if j < i - start {
                    assert(b@.subrange(start as int, i + 1)[j] == b@.subrange(
                        start as int,
                        i as int,
                    )[j]);
                }
            }
        }
        let d: u64 = (c - 48) as u64;
        match acc.checked_mul(10) {
            Some(m) => match m.checked_add(d) {
                Some(v) => {
                    acc = v;
                },
                None => {
                    proof {
                        lemma_overflow_tail(b@, prefix, start as int, i + 1, end as int);
                    }
                    return None;
                },
            },
            None => {
                proof {
                    lemma_overflow_tail(b@, prefix, start as int, i + 1, end as int);
                }
                return None;
            },
        }
        i = i + 1;
    }
    Some(acc)
}

/// Once the digits read so far exceed `u64::MAX`, so does the whole numeral (or it
/// is no numeral at all).
proof fn lemma_overflow_tail(b: Seq<u8>, prefix: Seq<u8>, start: int, i: int, end: int)
    requires
        0 <= start <= i <= end <= b.len(),
        digits_value(prefix + b.subrange(start, i)) > u64::MAX,
    ensures
        !all_digits(b.subrange(start, end)) || digits_value(prefix + b.subrange(start, end))
            > u64::MAX,
{
    let whole = prefix + b.subrange(start, end);
    lemma_digits_prefix_le(whole, prefix.len() + i - start);
    assert(whole.take(prefix.len() + i - start) =~= prefix + b.subrange(start, i));
}

/// Multiplies `v` by 10^e, or `None` where that exceeds `u64::MAX`.
fn scale_up(v: u64, e: usize) -> (r: Option<u64>)
    ensures
        r == (if v * pow10(e as nat) <= u64::MAX {
            Some((v * pow10(e as nat)) as u64)
        } else {
            None::<u64>
        }),
{
    let mut acc: u64 = v;
    let mut j: usize = 0;
    assert(pow10(0) == 1);
    while j < e
        invariant
            j <= e,
            acc == v * pow10(j as nat),
        decreases e - j,
    {
        match acc.checked_mul(10) {
            Some(m) => {
                proof {
                    assert(pow10((j + 1) as nat) == 10 * pow10(j as nat));
                    assert(v * (10 * pow10(j as nat)) == (v * pow10(j as nat)) * 10)
                        by (nonlinear_arith);
                }
                acc = m;
            },
            None => {
                proof {
                    lemma_pow10_mono((j + 1) as nat, e as nat);
                    assert(pow10((j + 1) as nat) == 10 * pow10(j as nat));
                    assert(v * (10 * pow10(j as nat)) == (v * pow10(j as nat)) * 10)
                        by (nonlinear_arith);
                    assert(v * pow10((j + 1) as nat) <= v * pow10(e as nat)) by (nonlinear_arith)
                        requires
                            pow10((j + 1) as nat) <= pow10(e as nat),
                    ;
                }
                return None;
            },
        }
        j = j + 1;
    }
    Some(acc)
}

/// The fixed-point value of the text `s`, read through its UTF-8 bytes.
pub open spec fn fixed_of_text(s: Seq<char>) -> Option<u64> {
    fixed_value(encode_utf8(s))
}

/// Reads a plain decimal numeral as a fixed-point value with `SCALE_DIGITS`
/// decimals: `None` where the text is no such numeral or its value does not fit.
pub fn parse_fixed(s: &str) -> (r: Option<u64>)
    ensures
        r == fixed_of_text(s@),
{
    let b = s.as_bytes();
    let n = b.len();
    let ghost sb = b@;
    let mut k: usize = 0;
    while k < n && b[k] != 46
        invariant
            k <= n == sb.len(),
            b@ == sb,
            forall|j: int| 0 <= j < k ==> sb[j] != 46,
        decreases n - k,
    {
        k = k + 1;
    }
    assert(sb.subrange(0, n as int) =~= sb);
    assert(Seq::<u8>::empty() + sb =~= sb);
    if k == n {
        proof {
            assert forall|k2: int| !dotted_at(sb, k2) by {
                if 0 <= k2 < sb.len() {
                    assert(sb[k2] != 46);
                }
            }
        }
        if n == 0 {
            return None;
        }
        match accumulate(b, 0, n, 0, Ghost(Seq::empty())) {
            Some(m) => {
                proof {
                    lemma_pow10_pos(SCALE_DIGITS as nat);
                }
                scale_up(m, SCALE_DIGITS)
            },
            None => {
                proof {
                    lemma_pow10_pos(SCALE_DIGITS as nat);
                    assert(digits_value(sb) * pow10(SCALE_DIGITS as nat) >= digits_value(sb))
                        by (nonlinear_arith)
                        requires
                            pow10(SCALE_DIGITS as nat) >= 1,
                    ;
                }
                None
            },
        }
    } else {
        let ghost int_part = sb.take(k as int);
        let ghost frac_part = sb.skip(k + 1);
        proof {
            assert(!is_digit(sb[k as int]));
            assert forall|k2: int| dotted_at(sb, k2) implies k2 == k by {
                if k2 < k {
                    assert(sb[k2] != 46);
                } else if k2 > k {
                    assert(sb.take(k2)[k as int] == 46);
                }
            }
        }
        let frac_len = n - k - 1;
        if k == 0 || frac_len == 0 || frac_len > SCALE_DIGITS {
            return None;
        }
        assert(sb.subrange(0, k as int) =~= int_part);
        assert(sb.subrange(k + 1, n as int) =~= frac_part);
        match accumulate(b, 0, k, 0, Ghost(Seq::empty())) {
            Some(ip) => {
                assert(Seq::<u8>::empty() + int_part =~= int_part);
                match accumulate(b, k + 1, n, ip, Ghost(int_part)) {
                    Some(m) => {
                        assert(dotted_at(sb, k as int));
                        scale_up(m, SCALE_DIGITS - frac_len)
                    },
                    None => {
                        proof {
                            lemma_pow10_pos((SCALE_DIGITS - frac_len) as nat);
                            let d = digits_value(int_part + frac_part);
                            assert(d * pow10((SCALE_DIGITS - frac_len) as nat) >= d)
                                by (nonlinear_arith)
                                requires
                                    pow10((SCALE_DIGITS - frac_len) as nat) >= 1,
                            ;
                        }
                        None
                    },
                }
            },
            None => {
                proof {
                    assert(Seq::<u8>::empty() + int_part =~= int_part);
                    if all_digits(int_part) && all_digits(frac_part) {
                        let whole = int_part + frac_part;
                        lemma_digits_prefix_le(whole, k as int);
                        assert(whole.take(k as int) =~= int_part);
                        lemma_pow10_pos((SCALE_DIGITS - frac_len) as nat);
                        let d = digits_value(whole);
                        assert(d * pow10((SCALE_DIGITS - frac_len) as nat) >= d)
                            by (nonlinear_arith)
                            requires
                                pow10((SCALE_DIGITS - frac_len) as nat) >= 1,
                        ;
                    }
                }
                None
            },
        }
    }
}

} // verus!
