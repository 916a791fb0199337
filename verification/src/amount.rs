//! Fixed-point decimal amounts.
//!
//! Protocol amounts are decimal strings parsed under a ticker's declared
//! precision (`decimals`, at most 18). A parsed amount is carried as an
//! unsigned 128-bit integer scaled by `10^decimals`; no floating point is
//! used anywhere, so validation arithmetic cannot drift between nodes.
//!
//! The accepted grammar is `digits ('.' digits)?`: at most one decimal
//! point, at least one digit on either side, no signs, no whitespace, no
//! exponent. A fractional part longer than `decimals` is a precision
//! error; a value that does not fit in 128 bits is malformed.

use vstd::arithmetic::mul::*;
use vstd::prelude::*;

verus! {

/// ASCII decimal digit.
pub open spec fn is_digit(b: u8) -> bool {
    48 <= b && b <= 57
}

/// Every byte of `s` is an ASCII digit.
pub open spec fn all_digits(s: Seq<u8>) -> bool {
    forall|i: int| 0 <= i < s.len() ==> is_digit(#[trigger] s[i])
}

/// The integer denoted by a digit string, most significant digit first.
pub open spec fn digits_val(s: Seq<u8>) -> int
    decreases s.len(),
{
    if s.len() == 0 {
        0
    } else {
        digits_val(s.drop_last()) * 10 + (s.last() - 48)
    }
}

/// `10^n`.
pub open spec fn pow10(n: nat) -> int
    decreases n,
{
    if n == 0 {
        1
    } else {
        10 * pow10((n - 1) as nat)
    }
}

pub proof fn lemma_pow10_pos(n: nat)
    ensures
        pow10(n) >= 1,
    decreases n,
{
    if n > 0 {
        lemma_pow10_pos((n - 1) as nat);
    }
}

pub proof fn lemma_pow10_mono(a: nat, b: nat)
    requires
        a <= b,
    ensures
        pow10(a) <= pow10(b),
    decreases b,
{
    if a < b {
        lemma_pow10_mono(a, (b - 1) as nat);
        lemma_pow10_pos((b - 1) as nat);
    }
}

pub proof fn lemma_pow10_add(a: nat, b: nat)
    ensures
        pow10(a + b) == pow10(a) * pow10(b),
    decreases a,
{
    if a == 0 {
    } else {
        lemma_pow10_add((a - 1) as nat, b);
        assert(pow10(a + b) == 10 * pow10((a - 1) as nat + b));
        assert(10 * (pow10((a - 1) as nat) * pow10(b)) == (10 * pow10((a - 1) as nat)) * pow10(b))
            by (nonlinear_arith);
    }
}

/// `10^18`, the largest scale the protocol admits.
pub proof fn lemma_pow10_18()
    ensures
        pow10(18) == 1000000000000000000int,
{
    reveal_with_fuel(pow10, 20);
}

pub proof fn lemma_digits_val_nonneg(s: Seq<u8>)
    requires
        all_digits(s),
    ensures
        digits_val(s) >= 0,
    decreases s.len(),
{
    if s.len() > 0 {
        assert(is_digit(s[s.len() - 1]));
        lemma_digits_val_nonneg(s.drop_last());
    }
}

pub proof fn lemma_digits_val_bound(s: Seq<u8>)
    requires
        all_digits(s),
    ensures
        digits_val(s) < pow10(s.len()),
    decreases s.len(),
{
    if s.len() == 0 {
    } else {
        assert(is_digit(s[s.len() - 1]));
        lemma_digits_val_bound(s.drop_last());
        lemma_digits_val_nonneg(s.drop_last());
        assert(digits_val(s.drop_last()) <= pow10((s.len() - 1) as nat) - 1);
        assert(digits_val(s.drop_last()) * 10 <= (pow10((s.len() - 1) as nat) - 1) * 10) by {
            lemma_mul_inequality(digits_val(s.drop_last()), pow10((s.len() - 1) as nat) - 1, 10);
        }
    }
}

/// A digit string is at least the value of any of its prefixes.
pub proof fn lemma_digits_val_extend(s: Seq<u8>, k: int)
    requires
        all_digits(s),
        0 <= k <= s.len(),
    ensures
        digits_val(s) >= digits_val(s.subrange(0, k)),
    decreases s.len(),
{
    if k == s.len() {
        assert(s.subrange(0, k) =~= s);
    } else {
        assert(is_digit(s[s.len() - 1]));
        assert(s.drop_last().subrange(0, k) =~= s.subrange(0, k));
        lemma_digits_val_extend(s.drop_last(), k);
        lemma_digits_val_nonneg(s.drop_last());
    }
}

/// `s` splits at `k` into an integer part, a decimal point and a
/// fractional part, each part non-empty and all digits.
pub open spec fn is_split_at(s: Seq<u8>, k: int) -> bool {
    &&& 1 <= k
    &&& k + 2 <= s.len()
    &&& s[k] == 46u8
    &&& all_digits(s.subrange(0, k))
    &&& all_digits(s.subrange(k + 1, s.len() as int))
}

pub open spec fn has_split(s: Seq<u8>) -> bool {
    exists|k: int| is_split_at(s, k)
}

/// A plain digit string with no decimal point.
pub open spec fn is_plain(s: Seq<u8>) -> bool {
    s.len() >= 1 && all_digits(s)
}

/// The shapes the protocol grammar accepts.
pub open spec fn valid_decimal(s: Seq<u8>) -> bool {
    is_plain(s) || has_split(s)
}

/// The position of the decimal point of a split string.
pub open spec fn split_of(s: Seq<u8>) -> int {
    choose|k: int| is_split_at(s, k)
}

/// The number of fractional digits.
pub open spec fn frac_len(s: Seq<u8>) -> int {
    if is_plain(s) {
        0
    } else {
        s.len() - split_of(s) - 1
    }
}

/// The amount denoted by `s`, scaled by `10^dec`; zero where the shape or
/// precision is not accepted (those cases are excluded before use).
pub open spec fn decimal_value(s: Seq<u8>, dec: int) -> int {
    if is_plain(s) {
        digits_val(s) * pow10(dec as nat)
    } else {
        let k = split_of(s);
        let f = s.len() - k - 1;
        if 0 <= dec && f <= dec {
            digits_val(s.subrange(0, k)) * pow10(dec as nat) + digits_val(
                s.subrange(k + 1, s.len() as int),
            ) * pow10((dec - f) as nat)
        } else {
            0
        }
    }
}

/// `s` parses under precision `dec`: accepted shape, fractional part no
/// longer than `dec`, value representable in 128 bits.
pub open spec fn amount_ok(s: Seq<u8>, dec: int) -> bool {
    &&& valid_decimal(s)
    &&& frac_len(s) <= dec
    &&& decimal_value(s, dec) <= u128::MAX
}

/// An accepted decimal string denotes a non-negative amount.
pub proof fn lemma_decimal_value_nonneg(s: Seq<u8>, dec: int)
    requires
        valid_decimal(s),
        0 <= dec,
    ensures
        decimal_value(s, dec) >= 0,
{
    if is_plain(s) {
        lemma_digits_val_nonneg(s);
        lemma_pow10_pos(dec as nat);
        lemma_mul_nonnegative(digits_val(s), pow10(dec as nat));
    } else {
        let k = split_of(s);
        assert(is_split_at(s, k));
        let f = s.len() - k - 1;
        if f <= dec {
            lemma_digits_val_nonneg(s.subrange(0, k));
            lemma_digits_val_nonneg(s.subrange(k + 1, s.len() as int));
            lemma_pow10_pos(dec as nat);
            lemma_pow10_pos((dec - f) as nat);
            lemma_mul_nonnegative(digits_val(s.subrange(0, k)), pow10(dec as nat));
            lemma_mul_nonnegative(
                digits_val(s.subrange(k + 1, s.len() as int)),
                pow10((dec - f) as nat),
            );
        }
    }
}

#[derive(Clone, Copy, PartialEq, Eq, Structural, Debug)]
pub enum AmountError {
    /// The string is not of the accepted shape, or its value does not fit.
    Malformed,
    /// More fractional digits than the ticker's declared precision.
    BadPrecision,
}

/// The error a rejected amount string reports.
pub open spec fn amount_err(s: Seq<u8>, dec: int) -> AmountError {
    if valid_decimal(s) && frac_len(s) > dec {
        AmountError::BadPrecision
    } else {
        AmountError::Malformed
    }
}

/// A decimal point anywhere pins the split position: a split elsewhere
/// would put this point inside an all-digit part.
proof fn lemma_split_at_dot(s: Seq<u8>, k: int, k2: int)
    requires
        0 <= k < s.len(),
        s[k] == 46u8,
        is_split_at(s, k2),
    ensures
        k2 == k,
{
    if k < k2 {
        assert(is_digit(s.subrange(0, k2)[k]));
    } else if k2 < k {
        assert(is_digit(s.subrange(k2 + 1, s.len() as int)[k - k2 - 1]));
    }
}

/// A byte that is neither a digit nor a decimal point rules the shape out.
proof fn lemma_bad_byte_not_valid(s: Seq<u8>, i: int)
    requires
        0 <= i < s.len(),
        s[i] != 46u8,
        !is_digit(s[i]),
    ensures
        !valid_decimal(s),
{
    if has_split(s) {
        let k2 = choose|k2: int| is_split_at(s, k2);
        if i < k2 {
            assert(is_digit(s.subrange(0, k2)[i]));
        } else if i == k2 {
        } else {
            assert(is_digit(s.subrange(k2 + 1, s.len() as int)[i - k2 - 1]));
        }
    }
}

/// `10^n` as a machine integer.
pub fn pow10_u128(n: u8) -> (r: u128)
    requires
        n <= 18,
    ensures
        r as int == pow10(n as nat),
{
    proof {
        lemma_pow10_18();
    }
    let mut acc: u128 = 1;
    let mut i: u8 = 0;
    while i < n
        invariant
            0 <= i <= n,
            n <= 18,
            acc as int == pow10(i as nat),
        decreases n - i,
    {
        proof {
            lemma_pow10_mono((i + 1) as nat, 18);
            lemma_pow10_pos(i as nat);
            lemma_pow10_18();
        }
        acc = acc * 10;
        i = i + 1;
    }
    acc
}

/// The value of the digit run `s[start..end]`, or `None` where it exceeds
/// `u128::MAX`.
fn digits_to_u128(s: &Vec<u8>, start: usize, end: usize) -> (r: Option<u128>)
    requires
        start <= end,
        end <= s@.len(),
        all_digits(s@.subrange(start as int, end as int)),
    ensures
        match r {
            Some(v) => v as int == digits_val(s@.subrange(start as int, end as int)),
            None => digits_val(s@.subrange(start as int, end as int)) > u128::MAX,
        },
{
    let ghost whole = s@.subrange(start as int, end as int);
    let mut acc: u128 = 0;
    let mut i: usize = start;
    while i < end
        invariant
            start <= i <= end,
            end <= s@.len(),
            all_digits(whole),
            whole == s@.subrange(start as int, end as int),
            acc as int == digits_val(s@.subrange(start as int, i as int)),
        decreases end - i,
    {
        let ghost prefix = s@.subrange(start as int, i as int);
        let ghost prefix1 = s@.subrange(start as int, i + 1 as int);
        proof {
            assert(prefix1.drop_last() =~= prefix);
            assert(prefix1.last() == s@[i as int]);
            assert(is_digit(whole[i - start]));
            assert(whole[i - start] == s@[i as int]);
            assert(all_digits(prefix1)) by {
                assert(forall|j: int|
                    0 <= j < prefix1.len() ==> #[trigger] prefix1[j] == whole[j]);
            }
        }
        let d = s[i] - 48;
        let m = match acc.checked_mul(10) {
            Some(m) => m,
            None => {
                proof {
                    lemma_digits_val_nonneg(prefix);
                    assert(digits_val(prefix1) > u128::MAX);
                    lemma_digits_val_extend(whole, i + 1 - start);
                    assert(whole.subrange(0, i + 1 - start) =~= prefix1);
                }
                return None;
            },
        };
        let a2 = match m.checked_add(d as u128) {
            Some(a2) => a2,
            None => {
                proof {
                    assert(digits_val(prefix1) > u128::MAX);
                    lemma_digits_val_extend(whole, i + 1 - start);
                    assert(whole.subrange(0, i + 1 - start) =~= prefix1);
                }
                return None;
            },
        };
        acc = a2;
        i = i + 1;
    }
    assert(s@.subrange(start as int, i as int) =~= whole);
    Some(acc)
}

/// Parses a protocol decimal string under `decimals` fractional digits,
/// returning the amount scaled by `10^decimals`.
///
/// The result is total: an accepted string yields exactly its scaled
/// value; a rejected one yields `BadPrecision` where only the fractional
/// length offends, `Malformed` otherwise (shape or 128-bit range).
pub fn parse_amount(s: &Vec<u8>, decimals: u8) -> (r: Result<u128, AmountError>)
    requires
        decimals <= 18,
    ensures
        amount_ok(s@, decimals as int) ==> r == Ok::<u128, AmountError>(
            decimal_value(s@, decimals as int) as u128,
        ),
        !amount_ok(s@, decimals as int) ==> r == Err::<u128, AmountError>(
            amount_err(s@, decimals as int),
        ),
{
    let n = s.len();
    let mut has_dot: bool = false;
    let mut dot: usize = 0;
    let mut i: usize = 0;
    while i < n
        invariant
            0 <= i <= n,
            n == s@.len(),
            decimals <= 18,
            !has_dot ==> all_digits(s@.subrange(0, i as int)),
            has_dot ==> dot < i && s@[dot as int] == 46u8 && all_digits(s@.subrange(0, dot as int))
                && all_digits(s@.subrange(dot + 1 as int, i as int)),
        decreases n - i,
    {
        let b = s[i];
        if b == 46 {
            if has_dot {
                proof {
                    assert(!is_plain(s@)) by {
                        assert(!is_digit(s@[dot as int]));
                    }
                    if has_split(s@) {
                        let k2 = choose|k2: int| is_split_at(s@, k2);
                        lemma_split_at_dot(s@, dot as int, k2);
                        lemma_split_at_dot(s@, i as int, k2);
                    }
                }
                return Err(AmountError::Malformed);
            }
            has_dot = true;
            dot = i;
        } else if b < 48 || b > 57 {
            proof {
                lemma_bad_byte_not_valid(s@, i as int);
            }
            return Err(AmountError::Malformed);
        } else {
            proof {
                if !has_dot {
                    assert(s@.subrange(0, i + 1 as int) =~= s@.subrange(0, i as int).push(
                        s@[i as int],
                    ));
                } else {
                    assert(s@.subrange(dot + 1 as int, i + 1 as int) =~= s@.subrange(
                        dot + 1 as int,
                        i as int,
                    ).push(s@[i as int]));
                }
            }
        }
        i = i + 1;
        proof {
            if has_dot && dot + 1 == i {
                assert(s@.subrange(dot + 1 as int, i as int) =~= Seq::<u8>::empty());
            }
        }
    }
    if !has_dot {
        // no decimal point: a plain digit run, possibly empty
        assert(s@.subrange(0, n as int) =~= s@);
        if n == 0 {
            proof {
                if has_split(s@) {
                    let k2 = choose|k2: int| is_split_at(s@, k2);
                }
            }
            return Err(AmountError::Malformed);
        }
        assert(is_plain(s@));
        let v = match digits_to_u128(s, 0, n) {
            Some(v) => v,
            None => {
                proof {
                    assert(s@.subrange(0, n as int) =~= s@);
                    lemma_pow10_pos(decimals as nat);
                    lemma_digits_val_nonneg(s@);
                    lemma_mul_inequality(1, pow10(decimals as nat), digits_val(s@));
                    assert(digits_val(s@) * 1 == digits_val(s@)) by (nonlinear_arith);
                    assert(digits_val(s@) * pow10(decimals as nat) == pow10(decimals as nat)
                        * digits_val(s@)) by (nonlinear_arith);
                }
                return Err(AmountError::Malformed);
            },
        };
        assert(s@.subrange(0, n as int) =~= s@);
        let scale = pow10_u128(decimals);
        match v.checked_mul(scale) {
            Some(total) => {
                return Ok(total);
            },
            None => {
                return Err(AmountError::Malformed);
            },
        }
    }
    // one decimal point, at `dot`; every other byte is a digit
    let ghost k = dot as int;
    proof {
        if has_split(s@) {
            lemma_split_at_dot(s@, k, choose|k2: int| is_split_at(s@, k2));
        }
        assert(!is_plain(s@)) by {
            assert(!is_digit(s@[k]));
        }
    }
    if dot == 0 || dot + 1 >= n {
        // the point has no digits on one side: no valid split exists
        proof {
            assert(!has_split(s@)) by {
                if has_split(s@) {
                    let k2 = choose|k2: int| is_split_at(s@, k2);
                    lemma_split_at_dot(s@, k, k2);
                }
            }
        }
        return Err(AmountError::Malformed);
    }
    assert(s@.subrange(dot + 1 as int, n as int) =~= s@.subrange(dot + 1 as int, n as int));
    assert(is_split_at(s@, k));
    proof {
        lemma_split_at_dot(s@, k, split_of(s@));
        assert(split_of(s@) == k);
    }
    let fl = n - dot - 1;
    assert(frac_len(s@) == fl as int);
    if fl > decimals as usize {
        return Err(AmountError::BadPrecision);
    }
    let ghost int_part = s@.subrange(0, k);
    let ghost frac_part = s@.subrange(k + 1, n as int);
    let a = match digits_to_u128(s, 0, dot) {
        Some(a) => a,
        None => {
            // the integer part alone already exceeds the range
            proof {
                lemma_pow10_pos(decimals as nat);
                lemma_pow10_pos((decimals as int - fl) as nat);
                lemma_digits_val_nonneg(int_part);
                lemma_digits_val_nonneg(frac_part);
                lemma_mul_inequality(1, pow10(decimals as nat), digits_val(int_part));
                assert(digits_val(int_part) * 1 == digits_val(int_part)) by (nonlinear_arith);
                assert(digits_val(int_part) * pow10(decimals as nat) == pow10(decimals as nat)
                    * digits_val(int_part)) by (nonlinear_arith);
                lemma_mul_nonnegative(digits_val(frac_part), pow10((decimals as int - fl) as nat));
            }
            return Err(AmountError::Malformed);
        },
    };
    let f = match digits_to_u128(s, dot + 1, n) {
        Some(f) => f,
        None => {
            proof {
                lemma_digits_val_bound(frac_part);
                lemma_pow10_mono(frac_part.len() as nat, 18);
                lemma_pow10_18();
            }
            assert(false);
            return Err(AmountError::Malformed);
        },
    };
    proof {
        lemma_digits_val_bound(frac_part);
        lemma_digits_val_nonneg(frac_part);
        lemma_digits_val_nonneg(int_part);
    }
    let scale_int = pow10_u128(decimals);
    let scale_frac = pow10_u128(decimals - fl as u8);
    // the scaled fraction stays below 10^decimals <= 10^18
    proof {
        lemma_pow10_add(fl as nat, (decimals as int - fl) as nat);
        lemma_pow10_pos((decimals as int - fl) as nat);
        lemma_mul_strict_inequality(f as int, pow10(fl as nat), pow10((decimals as int - fl) as nat));
        lemma_pow10_mono(decimals as nat, 18);
        lemma_pow10_18();
    }
    let f_scaled = f * scale_frac;
    match a.checked_mul(scale_int) {
        Some(a_scaled) => {
            match a_scaled.checked_add(f_scaled) {
                Some(total) => {
                    return Ok(total);
                },
                None => {
                    return Err(AmountError::Malformed);
                },
            }
        },
        None => {
            proof {
                lemma_mul_nonnegative(f as int, pow10((decimals as int - fl) as nat));
            }
            return Err(AmountError::Malformed);
        },
    }
}

} // verus!
