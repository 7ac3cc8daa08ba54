//! Conversion of a decimal coin amount to integer base units.
//!
//! An amount is a decimal numeral, with an optional fractional part. Its
//! base-unit value is the amount multiplied by the base-units-per-coin
//! constant, with any fraction beyond the eighth decimal digit truncated,
//! never rounded.

use vstd::prelude::*;

use crate::TxError;

verus! {

/// Base units per coin: the ledger's native denomination.
pub const SATOSHIS_IN_COIN: u64 = 100_000_000;

/// How many decimal digits of the fractional part carry value.
pub const FRAC_DIGITS: usize = 8;

pub open spec fn is_digit(b: u8) -> bool {
    0x30 <= b <= 0x39
}

pub open spec fn digit_val(b: u8) -> nat {
    (b - 0x30) as nat
}

pub open spec fn all_digits(s: Seq<u8>) -> bool {
    forall|i: int| 0 <= i < s.len() ==> is_digit(s[i])
}

/// The value of a sequence of decimal digit bytes, most significant first.
pub open spec fn digits_val(s: Seq<u8>) -> nat
    decreases s.len(),
{
    if s.len() == 0 {
        0
    } else {
        digits_val(s.drop_last()) * 10 + digit_val(s.last())
    }
}

pub open spec fn pow10(n: nat) -> nat
    decreases n,
{
    if n == 0 {
        1
    } else {
        10 * pow10((n - 1) as nat)
    }
}

/// The index of the first dot in `s`, or `s.len()` if there is none.
pub open spec fn dot_index(s: Seq<u8>) -> int
    decreases s.len(),
{
    if s.len() == 0 {
        0
    } else if s[0] == 0x2eu8 {
        0
    } else {
        1 + dot_index(s.skip(1))
    }
}

/// The base units contributed by the fractional digits: the first eight
/// digits, padded with zeros on the right if there are fewer.
pub open spec fn frac_units(f: Seq<u8>) -> nat {
    if f.len() >= FRAC_DIGITS {
        digits_val(f.take(FRAC_DIGITS as int))
    } else {
        digits_val(f) * pow10((FRAC_DIGITS - f.len()) as nat)
    }
}

/// Whether `s` is a well-formed decimal amount: a nonempty run of digits,
/// optionally followed by a dot and a nonempty run of digits.
pub open spec fn amount_wf(s: Seq<u8>) -> bool {
    let d = dot_index(s);
    if d == s.len() {
        s.len() > 0 && all_digits(s)
    } else {
        &&& 1 <= d
        &&& d + 1 < s.len()
        &&& all_digits(s.take(d))
        &&& all_digits(s.skip(d + 1))
    }
}

/// The base-unit value of a well-formed decimal amount.
pub open spec fn amount_base_units(s: Seq<u8>) -> nat {
    let d = dot_index(s);
    if d == s.len() {
        digits_val(s) * (SATOSHIS_IN_COIN as nat)
    } else {
        digits_val(s.take(d)) * (SATOSHIS_IN_COIN as nat) + frac_units(s.skip(d + 1))
    }
}

/// Where the first dot of `s` stands, read off from a left-to-right scan.
proof fn lemma_dot_index_characterization(s: Seq<u8>)
    ensures
        0 <= dot_index(s) <= s.len(),
        dot_index(s) < s.len() ==> s[dot_index(s)] == 0x2eu8,
        forall|k: int| 0 <= k < dot_index(s) ==> s[k] != 0x2eu8,
    decreases s.len(),
{
    if s.len() == 0 {
    } else if s[0] == 0x2eu8 {
    } else {
        lemma_dot_index_characterization(s.skip(1));
        assert forall|k: int| 0 <= k < dot_index(s) implies s[k] != 0x2eu8 by {
            if k > 0 {
                assert(s.skip(1)[k - 1] == s[k]);
            }
        }
    }
}

/// A scan that found the first dot at `i` (or none at all with `i == len`)
/// agrees with `dot_index`.
proof fn lemma_dot_index_found(s: Seq<u8>, i: int)
    requires
        0 <= i <= s.len(),
        forall|k: int| 0 <= k < i ==> s[k] != 0x2eu8,
        i < s.len() ==> s[i] == 0x2eu8,
    ensures
        dot_index(s) == i,
{
    lemma_dot_index_characterization(s);
    let d = dot_index(s);
    if d < i {
        assert(s[d] == 0x2eu8);
    } else if d > i {
        assert(i < s.len());
        assert(s[i] != 0x2eu8);
    }
}

/// Extending a digit run on the right can only grow its value.
proof fn lemma_digits_val_prefix(s: Seq<u8>, i: int)
    requires
        0 <= i <= s.len(),
    ensures
        digits_val(s) >= digits_val(s.take(i)),
    decreases s.len(),
{
    if i == s.len() {
        assert(s.take(i) =~= s);
    } else {
        assert(s.drop_last().take(i) =~= s.take(i));
        lemma_digits_val_prefix(s.drop_last(), i);
    }
}

proof fn lemma_pow10_monotone(a: nat, b: nat)
    requires
        a <= b,
    ensures
        1 <= pow10(a) <= pow10(b),
    decreases b,
{
    if b == 0 {
    } else if a == b {
        lemma_pow10_monotone(0, (b - 1) as nat);
    } else {
        lemma_pow10_monotone(a, (b - 1) as nat);
    }
}

proof fn lemma_pow10_add(a: nat, b: nat)
    ensures
        pow10(a + b) == pow10(a) * pow10(b),
    decreases a,
{
    if a == 0 {
        assert(pow10(a) == 1);
        assert(a + b == b);
        assert(pow10(a + b) == pow10(b));
        assert(pow10(a) * pow10(b) == pow10(b));
    } else {
        let a1 = (a - 1) as nat;
        lemma_pow10_add(a1, b);
        assert(pow10(a1 + b) == pow10(a1) * pow10(b));
        assert(a + b != 0);
        assert(pow10(a + b) == 10 * pow10((a + b - 1) as nat));
        assert((a + b - 1) as nat == a1 + b);
        assert(pow10(a) == 10 * pow10(a1));
        assert(10 * (pow10(a1) * pow10(b)) == (10 * pow10(a1)) * pow10(b)) by (nonlinear_arith);
        assert(pow10(a + b) == 10 * pow10(a1 + b));
        assert(10 * pow10(a1 + b) == 10 * (pow10(a1) * pow10(b)));
        assert((10 * pow10(a1)) * pow10(b) == pow10(a) * pow10(b));
        assert(pow10(a + b) == pow10(a) * pow10(b));
    }
}

/// A value at least 1 stays at least itself when scaled to base units.
proof fn lemma_times_sat_ge(x: nat)
    ensures
        x * (SATOSHIS_IN_COIN as nat) >= x,
{
    assert(x * 100_000_000 >= x * 1) by (nonlinear_arith);
}

/// Parse a decimal coin amount and convert it to base units, truncating any
/// fraction beyond the eighth decimal digit. Succeeds exactly on well-formed
/// amounts whose base-unit value fits in 64 bits.
pub fn parse_coin_amount(s: &Vec<u8>) -> (r: Result<u64, TxError>)
    ensures
        match r {
            Ok(v) => amount_wf(s@) && amount_base_units(s@) <= u64::MAX && v
                == amount_base_units(s@),
            Err(e) => e == TxError::InvalidAmount && !(amount_wf(s@) && amount_base_units(s@)
                <= u64::MAX),
        },
{
    let n = s.len();
    // Find the first dot.
    let mut i: usize = 0;
    while i < n && s[i] != 0x2e
        invariant
            0 <= i <= n,
            n == s@.len(),
            forall|k: int| 0 <= k < i ==> s@[k] != 0x2eu8,
        decreases n - i,
    {
        i = i + 1;
    }
    let dot = i;
    proof {
        lemma_dot_index_found(s@, dot as int);
    }
    let ghost d = dot_index(s@);

    // Grammar checks that do not need the digits themselves.
    if n == 0 {
        return Err(TxError::InvalidAmount);
    }
    if dot == 0 {
        // An empty integer part: a leading or bare dot.
        return Err(TxError::InvalidAmount);
    }
    if dot < n && dot + 1 >= n {
        // A trailing dot with no fractional digits.
        return Err(TxError::InvalidAmount);
    }

    // Integer part: s[0 .. dot].
    let ghost int_part = s@.take(d);
    let mut acc: u128 = 0;
    let mut j: usize = 0;
    while j < dot
        invariant
            0 <= j <= dot <= n,
            n == s@.len(),
            d == dot as int,
            d == dot_index(s@),
            int_part == s@.take(d),
            acc <= u64::MAX as u128,
            all_digits(s@.take(j as int)),
            acc == digits_val(s@.take(j as int)),
        decreases dot - j,
    {
        let b = s[j];
        if !(0x30 <= b && b <= 0x39) {
            proof {
                // A non-digit in the integer part breaks the grammar.
                assert(int_part[j as int] == b);
                if amount_wf(s@) {
                    if d == s@.len() {
                        assert(s@.take(d) =~= s@);
                        assert(all_digits(s@));
                        assert(is_digit(s@[j as int]));
                    } else {
                        assert(all_digits(s@.take(d)));
                        assert(is_digit(s@.take(d)[j as int]));
                    }
                    assert(is_digit(b));
                }
            }
            return Err(TxError::InvalidAmount);
        }
        proof {
            assert(s@.take(j + 1).drop_last() =~= s@.take(j as int));
            assert(s@.take(j + 1).last() == s@[j as int]);
        }
        acc = acc * 10 + ((b - 0x30) as u128);
        j = j + 1;
        if acc > u64::MAX as u128 {
            proof {
                // The full integer part is worth at least this prefix, and
                // the base-unit value at least the integer part: too large.
                lemma_digits_val_prefix(int_part, j as int);
                assert(int_part.take(j as int) =~= s@.take(j as int));
                assert(digits_val(int_part) > u64::MAX);
                lemma_times_sat_ge(digits_val(int_part));
                if amount_wf(s@) {
                    if d == s@.len() {
                        assert(s@.take(d) =~= s@);
                        assert(amount_base_units(s@) == digits_val(s@) * (SATOSHIS_IN_COIN as nat));
                        assert(digits_val(s@) == digits_val(int_part));
                    } else {
                        assert(amount_base_units(s@) == digits_val(s@.take(d)) * (
                        SATOSHIS_IN_COIN as nat) + frac_units(s@.skip(d + 1)));
                    }
                    assert(amount_base_units(s@) >= digits_val(int_part) * (
                    SATOSHIS_IN_COIN as nat));
                }
            }
            return Err(TxError::InvalidAmount);
        }
    }
    proof {
        assert(s@.take(j as int) =~= int_part);
    }
    let int_val: u128 = acc;

    // Fractional part: s[dot + 1 .. n], absent when there is no dot.
    let mut frac_val: u128 = 0;
    proof {
        lemma_pow10_monotone(0, FRAC_DIGITS as nat);
        reveal_with_fuel(pow10, 9);
        assert(pow10(FRAC_DIGITS as nat) == 100_000_000);
    }
    if dot < n {
        let ghost frac_part = s@.skip(d + 1);
        let flen = n - (dot + 1);
        assert(frac_part.len() == flen);
        // Validate every fractional digit, even past the eighth.
        let mut k: usize = 0;
        while k < flen
            invariant
                0 <= k <= flen,
                n == s@.len(),
                d == dot as int,
                d == dot_index(s@),
                1 <= dot,
                dot + 1 + flen == n,
                frac_part == s@.skip(d + 1),
                all_digits(frac_part.take(k as int)),
            decreases flen - k,
        {
            let b = s[dot + 1 + k];
            proof {
                assert(frac_part[k as int] == s@[d + 1 + k]);
            }
            if !(0x30 <= b && b <= 0x39) {
                proof {
                    if amount_wf(s@) {
                        assert(all_digits(s@.skip(d + 1)));
                        assert(is_digit(s@.skip(d + 1)[k as int]));
                        assert(is_digit(b));
                    }
                }
                return Err(TxError::InvalidAmount);
            }
            proof {
                assert(frac_part.take(k + 1).drop_last() =~= frac_part.take(k as int));
                assert(frac_part.take(k + 1).last() == frac_part[k as int]);
            }
            k = k + 1;
        }
        proof {
            assert(frac_part.take(flen as int) =~= frac_part);
        }
        // Accumulate the first eight digits.
        let take_n = if flen < FRAC_DIGITS {
            flen
        } else {
            FRAC_DIGITS
        };
        let mut fv: u128 = 0;
        let mut k2: usize = 0;
        while k2 < take_n
            invariant
                0 <= k2 <= take_n <= FRAC_DIGITS,
                n == s@.len(),
                d == dot as int,
                1 <= dot,
                dot + 1 + flen == n,
                take_n == if flen < FRAC_DIGITS {
                    flen as int
                } else {
                    FRAC_DIGITS as int
                },
                frac_part == s@.skip(d + 1),
                all_digits(frac_part),
                fv == digits_val(frac_part.take(k2 as int)),
                fv < pow10(k2 as nat),
                pow10(FRAC_DIGITS as nat) == 100_000_000,
            decreases take_n - k2,
        {
            let b = s[dot + 1 + k2];
            proof {
                assert(frac_part[k2 as int] == s@[d + 1 + k2]);
                assert(is_digit(frac_part[k2 as int]));
                assert(frac_part.take(k2 + 1).drop_last() =~= frac_part.take(k2 as int));
                assert(frac_part.take(k2 + 1).last() == frac_part[k2 as int]);
                lemma_pow10_monotone((k2 + 1) as nat, FRAC_DIGITS as nat);
                assert(pow10((k2 + 1) as nat) == 10 * pow10(k2 as nat));
            }
            fv = fv * 10 + ((b - 0x30) as u128);
            k2 = k2 + 1;
        }
        // Pad to eight digits when the fraction is shorter.
        if flen < FRAC_DIGITS {
            proof {
                assert(frac_part.take(flen as int) =~= frac_part);
                lemma_pow10_add(flen as nat, (FRAC_DIGITS - flen) as nat);
                assert(digits_val(frac_part) * pow10((FRAC_DIGITS - flen) as nat) < pow10(
                    flen as nat,
                ) * pow10((FRAC_DIGITS - flen) as nat)) by (nonlinear_arith)
                    requires
                        digits_val(frac_part) < pow10(flen as nat),
                        pow10((FRAC_DIGITS - flen) as nat) >= 1,
                {
                    lemma_pow10_monotone(0, (FRAC_DIGITS - flen) as nat);
                }
            }
            let mut pad = FRAC_DIGITS - flen;
            proof {
                lemma_pow10_monotone(0, (FRAC_DIGITS - flen) as nat);
            }
            while pad > 0
                invariant
                    0 <= pad <= FRAC_DIGITS,
                    frac_part == s@.skip(d + 1),
                    fv * pow10(pad as nat) == digits_val(frac_part) * pow10(
                        (FRAC_DIGITS - flen) as nat,
                    ),
                    fv * pow10(pad as nat) < pow10(FRAC_DIGITS as nat),
                    pow10(FRAC_DIGITS as nat) == 100_000_000,
                    flen < FRAC_DIGITS,
                decreases pad,
            {
                proof {
                    assert(pow10(pad as nat) == 10 * pow10((pad - 1) as nat));
                    lemma_pow10_monotone(0, (pad - 1) as nat);
                    assert((fv * 10) * pow10((pad - 1) as nat) == fv * pow10(pad as nat))
                        by (nonlinear_arith)
                        requires
                            pow10(pad as nat) == 10 * pow10((pad - 1) as nat),
                    ;
                    assert(fv * 10 <= fv * pow10(pad as nat)) by (nonlinear_arith)
                        requires
                            pow10(pad as nat) >= 10,
                            fv >= 0,
                    ;
                }
                fv = fv * 10;
                pad = pad - 1;
            }
            proof {
                assert(pow10(0) == 1);
                assert(fv * 1 == fv);
            }
            frac_val = fv;
            proof {
                assert(frac_val as nat == frac_units(frac_part));
            }
        } else {
            frac_val = fv;
            proof {
                assert(frac_val as nat == frac_units(frac_part));
            }
        }
        proof {
            assert(frac_val < 100_000_000);
        }
    }

    // int_val * SATOSHIS_IN_COIN + frac_val, in 128 bits, cannot overflow:
    // int_val is at most u64::MAX and frac_val is below 10^8.
    proof {
        assert(int_val * (SATOSHIS_IN_COIN as u128) <= (u64::MAX as u128) * 100_000_000)
            by (nonlinear_arith)
            requires
                int_val <= u64::MAX as u128,
                SATOSHIS_IN_COIN == 100_000_000,
        ;
    }
    let total: u128 = int_val * (SATOSHIS_IN_COIN as u128) + frac_val;
    proof {
        if d == s@.len() {
            assert(s@.take(d) =~= s@);
            assert(frac_val == 0);
        }
        assert(amount_wf(s@));
        assert(amount_base_units(s@) == total as nat);
    }
    if total > u64::MAX as u128 {
        return Err(TxError::InvalidAmount);
    }
    Ok(total as u64)
}

} // verus!
