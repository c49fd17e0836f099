//! Decimal and hexadecimal numerals as byte strings, with proofs that the
//! writer and the reader of each numeral invert one another. The chunked
//! body coder writes sizes in upper-case hex; `Content-Length` uses decimal.

use vstd::prelude::*;

verus! {

/// Whether `b` is a decimal digit.
pub open spec fn spec_is_dec_digit(b: u8) -> bool {
    48 <= b <= 57
}

/// The numeric value of the decimal digit string `s` (most significant
/// digit first); digits are assumed valid.
pub open spec fn spec_dec_value(s: Seq<u8>) -> nat
    decreases s.len(),
{
    if s.len() == 0 {
        0
    } else {
        spec_dec_value(s.drop_last()) * 10 + (if spec_is_dec_digit(s.last()) {
            (s.last() - 48) as nat
        } else {
            0
        })
    }
}

/// The shortest decimal digit string denoting `n`.
pub open spec fn spec_dec_digits(n: nat) -> Seq<u8>
    decreases n,
{
    if n < 10 {
        seq![(48 + n) as u8]
    } else {
        spec_dec_digits(n / 10).push((48 + n % 10) as u8)
    }
}

/// Every byte of the canonical decimal form is a digit.
pub proof fn lemma_dec_digits_are_digits(n: nat)
    ensures
        forall|i: int|
            0 <= i < spec_dec_digits(n).len() ==> spec_is_dec_digit(#[trigger] spec_dec_digits(n)[i]),
        spec_dec_digits(n).len() >= 1,
    decreases n,
{
    if n >= 10 {
        lemma_dec_digits_are_digits(n / 10);
    }
}

/// Reading back the canonical decimal form of `n` yields `n`.
pub proof fn lemma_dec_round_trip(n: nat)
    ensures
        spec_dec_value(spec_dec_digits(n)) == n,
    decreases n,
{
    if n < 10 {
        assert(spec_dec_digits(n) == seq![(48 + n) as u8]);
        assert(spec_dec_digits(n).drop_last() =~= Seq::<u8>::empty());
        assert(spec_dec_digits(n).last() == (48 + n) as u8);
        assert(spec_dec_value(Seq::<u8>::empty()) == 0);
        assert(spec_dec_value(spec_dec_digits(n)) == spec_dec_value(
            spec_dec_digits(n).drop_last(),
        ) * 10 + (spec_dec_digits(n).last() - 48));
    } else {
        lemma_dec_round_trip(n / 10);
        lemma_dec_digits_are_digits(n / 10);
        assert(spec_dec_digits(n).drop_last() =~= spec_dec_digits(n / 10));
        assert(spec_dec_digits(n).last() == (48 + n % 10) as u8);
        assert(n == (n / 10) * 10 + n % 10) by (nonlinear_arith);
    }
}

/// Writes `n` in decimal.
pub fn format_dec_u64(n: u64) -> (r: Vec<u8>)
    ensures
        r@ == spec_dec_digits(n as nat),
    decreases n,
{
    if n < 10 {
        let mut v: Vec<u8> = Vec::new();
        v.push(48 + (n as u8));
        proof {
            assert(v@ =~= spec_dec_digits(n as nat));
        }
        v
    } else {
        let mut v = format_dec_u64(n / 10);
        v.push(48 + ((n % 10) as u8));
        v
    }
}

/// Reads a decimal numeral: every byte must be a digit, there must be at
/// least one, and the value must fit in `u64`.
pub fn parse_dec_u64(s: &[u8]) -> (r: Option<u64>)
    ensures
        match r {
            Some(v) => s@.len() >= 1 && (forall|i: int|
                0 <= i < s@.len() ==> spec_is_dec_digit(#[trigger] s@[i])) && v as nat
                == spec_dec_value(s@),
            None => s@.len() == 0 || (exists|i: int|
                0 <= i < s@.len() && !spec_is_dec_digit(#[trigger] s@[i])) || spec_dec_value(s@)
                > u64::MAX,
        },
{
    if s.len() == 0 {
        return None;
    }
    let mut val: u64 = 0;
    let mut i: usize = 0;
    while i < s.len()
        invariant
            0 <= i <= s@.len(),
            forall|j: int| 0 <= j < i ==> spec_is_dec_digit(#[trigger] s@[j]),
            val as nat == spec_dec_value(s@.take(i as int)),
        decreases s@.len() - i,
    {
        let b = s[i];
        if !(48 <= b && b <= 57) {
            proof {
                lemma_dec_value_prefix_le(s@, i as int);
            }
            return None;
        }
        let d = b - 48;
        if val > (u64::MAX - d as u64) / 10 {
            proof {
                assert(s@.take(i as int + 1).drop_last() =~= s@.take(i as int));
                assert(s@.take(i as int + 1).last() == s@[i as int]);
                lemma_dec_value_prefix_le(s@, i as int + 1);
            }
            return None;
        }
        proof {
            assert(s@.take(i as int + 1).drop_last() =~= s@.take(i as int));
            assert(s@.take(i as int + 1).last() == s@[i as int]);
        }
        val = val * 10 + d as u64;
        i = i + 1;
    }
    proof {
        assert(s@.take(s@.len() as int) =~= s@);
    }
    Some(val)
}

/// A longer decimal digit string never denotes a smaller value: the value of
/// a prefix is at most the value of the whole (digits assumed valid).
pub proof fn lemma_dec_value_prefix_le(s: Seq<u8>, k: int)
    requires
        0 <= k <= s.len(),
    ensures
        spec_dec_value(s.take(k)) <= spec_dec_value(s),
    decreases s.len() - k,
{
    if k < s.len() {
        lemma_dec_value_prefix_le(s, k + 1);
        assert(s.take(k + 1).drop_last() =~= s.take(k));
    } else {
        assert(s.take(k) =~= s);
    }
}

/// A hex digit string denotes less than 16 to the power of its length.
pub proof fn lemma_hex_value_bound(s: Seq<u8>)
    ensures
        spec_hex_value(s) < (vstd::arithmetic::power::pow(16, s.len())),
    decreases s.len(),
{
    if s.len() == 0 {
        vstd::arithmetic::power::lemma_pow0(16);
    } else {
        lemma_hex_value_bound(s.drop_last());
        assert(vstd::arithmetic::power::pow(16, s.len()) == 16 * (vstd::arithmetic::power::pow(
            16,
            (s.len() - 1) as nat,
        ))) by {
            vstd::arithmetic::power::lemma_pow_adds(16, 1, (s.len() - 1) as nat);
            vstd::arithmetic::power::lemma_pow1(16);
        }
        assert(spec_hex_value(s.drop_last()) * 16 + spec_hex_digit_value(s.last()) < (16
            * (vstd::arithmetic::power::pow(16, (s.len() - 1) as nat)))) by (nonlinear_arith)
            requires
                spec_hex_value(s.drop_last()) < (vstd::arithmetic::power::pow(
                    16,
                    (s.len() - 1) as nat,
                )),
                spec_hex_digit_value(s.last()) < 16,
        ;
    }
}

/// A hex digit string of at most 16 digits denotes a value that fits in 64
/// bits.
pub proof fn lemma_hex_value_fits_u64(s: Seq<u8>)
    requires
        s.len() <= 16,
    ensures
        spec_hex_value(s) <= u64::MAX,
{
    lemma_hex_value_bound(s);
    vstd::arithmetic::power::lemma_pow_increases(16, s.len(), 16);
    assert(vstd::arithmetic::power::pow(16, 16) == 0x10000000000000000) by {
        reveal_with_fuel(vstd::arithmetic::power::pow, 17);
    }
}

/// The canonical hex form of a value below 16 to the `k` has at most `k`
/// digits.
pub proof fn lemma_hex_upper_len(n: nat, k: nat)
    requires
        k >= 1,
        n < (vstd::arithmetic::power::pow(16, k)),
    ensures
        spec_hex_upper(n).len() <= k,
    decreases n,
{
    if n >= 16 {
        vstd::arithmetic::power::lemma_pow1(16);
        if k == 1 {
            assert(false);
        }
        assert(vstd::arithmetic::power::pow(16, k) == 16 * (vstd::arithmetic::power::pow(
            16,
            (k - 1) as nat,
        ))) by {
            vstd::arithmetic::power::lemma_pow_adds(16, 1, (k - 1) as nat);
            vstd::arithmetic::power::lemma_pow1(16);
        }
        assert(n / 16 < (vstd::arithmetic::power::pow(16, (k - 1) as nat))) by (nonlinear_arith)
            requires
                n < 16 * (vstd::arithmetic::power::pow(16, (k - 1) as nat)),
        ;
        lemma_hex_upper_len(n / 16, (k - 1) as nat);
    }
}

/// A value that fits in 64 bits has at most 16 hex digits.
pub proof fn lemma_hex_upper_len_u64(n: nat)
    requires
        n <= u64::MAX,
    ensures
        spec_hex_upper(n).len() <= 16,
{
    assert(vstd::arithmetic::power::pow(16, 16) == 0x10000000000000000) by {
        reveal_with_fuel(vstd::arithmetic::power::pow, 17);
    }
    lemma_hex_upper_len(n, 16);
}

/// Whether `b` is a hexadecimal digit (either case).
pub open spec fn spec_is_hex_digit(b: u8) -> bool {
    (48 <= b <= 57) || (97 <= b <= 102) || (65 <= b <= 70)
}

/// The numeric value of one hex digit.
pub open spec fn spec_hex_digit_value(b: u8) -> nat {
    if 48 <= b <= 57 {
        (b - 48) as nat
    } else if 97 <= b <= 102 {
        (b - 97 + 10) as nat
    } else if 65 <= b <= 70 {
        (b - 65 + 10) as nat
    } else {
        0
    }
}

/// The numeric value of the hex digit string `s`.
pub open spec fn spec_hex_value(s: Seq<u8>) -> nat
    decreases s.len(),
{
    if s.len() == 0 {
        0
    } else {
        spec_hex_value(s.drop_last()) * 16 + spec_hex_digit_value(s.last())
    }
}

/// The upper-case hex digit with value `d` (for `d < 16`).
pub open spec fn spec_hex_digit_upper(d: nat) -> u8 {
    if d < 10 {
        (48 + d) as u8
    } else {
        (55 + d) as u8
    }
}

/// The shortest upper-case hex digit string denoting `n`.
pub open spec fn spec_hex_upper(n: nat) -> Seq<u8>
    decreases n,
{
    if n < 16 {
        seq![spec_hex_digit_upper(n)]
    } else {
        spec_hex_upper(n / 16).push(spec_hex_digit_upper(n % 16))
    }
}

/// Every byte of the canonical hex form is a hex digit, and its digit value
/// is what was encoded.
pub proof fn lemma_hex_upper_digits(n: nat)
    ensures
        forall|i: int|
            0 <= i < spec_hex_upper(n).len() ==> spec_is_hex_digit(#[trigger] spec_hex_upper(n)[i]),
        spec_hex_upper(n).len() >= 1,
    decreases n,
{
    if n >= 16 {
        lemma_hex_upper_digits(n / 16);
    }
}

/// Reading back the canonical upper-case hex form of `n` yields `n`.
pub proof fn lemma_hex_round_trip(n: nat)
    ensures
        spec_hex_value(spec_hex_upper(n)) == n,
    decreases n,
{
    if n < 16 {
        assert(spec_hex_upper(n) == seq![spec_hex_digit_upper(n)]);
        assert(spec_hex_upper(n).drop_last() =~= Seq::<u8>::empty());
        assert(spec_hex_upper(n).last() == spec_hex_digit_upper(n));
        assert(spec_hex_value(Seq::<u8>::empty()) == 0);
        assert(spec_hex_value(spec_hex_upper(n)) == spec_hex_value(spec_hex_upper(n).drop_last())
            * 16 + spec_hex_digit_value(spec_hex_upper(n).last()));
        assert(spec_hex_digit_value(spec_hex_digit_upper(n)) == n);
    } else {
        lemma_hex_round_trip(n / 16);
        lemma_hex_upper_digits(n / 16);
        assert(spec_hex_upper(n).drop_last() =~= spec_hex_upper(n / 16));
        assert(spec_hex_upper(n).last() == spec_hex_digit_upper(n % 16));
        assert(spec_hex_digit_value(spec_hex_digit_upper(n % 16)) == n % 16);
        assert(n == (n / 16) * 16 + n % 16) by (nonlinear_arith);
    }
}

/// Writes `n` in upper-case hex, as the chunked encoder does for chunk sizes.
pub fn format_hex_upper_u64(n: u64) -> (r: Vec<u8>)
    ensures
        r@ == spec_hex_upper(n as nat),
    decreases n,
{
    if n < 16 {
        let d = n as u8;
        let mut v: Vec<u8> = Vec::new();
        if d < 10 {
            v.push(48 + d);
        } else {
            v.push(55 + d);
        }
        proof {
            assert(v@ =~= spec_hex_upper(n as nat));
        }
        v
    } else {
        let mut v = format_hex_upper_u64(n / 16);
        let d = (n % 16) as u8;
        if d < 10 {
            v.push(48 + d);
        } else {
            v.push(55 + d);
        }
        v
    }
}

} // verus!
