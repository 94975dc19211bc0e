//! Runs of ASCII decimal digits and the numbers they denote.

use vstd::prelude::*;

verus! {

/// An ASCII decimal digit.
pub open spec fn is_digit(b: u8) -> bool {
    48 <= b <= 57
}

/// Every byte is an ASCII decimal digit.
pub open spec fn all_digits(s: Seq<u8>) -> bool {
    forall|i: int| 0 <= i < s.len() ==> is_digit(#[trigger] s[i])
}

/// The number that a string of decimal digits denotes.
pub open spec fn digits_value(s: Seq<u8>) -> int
    decreases s.len(),
{
    if s.len() == 0 {
        0
    } else {
        digits_value(s.drop_last()) * 10 + (s.last() - 48)
    }
}

/// Ten to the power `n`.
pub open spec fn pow10(n: nat) -> int
    decreases n,
{
    if n == 0 {
        1
    } else {
        10 * pow10((n - 1) as nat)
    }
}

pub proof fn lemma_digits_value_bounds(s: Seq<u8>)
    requires
        all_digits(s),
    ensures
        0 <= digits_value(s) < pow10(s.len()),
    decreases s.len(),
{
    if s.len() > 0 {
        let p = s.drop_last();
        assert(all_digits(p)) by {
            assert forall|i: int| 0 <= i < p.len() implies is_digit(#[trigger] p[i]) by {
                assert(p[i] == s[i]);
            }
        }
        assert(is_digit(s[s.len() - 1]));
        lemma_digits_value_bounds(p);
        assert(pow10(s.len()) == 10 * pow10(p.len()));
    }
}

pub proof fn lemma_digits_value_prefix_le(s: Seq<u8>, k: int)
    requires
        all_digits(s),
        0 <= k <= s.len(),
    ensures
        digits_value(s.take(k)) <= digits_value(s),
    decreases s.len() - k,
{
    if k < s.len() {
        let p = s.drop_last();
        assert(all_digits(p)) by {
            assert forall|i: int| 0 <= i < p.len() implies is_digit(#[trigger] p[i]) by {
                assert(p[i] == s[i]);
            }
        }
        assert(is_digit(s[s.len() - 1]));
        lemma_digits_value_prefix_le(p, k);
        assert(p.take(k) =~= s.take(k));
        lemma_digits_value_bounds(p);
    } else {
        assert(s.take(k) =~= s);
    }
}

/// Reads the digits `s[start..end]` as a number, all of them ASCII digits.
pub fn digits_run_value(s: &[u8], start: usize, end: usize) -> (r: Option<u64>)
    requires
        start <= end <= s@.len(),
        end - start <= 18,
    ensures
        r matches Some(v) ==> all_digits(s@.subrange(start as int, end as int)) && v == digits_value(
            s@.subrange(start as int, end as int),
        ),
        r is None ==> !all_digits(s@.subrange(start as int, end as int)),
{
    let mut v: u64 = 0;
    let mut i = start;
    while i < end
        invariant
            start <= i <= end <= s@.len(),
            end - start <= 18,
            all_digits(s@.subrange(start as int, i as int)),
            v == digits_value(s@.subrange(start as int, i as int)),
            v < pow10((i - start) as nat),
        decreases end - i,
    {
        let b = s[i];
        if b < 48 || b > 57 {
            assert(s@.subrange(start as int, end as int)[i - start] == b);
            return None;
        }
        let ghost prev = s@.subrange(start as int, i as int);
        let ghost next = s@.subrange(start as int, i + 1);
        assert(next.drop_last() =~= prev);
        assert(pow10((i + 1 - start) as nat) == 10 * pow10((i - start) as nat));
        proof {
            lemma_pow10_mono((i - start) as nat, 17);
            lemma_pow10_values();
        }
        assert(v < 100000000000000000);
        v = v * 10 + (b - 48) as u64;
        i = i + 1;
        assert(all_digits(next)) by {
            assert forall|j: int| 0 <= j < next.len() implies is_digit(#[trigger] next[j]) by {
                if j < prev.len() {
                    assert(next[j] == prev[j]);
                }
            }
        }
    }
    Some(v)
}

pub proof fn lemma_pow10_values()
    ensures
        pow10(4) == 10000,
        pow10(17) == 100000000000000000,
        pow10(19) == 10000000000000000000,
{
    reveal_with_fuel(pow10, 20);
}

pub proof fn lemma_pow10_mono(a: nat, b: nat)
    requires
        a <= b,
    ensures
        1 <= pow10(a) <= pow10(b),
    decreases b,
{
    if a < b {
        lemma_pow10_mono(a, (b - 1) as nat);
    } else if a > 0 {
        lemma_pow10_mono((a - 1) as nat, (a - 1) as nat);
    }
}

/// `i64::from_str` on `s[start..end]` when every byte there is an ASCII digit:
/// `None` exactly when the value exceeds `i64::MAX`.
pub fn parse_i64_digits(s: &[u8], start: usize, end: usize) -> (r: Option<i64>)
    requires
        start < end <= s@.len(),
        all_digits(s@.subrange(start as int, end as int)),
    ensures
        r matches Some(v) ==> v == digits_value(s@.subrange(start as int, end as int)),
        r is None <==> digits_value(s@.subrange(start as int, end as int)) > i64::MAX,
{
    let ghost whole = s@.subrange(start as int, end as int);
    let mut v: u64 = 0;
    let mut i = start;
    while i < end
        invariant
            start <= i <= end <= s@.len(),
            whole == s@.subrange(start as int, end as int),
            all_digits(whole),
            v == digits_value(s@.subrange(start as int, i as int)),
            v <= i64::MAX,
        decreases end - i,
    {
        let ghost prev = s@.subrange(start as int, i as int);
        let ghost next = s@.subrange(start as int, i + 1);
        assert(next.drop_last() =~= prev);
        assert(whole[i - start] == s@[i as int]);
        let d = (s[i] - 48) as u64;
        if v > (9223372036854775807u64 - d) / 10 {
            proof {
                assert(whole.take(i + 1 - start) =~= next);
                lemma_digits_value_prefix_le(whole, i + 1 - start);
                assert(v * 10 + d > 9223372036854775807) by (nonlinear_arith)
                    requires
                        v > (9223372036854775807 - d) / 10,
                        0 <= d <= 9,
                ;
            }
            return None;
        }
        assert(v * 10 + d <= 9223372036854775807) by (nonlinear_arith)
            requires
                v <= (9223372036854775807 - d) / 10,
                0 <= d <= 9,
        ;
        v = v * 10 + d;
        i = i + 1;
    }
    assert(s@.subrange(start as int, end as int) =~= whole);
    Some(v as i64)
}

} // verus!
