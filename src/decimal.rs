use vstd::prelude::*;

verus! {

/// The ASCII code of `0`.
pub const DIGIT_ZERO: u8 = 48;

/// The ASCII code of `9`.
pub const DIGIT_NINE: u8 = 57;

/// An ASCII decimal digit.
pub open spec fn is_digit(b: u8) -> bool {
    DIGIT_ZERO <= b && b <= DIGIT_NINE
}

pub open spec fn all_digits(s: Seq<u8>) -> bool {
    forall|i: int| 0 <= i < s.len() ==> #[trigger] is_digit(s[i])
}

/// The number written by a string of decimal digits, most significant first.
pub open spec fn decimal_value(s: Seq<u8>) -> nat
    decreases s.len(),
{
    if s.len() == 0 {
        0
    } else {
        decimal_value(s.drop_last()) * 10 + (s.last() - DIGIT_ZERO) as nat
    }
}

/// The shortest decimal spelling of `n`.
pub open spec fn decimal_digits(n: nat) -> Seq<u8>
    decreases n,
{
    if n < 10 {
        seq![(n + DIGIT_ZERO) as u8]
    } else {
        decimal_digits(n / 10).push((n % 10 + DIGIT_ZERO) as u8)
    }
}

/// Why a byte string is not a decimal number that fits in `usize`.
#[derive(Clone, Copy, Debug, PartialEq, Eq, Structural)]
pub enum DecimalError {
    Empty,
    NotDigit,
    Overflow,
}

/// A prefix of a digit string never writes a larger number than the whole.
pub proof fn lemma_prefix_value_le(s: Seq<u8>, i: int)
    requires
        0 <= i <= s.len(),
        all_digits(s),
    ensures
        decimal_value(s.take(i)) <= decimal_value(s),
    decreases s.len(),
{
    if i < s.len() {
        assert(s.drop_last().take(i) =~= s.take(i));
        lemma_prefix_value_le(s.drop_last(), i);
    } else {
        assert(s.take(i) =~= s);
    }
}

/// The spelling of `n` is a non-empty digit string that reads back as `n`.
pub proof fn lemma_decimal_digits(n: nat)
    ensures
        decimal_digits(n).len() > 0,
        all_digits(decimal_digits(n)),
        decimal_value(decimal_digits(n)) == n,
    decreases n,
{
    let d = decimal_digits(n);
    if n < 10 {
        assert(d.drop_last() =~= Seq::<u8>::empty());
        assert(decimal_value(d.drop_last()) == 0);
    } else {
        lemma_decimal_digits(n / 10);
        assert(d.drop_last() =~= decimal_digits(n / 10));
        assert(d.last() == (n % 10 + DIGIT_ZERO) as u8);
        assert(decimal_value(d) == (n / 10) * 10 + n % 10);
        assert(all_digits(d)) by {
            assert forall|i: int| 0 <= i < d.len() implies #[trigger] is_digit(d[i]) by {
                if i < d.len() - 1 {
                    assert(d[i] == decimal_digits(n / 10)[i]);
                }
            }
        }
    }
}

/// Reads a non-empty string of ASCII decimal digits as a `usize`.
pub fn bytes_to_usize(b: &[u8]) -> (r: Result<usize, DecimalError>)
    ensures
        match r {
            Ok(v) => b@.len() > 0 && all_digits(b@) && v == decimal_value(b@),
            Err(DecimalError::Empty) => b@.len() == 0,
            Err(DecimalError::NotDigit) => b@.len() > 0 && !all_digits(b@),
            Err(DecimalError::Overflow) => b@.len() > 0 && all_digits(b@) && decimal_value(b@)
                > usize::MAX,
        },
{
    if b.len() == 0 {
        return Err(DecimalError::Empty);
    }
    let mut i: usize = 0;
    while i < b.len()
        invariant
            i <= b@.len(),
            forall|j: int| 0 <= j < i ==> #[trigger] is_digit(b@[j]),
        decreases b@.len() - i,
    {
        if !(DIGIT_ZERO <= b[i] && b[i] <= DIGIT_NINE) {
            assert(!is_digit(b@[i as int]));
            return Err(DecimalError::NotDigit);
        }
        i = i + 1;
    }
    let mut v: usize = 0;
    let mut k: usize = 0;
    while k < b.len()
        invariant
            k <= b@.len(),
            all_digits(b@),
            v == decimal_value(b@.take(k as int)),
        decreases b@.len() - k,
    {
        assert(is_digit(b@[k as int]));
        let d = (b[k] - DIGIT_ZERO) as usize;
        assert(b@.take(k + 1).drop_last() =~= b@.take(k as int));
        if v > (usize::MAX - d) / 10 {
            proof {
                lemma_prefix_value_le(b@, k + 1);
            }
            return Err(DecimalError::Overflow);
        }
        v = v * 10 + d;
        k = k + 1;
    }
    assert(b@.take(k as int) =~= b@);
    Ok(v)
}

/// The shortest decimal spelling of `n`, as ASCII bytes.
pub fn usize_to_decimal(n: usize) -> (r: Vec<u8>)
    ensures
        r@ == decimal_digits(n as nat),
    decreases n,
{
    if n < 10 {
        vec![n as u8 + DIGIT_ZERO]
    } else {
        let mut r = usize_to_decimal(n / 10);
        r.push((n % 10) as u8 + DIGIT_ZERO);
        r
    }
}

} // verus!
