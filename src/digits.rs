use vstd::prelude::*;

verus! {

/// Is `b` one of the ASCII digits `0` to `9`?
pub open spec fn is_digit(b: u8) -> bool {
    48 <= b <= 57
}

/// Is every byte of `s` an ASCII digit?
pub open spec fn all_digits(s: Seq<u8>) -> bool {
    forall|i: int| 0 <= i < s.len() ==> is_digit(#[trigger] s[i])
}

/// The value of `s` read as a decimal numeral, most significant digit first.
/// An empty numeral reads as zero.
pub open spec fn decimal_value(s: Seq<u8>) -> nat
    decreases s.len(),
{
    if s.len() == 0 {
        0
    } else {
        decimal_value(s.drop_last()) * 10 + (s.last() - 48) as nat
    }
}

/// Why a run of bytes is not a decimal numeral that fits in a `u64`.
#[derive(Debug, Clone, Copy, PartialEq, Eq, Structural)]
pub enum DecimalError {
    /// The byte at this index is not an ASCII digit.
    NotADigit { index: usize },
    /// Every byte is a digit, but the value exceeds `u64::MAX`.
    TooLarge,
}

/// The index of the first byte of `s` that is not an ASCII digit.
pub open spec fn first_non_digit(s: Seq<u8>) -> int
    recommends
        !all_digits(s),
{
    choose|i: int|
        0 <= i < s.len() && !is_digit(s[i]) && forall|j: int| 0 <= j < i ==> is_digit(#[trigger] s[j])
}

/// What reading `s` as a decimal numeral yields: its value, or why it has none.
pub open spec fn spec_decimal(s: Seq<u8>) -> Result<u64, DecimalError> {
    if !all_digits(s) {
        Err(DecimalError::NotADigit { index: first_non_digit(s) as usize })
    } else if decimal_value(s) > u64::MAX {
        Err(DecimalError::TooLarge)
    } else {
        Ok(decimal_value(s) as u64)
    }
}

proof fn lemma_decimal_push(s: Seq<u8>, b: u8)
    ensures
        decimal_value(s.push(b)) == decimal_value(s) * 10 + (b - 48) as nat,
{
    assert(s.push(b).drop_last() =~= s);
}

proof fn lemma_first_non_digit(s: Seq<u8>, i: int)
    requires
        0 <= i < s.len(),
        !is_digit(s[i]),
        forall|j: int| 0 <= j < i ==> is_digit(#[trigger] s[j]),
    ensures
        !all_digits(s),
        first_non_digit(s) == i,
{
    let k = first_non_digit(s);
    assert(0 <= k < s.len() && !is_digit(s[k]) && forall|j: int|
        0 <= j < k ==> is_digit(#[trigger] s[j]));
    if k < i {
        assert(is_digit(s[k]));
    } else if k > i {
        assert(is_digit(s[i]));
    }
}

/// Reads `bytes` as an unsigned decimal numeral, as the count and length
/// fields hold them. Every byte must be an ASCII digit: no sign, no blanks. An
/// empty run reads as zero.
pub fn num_from_str(bytes: &[u8]) -> (r: Result<u64, DecimalError>)
    ensures
        r == spec_decimal(bytes@),
{
    let mut value: u64 = 0;
    let mut too_large: bool = false;
    let mut i: usize = 0;
    while i < bytes.len()
        invariant
            0 <= i <= bytes@.len(),
            all_digits(bytes@.subrange(0, i as int)),
            !too_large ==> value == decimal_value(bytes@.subrange(0, i as int)),
            too_large ==> decimal_value(bytes@.subrange(0, i as int)) > u64::MAX,
        decreases bytes@.len() - i,
    {
        let b = bytes[i];
        proof {
            assert(bytes@.subrange(0, i + 1) =~= bytes@.subrange(0, i as int).push(b));
            lemma_decimal_push(bytes@.subrange(0, i as int), b);
        }
        if b < 48 || b > 57 {
            proof {
                let s = bytes@;
                assert forall|j: int| 0 <= j < i implies is_digit(#[trigger] s[j]) by {
                    assert(s.subrange(0, i as int)[j] == s[j]);
                }
                lemma_first_non_digit(s, i as int);
            }
            return Err(DecimalError::NotADigit { index: i });
        }
        let d: u64 = (b - 48) as u64;
        if !too_large {
            if value > (u64::MAX - d) / 10 {
                too_large = true;
            } else {
                value = value * 10 + d;
            }
        }
        i = i + 1;
        assert(all_digits(bytes@.subrange(0, i as int)));
    }
    assert(bytes@.subrange(0, i as int) =~= bytes@);
    if too_large {
        Err(DecimalError::TooLarge)
    } else {
        Ok(value)
    }
}

} // verus!
