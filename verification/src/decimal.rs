//! Numbers in decimal digits, as they stand in the names of part files.

use vstd::prelude::*;

verus! {

/// The digit `0`.
pub const ZERO: u8 = 48;

/// The digit `9`.
pub const NINE: u8 = 57;

/// Whether `byte` is one of the digits `0` to `9`.
pub open spec fn is_digit(byte: u8) -> bool {
    ZERO <= byte <= NINE
}

/// The digits of `n`, without leading zeros; `0` is one digit.
pub open spec fn decimal(n: nat) -> Seq<u8>
    decreases n,
{
    if n < 10 {
        seq![(ZERO + n) as u8]
    } else {
        decimal(n / 10).push((ZERO + n % 10) as u8)
    }
}

/// The number that the digits `digits` say; leading zeros count nothing.
pub open spec fn digits_value(digits: Seq<u8>) -> nat
    decreases digits.len(),
{
    if digits.len() == 0 {
        0
    } else {
        digits_value(digits.drop_last()) * 10 + (digits.last() - ZERO) as nat
    }
}

/// Whether every byte of `bytes` is a digit.
pub open spec fn all_digits(bytes: Seq<u8>) -> bool {
    forall|i: int| 0 <= i < bytes.len() ==> is_digit(#[trigger] bytes[i])
}

/// Where the run of digits that starts at `from` ends: the first position at
/// or after `from` that holds no digit.
pub open spec fn digits_end(bytes: Seq<u8>, from: int) -> int
    decreases bytes.len() - from,
{
    if 0 <= from < bytes.len() && is_digit(bytes[from]) {
        digits_end(bytes, from + 1)
    } else {
        from
    }
}

/// The digits of a number are digits, at least one, and say that number.
pub proof fn lemma_decimal(n: nat)
    ensures
        decimal(n).len() > 0,
        all_digits(decimal(n)),
        digits_value(decimal(n)) == n,
    decreases n,
{
    if n < 10 {
        assert(digits_value(decimal(n).drop_last()) == 0);
    } else {
        lemma_decimal(n / 10);
        assert(decimal(n).drop_last() =~= decimal(n / 10));
    }
}

/// A run of digits ends where the digits end: after digits that are followed
/// by no digit.
pub proof fn lemma_digits_end(bytes: Seq<u8>, from: int, to: int)
    requires
        0 <= from <= to <= bytes.len(),
        all_digits(bytes.subrange(from, to)),
        to == bytes.len() || !is_digit(bytes[to]),
    ensures
        digits_end(bytes, from) == to,
    decreases to - from,
{
    if from < to {
        assert(bytes.subrange(from, to)[0] == bytes[from]);
        assert forall|i: int| 0 <= i < to - from - 1 implies is_digit(
            #[trigger] bytes.subrange(from + 1, to)[i],
        ) by {
            assert(bytes.subrange(from + 1, to)[i] == bytes.subrange(from, to)[i + 1]);
        }
        lemma_digits_end(bytes, from + 1, to);
    }
}

/// The end of a run of digits lies within the bytes, the bytes up to it are
/// digits, and no digit follows.
pub proof fn lemma_digits_end_is_end(bytes: Seq<u8>, from: int)
    requires
        0 <= from <= bytes.len(),
    ensures
        from <= digits_end(bytes, from) <= bytes.len(),
        all_digits(bytes.subrange(from, digits_end(bytes, from))),
        digits_end(bytes, from) == bytes.len() || !is_digit(bytes[digits_end(bytes, from)]),
    decreases bytes.len() - from,
{
    if from < bytes.len() && is_digit(bytes[from]) {
        lemma_digits_end_is_end(bytes, from + 1);
        let to = digits_end(bytes, from);
        assert forall|i: int| 0 <= i < to - from implies is_digit(
            #[trigger] bytes.subrange(from, to)[i],
        ) by {
            if i > 0 {
                assert(bytes.subrange(from, to)[i] == bytes.subrange(from + 1, to)[i - 1]);
            }
        }
    }
}

/// Appends the digits of `v` to `out`.
pub fn put_decimal(out: &mut Vec<u8>, v: u64)
    ensures
        final(out)@ == old(out)@ + decimal(v as nat),
    decreases v,
{
    if v >= 10 {
        put_decimal(out, v / 10);
    }
    out.push(ZERO + (v % 10) as u8);
}

/// Reads the run of digits that starts at `from`. Returns where it ends, and
/// the number that the digits say if it is at most `u64::MAX`. An empty run
/// says zero.
pub fn read_decimal(bytes: &[u8], from: usize) -> (run: (usize, Option<u64>))
    requires
        from <= bytes@.len(),
    ensures
        run.0 == digits_end(bytes@, from as int),
        from <= run.0 <= bytes@.len(),
        match run.1 {
            Some(value) => value == digits_value(bytes@.subrange(from as int, run.0 as int)),
            None => digits_value(bytes@.subrange(from as int, run.0 as int)) > u64::MAX,
        },
{
    let len: usize = bytes.len();
    let mut at: usize = from;
    let mut value: Option<u64> = Some(0);
    proof {
        lemma_digits_end_is_end(bytes@, from as int);
    }
    let ghost end = digits_end(bytes@, from as int);
    while at < len && bytes[at] >= ZERO && bytes[at] <= NINE
        invariant
            from <= at <= len == bytes@.len(),
            end == digits_end(bytes@, from as int),
            end == digits_end(bytes@, at as int),
            from <= end <= len,
            all_digits(bytes@.subrange(from as int, end)),
            match value {
                Some(v) => v == digits_value(bytes@.subrange(from as int, at as int)),
                None => digits_value(bytes@.subrange(from as int, at as int)) > u64::MAX,
            },
        decreases len - at,
    {
        let digit: u64 = (bytes[at] - ZERO) as u64;
        proof {
            let longer = bytes@.subrange(from as int, at + 1);
            assert(longer.drop_last() =~= bytes@.subrange(from as int, at as int));
        }
        value =
        match value {
            Some(v) => {
                if v > (u64::MAX - digit) / 10 {
                    None
                } else {
                    Some(v * 10 + digit)
                }
            },
            None => None,
        };
        at += 1;
    }
    (at, value)
}

} // verus!
