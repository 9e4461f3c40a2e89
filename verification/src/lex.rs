//! Lexical primitives for the header grammar: hexadecimal and decimal
//! number runs and literal-pattern matching over line bytes.

use crate::scan::is_match_at;
use vstd::prelude::*;

verus! {

/// A lower-case hexadecimal digit, as the header grammar allows.
pub open spec fn is_hex_digit(b: u8) -> bool {
    (48 <= b <= 57) || (97 <= b <= 102)
}

pub open spec fn hex_digit_val(b: u8) -> int
    recommends
        is_hex_digit(b),
{
    if 48 <= b <= 57 {
        b - 48
    } else {
        b - 87
    }
}

pub open spec fn is_dec_digit(b: u8) -> bool {
    48 <= b <= 57
}

/// Length of the maximal run of hexadecimal digits starting at `from`.
pub open spec fn hex_run_len(s: Seq<u8>, from: int) -> int
    decreases s.len() - from,
{
    if 0 <= from < s.len() && is_hex_digit(s[from]) {
        1 + hex_run_len(s, from + 1)
    } else {
        0
    }
}

/// Length of the maximal run of decimal digits starting at `from`.
pub open spec fn dec_run_len(s: Seq<u8>, from: int) -> int
    decreases s.len() - from,
{
    if 0 <= from < s.len() && is_dec_digit(s[from]) {
        1 + dec_run_len(s, from + 1)
    } else {
        0
    }
}

/// The value of a big-endian string of hexadecimal digits.
pub open spec fn hex_value_of(s: Seq<u8>) -> int
    decreases s.len(),
{
    if s.len() == 0 {
        0
    } else {
        hex_value_of(s.drop_last()) * 16 + hex_digit_val(s.last())
    }
}

/// The value of a big-endian string of decimal digits.
pub open spec fn dec_value_of(s: Seq<u8>) -> int
    decreases s.len(),
{
    if s.len() == 0 {
        0
    } else {
        dec_value_of(s.drop_last()) * 10 + (s.last() - 48)
    }
}

/// The run is within bounds.
pub proof fn lemma_hex_run_in_bounds(s: Seq<u8>, from: int)
    requires
        0 <= from <= s.len(),
    ensures
        from + hex_run_len(s, from) <= s.len(),
        hex_run_len(s, from) >= 0,
    decreases s.len() - from,
{
    if from < s.len() && is_hex_digit(s[from]) {
        lemma_hex_run_in_bounds(s, from + 1);
    }
}

pub proof fn lemma_dec_run_in_bounds(s: Seq<u8>, from: int)
    requires
        0 <= from <= s.len(),
    ensures
        from + dec_run_len(s, from) <= s.len(),
        dec_run_len(s, from) >= 0,
    decreases s.len() - from,
{
    if from < s.len() && is_dec_digit(s[from]) {
        lemma_dec_run_in_bounds(s, from + 1);
    }
}

proof fn lemma_hex_value_nonneg(s: Seq<u8>)
    requires
        forall|i: int| 0 <= i < s.len() ==> is_hex_digit(#[trigger] s[i]),
    ensures
        hex_value_of(s) >= 0,
    decreases s.len(),
{
    if s.len() > 0 {
        assert forall|i: int| 0 <= i < s.drop_last().len() implies is_hex_digit(
            #[trigger] s.drop_last()[i],
        ) by {
            assert(s.drop_last()[i] == s[i]);
        }
        lemma_hex_value_nonneg(s.drop_last());
    }
}

proof fn lemma_dec_value_nonneg(s: Seq<u8>)
    requires
        forall|i: int| 0 <= i < s.len() ==> is_dec_digit(#[trigger] s[i]),
    ensures
        dec_value_of(s) >= 0,
    decreases s.len(),
{
    if s.len() > 0 {
        assert forall|i: int| 0 <= i < s.drop_last().len() implies is_dec_digit(
            #[trigger] s.drop_last()[i],
        ) by {
            assert(s.drop_last()[i] == s[i]);
        }
        lemma_dec_value_nonneg(s.drop_last());
    }
}

/// Whether a byte is a lower-case hexadecimal digit.
pub fn hex_byte(b: u8) -> (r: bool)
    ensures
        r == is_hex_digit(b),
{
    (48 <= b && b <= 57) || (97 <= b && b <= 102)
}

/// Whether a byte is a decimal digit.
pub fn dec_byte(b: u8) -> (r: bool)
    ensures
        r == is_dec_digit(b),
{
    48 <= b && b <= 57
}

/// Whether `pat` occurs at position `i` of `line`, checked byte by byte.
pub fn bytes_match_at(line: &[u8], pat: &[u8], i: usize) -> (r: bool)
    ensures
        r == is_match_at(line@, pat@, i as int),
{
    if line.len() < pat.len() || i > line.len() - pat.len() {
        return false;
    }
    let mut k: usize = 0;
    while k < pat.len()
        invariant
            line@.len() <= usize::MAX,
            i + pat@.len() <= line@.len(),
            k <= pat@.len(),
            forall|j: int| 0 <= j < k ==> line@[i + j] == pat@[j],
        decreases pat@.len() - k,
    {
        if *vstd::slice::slice_index_get(line, i + k) != *vstd::slice::slice_index_get(pat, k) {
            proof {
                assert(line@.subrange(i as int, i + pat@.len())[k as int] == line@[i + k]);
            }
            return false;
        }
        k = k + 1;
    }
    proof {
        assert(line@.subrange(i as int, i + pat@.len()) =~= pat@);
    }
    true
}

/// Measure the run of hexadecimal digits starting at `from`.
pub fn hex_run(line: &[u8], from: usize) -> (r: usize)
    requires
        from <= line@.len(),
    ensures
        r == hex_run_len(line@, from as int),
        from + r <= line@.len(),
        forall|j: int| from <= j < from + r ==> is_hex_digit(#[trigger] line@[j]),
{
    proof {
        lemma_hex_run_in_bounds(line@, from as int);
    }
    let mut i: usize = from;
    while i < line.len() && hex_byte(*vstd::slice::slice_index_get(line, i))
        invariant
            from <= i <= line@.len(),
            forall|j: int| from <= j < i ==> is_hex_digit(#[trigger] line@[j]),
            hex_run_len(line@, from as int) == (i - from) + hex_run_len(line@, i as int),
        decreases line@.len() - i,
    {
        i = i + 1;
    }
    proof {
        assert(hex_run_len(line@, i as int) == 0);
    }
    i - from
}

/// Measure the run of decimal digits starting at `from`.
pub fn dec_run(line: &[u8], from: usize) -> (r: usize)
    requires
        from <= line@.len(),
    ensures
        r == dec_run_len(line@, from as int),
        from + r <= line@.len(),
        forall|j: int| from <= j < from + r ==> is_dec_digit(#[trigger] line@[j]),
{
    proof {
        lemma_dec_run_in_bounds(line@, from as int);
    }
    let mut i: usize = from;
    while i < line.len() && dec_byte(*vstd::slice::slice_index_get(line, i))
        invariant
            from <= i <= line@.len(),
            forall|j: int| from <= j < i ==> is_dec_digit(#[trigger] line@[j]),
            dec_run_len(line@, from as int) == (i - from) + dec_run_len(line@, i as int),
        decreases line@.len() - i,
    {
        i = i + 1;
    }
    proof {
        assert(dec_run_len(line@, i as int) == 0);
    }
    i - from
}

proof fn lemma_mul16_div(x: int)
    requires
        x >= 0,
    ensures
        x - 15 <= 16 * (x / 16) <= x,
{
    assert(x - 15 <= 16 * (x / 16) <= x) by (nonlinear_arith)
        requires
            x >= 0,
    ;
}

proof fn lemma_mul10_div(x: int)
    requires
        x >= 0,
    ensures
        x - 9 <= 10 * (x / 10) <= x,
{
    assert(x - 9 <= 10 * (x / 10) <= x) by (nonlinear_arith)
        requires
            x >= 0,
    ;
}

/// The value of the hexadecimal run `line[from .. from + n]`, or `None` when
/// it does not fit in 64 bits.
pub fn hex_value(line: &[u8], from: usize, n: usize) -> (r: Option<u64>)
    requires
        from + n <= line@.len(),
        forall|j: int| from <= j < from + n ==> is_hex_digit(#[trigger] line@[j]),
    ensures
        match r {
            Some(v) => v == hex_value_of(line@.subrange(from as int, from + n)),
            None => hex_value_of(line@.subrange(from as int, from + n)) > u64::MAX,
        },
{
    let len = line.len();
    proof {
        assert(line@.len() == len);
    }
    let ghost digits = line@.subrange(from as int, from + n);
    let mut v: u64 = 0;
    let mut over: bool = false;
    let mut i: usize = 0;
    while i < n
        invariant
            line@.len() <= usize::MAX,
            from + n <= line@.len(),
            digits == line@.subrange(from as int, from + n),
            forall|j: int| 0 <= j < digits.len() ==> is_hex_digit(#[trigger] digits[j]),
            i <= n,
            digits.len() == n,
            !over ==> v == hex_value_of(digits.take(i as int)),
            over ==> hex_value_of(digits.take(i as int)) > u64::MAX,
        decreases n - i,
    {
        proof {
            assert(digits[i as int] == line@[from + i]);
            assert(is_hex_digit(line@[from + i]));
        }
        let b = *vstd::slice::slice_index_get(line, from + i);
        let d: u64 = if b <= 57 {
            (b - 48) as u64
        } else {
            (b - 87) as u64
        };
        proof {
            assert(d == hex_digit_val(digits[i as int]));
            assert(digits.take(i + 1).drop_last() =~= digits.take(i as int));
            assert(hex_value_of(digits.take(i + 1)) == hex_value_of(digits.take(i as int)) * 16
                + hex_digit_val(digits[i as int]));
        }
        if over {
            proof {
                assert forall|j: int| 0 <= j < digits.take(i as int).len() implies is_hex_digit(
                    #[trigger] digits.take(i as int)[j],
                ) by {
                    assert(digits.take(i as int)[j] == digits[j]);
                }
                lemma_hex_value_nonneg(digits.take(i as int));
            }
        } else if v > (u64::MAX - d) / 16 {
            over = true;
            proof {
                lemma_mul16_div((u64::MAX - d) as int);
            }
        } else {
            proof {
                lemma_mul16_div((u64::MAX - d) as int);
                assert(16 * (v as int) <= 16 * (((u64::MAX - d) / 16) as int)) by (nonlinear_arith)
                    requires
                        v as int <= ((u64::MAX - d) / 16) as int,
                ;
            }
            v = v * 16 + d;
        }
        i = i + 1;
    }
    proof {
        assert(digits.take(n as int) =~= digits);
    }
    if over {
        None
    } else {
        Some(v)
    }
}

/// The value of the decimal run `line[from .. from + n]`, or `None` when it
/// does not fit in a `usize`.
pub fn dec_value(line: &[u8], from: usize, n: usize) -> (r: Option<usize>)
    requires
        from + n <= line@.len(),
        forall|j: int| from <= j < from + n ==> is_dec_digit(#[trigger] line@[j]),
    ensures
        match r {
            Some(v) => v == dec_value_of(line@.subrange(from as int, from + n)),
            None => dec_value_of(line@.subrange(from as int, from + n)) > usize::MAX,
        },
{
    let len = line.len();
    proof {
        assert(line@.len() == len);
    }
    let ghost digits = line@.subrange(from as int, from + n);
    let mut v: usize = 0;
    let mut over: bool = false;
    let mut i: usize = 0;
    while i < n
        invariant
            line@.len() <= usize::MAX,
            from + n <= line@.len(),
            digits == line@.subrange(from as int, from + n),
            forall|j: int| 0 <= j < digits.len() ==> is_dec_digit(#[trigger] digits[j]),
            i <= n,
            digits.len() == n,
            !over ==> v == dec_value_of(digits.take(i as int)),
            over ==> dec_value_of(digits.take(i as int)) > usize::MAX,
        decreases n - i,
    {
        proof {
            assert(digits[i as int] == line@[from + i]);
            assert(is_dec_digit(line@[from + i]));
        }
        let b = *vstd::slice::slice_index_get(line, from + i);
        let d: usize = (b - 48) as usize;
        proof {
            assert(digits.take(i + 1).drop_last() =~= digits.take(i as int));
            assert(dec_value_of(digits.take(i + 1)) == dec_value_of(digits.take(i as int)) * 10 + (
            digits[i as int] - 48));
        }
        if over {
            proof {
                assert forall|j: int| 0 <= j < digits.take(i as int).len() implies is_dec_digit(
                    #[trigger] digits.take(i as int)[j],
                ) by {
                    assert(digits.take(i as int)[j] == digits[j]);
                }
                lemma_dec_value_nonneg(digits.take(i as int));
            }
        } else if v > (usize::MAX - d) / 10 {
            over = true;
            proof {
                lemma_mul10_div((usize::MAX - d) as int);
            }
        } else {
            proof {
                lemma_mul10_div((usize::MAX - d) as int);
                assert(10 * (v as int) <= 10 * (((usize::MAX - d) / 10) as int))
                    by (nonlinear_arith)
                    requires
                        v as int <= ((usize::MAX - d) / 10) as int,
                ;
            }
            v = v * 10 + d;
        }
        i = i + 1;
    }
    proof {
        assert(digits.take(n as int) =~= digits);
    }
    if over {
        None
    } else {
        Some(v)
    }
}

} // verus!
