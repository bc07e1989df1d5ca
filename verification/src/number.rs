//! Decimal integers in command line arguments and RPC results.

use crate::text::{decimal, digit_char, digits, to_chars};
use vstd::prelude::*;

verus! {

/// Why a text is not an integer of the wanted type.
#[derive(Debug, Clone, Copy, PartialEq, Eq, Structural)]
pub enum IntError {
    Empty,
    InvalidDigit,
    PosOverflow,
    NegOverflow,
}

impl IntError {
    /// The wording shown to the user.
    pub open spec fn text(self) -> Seq<char> {
        match self {
            IntError::Empty => "cannot parse integer from empty string"@,
            IntError::InvalidDigit => "invalid digit found in string"@,
            IntError::PosOverflow => "number too large to fit in target type"@,
            IntError::NegOverflow => "number too small to fit in target type"@,
        }
    }

    /// Words the error for the user.
    pub fn message(self) -> (r: String)
        ensures
            r@ == self.text(),
    {
        match self {
            IntError::Empty => "cannot parse integer from empty string".to_owned(),
            IntError::InvalidDigit => "invalid digit found in string".to_owned(),
            IntError::PosOverflow => "number too large to fit in target type".to_owned(),
            IntError::NegOverflow => "number too small to fit in target type".to_owned(),
        }
    }
}

/// Whether `c` is a decimal digit.
pub open spec fn is_digit(c: char) -> bool {
    '0' <= c && c <= '9'
}

/// Whether `s` holds decimal digits only.
pub open spec fn all_digits(s: Seq<char>) -> bool {
    forall|i: int| 0 <= i < s.len() ==> is_digit(#[trigger] s[i])
}

/// The number that a row of decimal digits denotes.
pub open spec fn digits_value(s: Seq<char>) -> int
    decreases s.len(),
{
    if s.len() == 0 {
        0
    } else {
        digits_value(s.drop_last()) * 10 + (s.last() as int - 48)
    }
}

/// Whether `s` starts with a row of digits that denotes more than `max`.
pub open spec fn starts_above(s: Seq<char>, max: int) -> bool {
    exists|i: int|
        0 <= i <= s.len() && all_digits(#[trigger] s.take(i)) && digits_value(s.take(i)) > max
}

/// The number up to `max` that `s` denotes. An overflow counts where it comes before the first
/// character that is no digit.
pub open spec fn magnitude(s: Seq<char>, max: int, over: IntError) -> Result<int, IntError> {
    if starts_above(s, max) {
        Err(over)
    } else if all_digits(s) {
        Ok(digits_value(s))
    } else {
        Err(IntError::InvalidDigit)
    }
}

/// The number from 0 to `max` that `s` denotes, with an optional plus sign.
pub open spec fn unsigned(s: Seq<char>, max: int) -> Result<int, IntError> {
    if s.len() == 0 {
        Err(IntError::Empty)
    } else if s.len() > 1 && s[0] == '+' {
        magnitude(s.drop_first(), max, IntError::PosOverflow)
    } else {
        magnitude(s, max, IntError::PosOverflow)
    }
}

/// The number from `min` to `max` that `s` denotes, with an optional sign.
pub open spec fn signed(s: Seq<char>, min: int, max: int) -> Result<int, IntError> {
    if s.len() > 1 && s[0] == '-' {
        match magnitude(s.drop_first(), -min, IntError::NegOverflow) {
            Ok(v) => Ok(-v),
            Err(e) => Err(e),
        }
    } else {
        unsigned(s, max)
    }
}

/// Reads the digits of `x` from `start` on.
fn scan(x: &Vec<char>, start: usize, max: u64, over: IntError) -> (r: Result<u64, IntError>)
    requires
        start <= x.len(),
    ensures
        match r {
            Ok(v) => magnitude(x@.skip(start as int), max as int, over) == Ok::<int, IntError>(
                v as int,
            ),
            Err(e) => magnitude(x@.skip(start as int), max as int, over) == Err::<int, IntError>(e),
        },
{
    let ghost s = x@.skip(start as int);
    let mut acc: u64 = 0;
    let mut i: usize = start;
    while i < x.len()
        invariant
            start <= i <= x.len(),
            s == x@.skip(start as int),
            all_digits(s.take(i - start)),
            digits_value(s.take(i - start)) == acc,
            acc <= max,
            forall|k: int| 0 <= k <= i - start ==> digits_value(#[trigger] s.take(k)) <= max,
        decreases x.len() - i,
    {
        let c = x[i];
        let ghost n = i - start;
        assert(s.take(n + 1).drop_last() =~= s.take(n));
        assert(s.take(n + 1).last() == c);
        if c < '0' || c > '9' {
            assert(!is_digit(s[n]));
            assert forall|k: int| 0 <= k <= s.len() && all_digits(#[trigger] s.take(k)) implies
                digits_value(s.take(k)) <= max by {
                if k > n {
                    assert(is_digit(s.take(k)[n]));
                }
            }
            return Err(IntError::InvalidDigit);
        }
        let d: u64 = c as u64 - 48;
        let v: u128 = acc as u128 * 10 + d as u128;
        assert(digits_value(s.take(n + 1)) == v);
        assert(all_digits(s.take(n + 1))) by {
            assert forall|k: int| 0 <= k < n + 1 implies is_digit(#[trigger] s.take(n + 1)[k]) by {
                if k < n {
                    assert(is_digit(s.take(n)[k]));
                }
            }
        }
        if v > max as u128 {
            return Err(over);
        }
        acc = v as u64;
        i += 1;
    }
    assert(s.take(s.len() as int) =~= s);
    Ok(acc)
}

/// Reads a `u64`.
pub fn parse_u64(s: &str) -> (r: Result<u64, IntError>)
    ensures
        match r {
            Ok(v) => unsigned(s@, u64::MAX as int) == Ok::<int, IntError>(v as int),
            Err(e) => unsigned(s@, u64::MAX as int) == Err::<int, IntError>(e),
        },
{
    let x = to_chars(s);
    if x.len() == 0 {
        return Err(IntError::Empty);
    }
    if x.len() > 1 && x[0] == '+' {
        assert(x@.skip(1) =~= x@.drop_first());
        return scan(&x, 1, u64::MAX, IntError::PosOverflow);
    }
    assert(x@.skip(0) =~= x@);
    scan(&x, 0, u64::MAX, IntError::PosOverflow)
}

/// Reads an `i32`.
pub fn parse_i32(s: &str) -> (r: Result<i32, IntError>)
    ensures
        match r {
            Ok(v) => signed(s@, i32::MIN as int, i32::MAX as int) == Ok::<int, IntError>(v as int),
            Err(e) => signed(s@, i32::MIN as int, i32::MAX as int) == Err::<int, IntError>(e),
        },
{
    let x = to_chars(s);
    if x.len() == 0 {
        return Err(IntError::Empty);
    }
    if x.len() > 1 && x[0] == '-' {
        assert(x@.skip(1) =~= x@.drop_first());
        return match scan(&x, 1, 0x8000_0000, IntError::NegOverflow) {
            Ok(v) => {
                proof {
                    lemma_magnitude_range(x@.drop_first(), 0x8000_0000, IntError::NegOverflow);
                }
                Ok((-(v as i64)) as i32)
            },
            Err(e) => Err(e),
        };
    }
    let start: usize = if x.len() > 1 && x[0] == '+' {
        1
    } else {
        0
    };
    assert(x@.skip(1) =~= x@.drop_first() || start == 0);
    assert(x@.skip(0) =~= x@);
    match scan(&x, start, 0x7fff_ffff, IntError::PosOverflow) {
        Ok(v) => {
            proof {
                lemma_magnitude_range(x@.skip(start as int), 0x7fff_ffff, IntError::PosOverflow);
            }
            Ok(v as i32)
        },
        Err(e) => Err(e),
    }
}

/// A magnitude lies between 0 and the bound.
proof fn lemma_magnitude_range(s: Seq<char>, max: int, over: IntError)
    ensures
        magnitude(s, max, over) matches Ok(v) ==> v <= max,
{
    assert(s.take(s.len() as int) =~= s);
}

/// A row of digits denotes at least as much as each of its beginnings.
proof fn lemma_prefix_value(s: Seq<char>, k: int)
    requires
        all_digits(s),
        0 <= k <= s.len(),
    ensures
        0 <= digits_value(s.take(k)) <= digits_value(s),
    decreases s.len(),
{
    if s.len() > 0 {
        assert(is_digit(s[s.len() - 1]));
        let init = s.drop_last();
        assert forall|i: int| 0 <= i < init.len() implies is_digit(#[trigger] init[i]) by {
            assert(is_digit(s[i]));
        }
        if k == s.len() {
            lemma_prefix_value(init, init.len() as int);
            assert(init.take(init.len() as int) =~= init);
            assert(s.take(k) =~= s);
        } else {
            lemma_prefix_value(init, k);
            assert(init.take(k) =~= s.take(k));
        }
    }
}

/// The digits of a number denote that number.
proof fn lemma_digits_value(n: nat)
    ensures
        digits(n).len() > 0,
        all_digits(digits(n)),
        digits_value(digits(n)) == n,
    decreases n,
{
    if n < 10 {
        let one = seq![digit_char(n as int)];
        assert(one.drop_last() =~= Seq::<char>::empty());
        assert(digits_value(one.drop_last()) == 0);
        assert(digits(n) == one);
    } else {
        lemma_digits_value(n / 10);
        let before = digits(n / 10);
        assert(digits(n).drop_last() =~= before);
        assert forall|i: int| 0 <= i < digits(n).len() implies is_digit(
            #[trigger] digits(n)[i],
        ) by {
            if i < before.len() {
                assert(is_digit(before[i]));
            }
        }
    }
}

/// The digits of a number within the bound are read as that number.
proof fn lemma_magnitude_of_digits(n: nat, max: int, over: IntError)
    requires
        n <= max,
    ensures
        magnitude(digits(n), max, over) == Ok::<int, IntError>(n as int),
{
    lemma_digits_value(n);
    let s = digits(n);
    assert forall|i: int| 0 <= i <= s.len() && all_digits(#[trigger] s.take(i)) implies
        digits_value(s.take(i)) <= max by {
        lemma_prefix_value(s, i);
    }
}

/// Reading undoes decimal notation: the notation of a number between 0 and the bound is read as
/// that number.
pub proof fn law_unsigned_reads_decimal(n: nat, max: int)
    requires
        n <= max,
    ensures
        unsigned(decimal(n as int), max) == Ok::<int, IntError>(n as int),
{
    lemma_magnitude_of_digits(n, max, IntError::PosOverflow);
    lemma_digits_value(n);
    assert(is_digit(digits(n)[0]));
}

/// Reading undoes decimal notation: the notation of a number between the bounds is read as that
/// number.
pub proof fn law_signed_reads_decimal(n: int, min: int, max: int)
    requires
        min <= n <= max,
    ensures
        signed(decimal(n), min, max) == Ok::<int, IntError>(n),
{
    if n < 0 {
        lemma_magnitude_of_digits((-n) as nat, -min, IntError::NegOverflow);
        lemma_digits_value((-n) as nat);
        assert(decimal(n).drop_first() =~= digits((-n) as nat));
    } else {
        law_unsigned_reads_decimal(n as nat, max);
        lemma_digits_value(n as nat);
        assert(is_digit(digits(n as nat)[0]));
    }
}

/// Decimal notation is made of digits, behind a minus sign where there is one.
pub proof fn lemma_decimal_chars(n: int)
    ensures
        forall|i: int|
            0 <= i < decimal(n).len() ==> #[trigger] decimal(n)[i] == '-' || is_digit(
                decimal(n)[i],
            ),
{
    let m = if n < 0 {
        (-n) as nat
    } else {
        n as nat
    };
    lemma_digits_value(m);
    assert forall|i: int| 0 <= i < decimal(n).len() implies #[trigger] decimal(n)[i] == '-'
        || is_digit(decimal(n)[i]) by {
        if n >= 0 {
            assert(is_digit(digits(m)[i]));
        } else if i > 0 {
            assert(is_digit(digits(m)[i - 1]));
        }
    }
}

/// A row of digits denotes its value digit by digit.
pub proof fn law_digits_count_by_tens(s: Seq<char>, d: int)
    requires
        0 <= d <= 9,
    ensures
        digits_value(Seq::<char>::empty()) == 0,
        digits_value(s.push("0123456789"@[d])) == digits_value(s) * 10 + d,
        is_digit("0123456789"@[d]),
{
    reveal_strlit("0123456789");
    assert(s.push("0123456789"@[d]).drop_last() =~= s);
}

/// The text of a number without its sign. A sign alone is no sign.
pub open spec fn unsigned_text(s: Seq<char>, minus: bool) -> Seq<char> {
    if s.len() > 1 && (s[0] == '+' || (minus && s[0] == '-')) {
        s.skip(1)
    } else {
        s
    }
}

/// An `i32` is read from digits with an optional sign: the value is what they denote, and there
/// is none for a text without digits, with anything else in it, or beyond the bounds. Digits that
/// run over the bound are noticed before anything behind them.
pub proof fn law_i32_is_read(s: &str, r: Result<i32, IntError>)
    requires
        call_ensures(parse_i32, (s,), r),
    ensures
        ({
            let t = unsigned_text(s@, true);
            let minus = s@.len() > 1 && s@[0] == '-';
            let value = if minus {
                -digits_value(t)
            } else {
                digits_value(t)
            };
            &&& r matches Ok(v) ==> t.len() > 0 && all_digits(t) && v == value
            &&& t.len() > 0 && all_digits(t) && i32::MIN <= value <= i32::MAX ==> r is Ok
            &&& t.len() > 0 && all_digits(t) && value > i32::MAX ==> r == Err::<i32, IntError>(
                IntError::PosOverflow,
            )
            &&& t.len() > 0 && all_digits(t) && value < i32::MIN ==> r == Err::<i32, IntError>(
                IntError::NegOverflow,
            )
            &&& s@.len() == 0 ==> r == Err::<i32, IntError>(IntError::Empty)
            &&& s@.len() > 0 && !all_digits(t) ==> {
                let bound: int = if minus {
                    0x8000_0000
                } else {
                    0x7fff_ffff
                };
                r == Err::<i32, IntError>(
                    if exists|i: int|
                        0 <= i <= t.len() && all_digits(#[trigger] t.take(i)) && digits_value(
                            t.take(i),
                        ) > bound {
                        if minus {
                            IntError::NegOverflow
                        } else {
                            IntError::PosOverflow
                        }
                    } else {
                        IntError::InvalidDigit
                    },
                )
            }
        }),
{
    let t = unsigned_text(s@, true);
    assert(s@.drop_first() =~= s@.skip(1));
    assert(t.take(t.len() as int) =~= t);
    if all_digits(t) {
        assert forall|i: int| 0 <= i <= t.len() implies digits_value(#[trigger] t.take(i))
            <= digits_value(t) by {
            lemma_prefix_value(t, i);
        }
        lemma_prefix_value(t, 0);
        assert(t.take(0) =~= Seq::<char>::empty());
    }
}

/// A `u64` is read from digits with an optional plus sign.
pub proof fn law_u64_is_read(s: &str, r: Result<u64, IntError>)
    requires
        call_ensures(parse_u64, (s,), r),
    ensures
        ({
            let t = unsigned_text(s@, false);
            &&& r matches Ok(v) ==> t.len() > 0 && all_digits(t) && v == digits_value(t)
            &&& t.len() > 0 && all_digits(t) && digits_value(t) <= u64::MAX ==> r is Ok
            &&& t.len() > 0 && all_digits(t) && digits_value(t) > u64::MAX ==> r == Err::<
                u64,
                IntError,
            >(IntError::PosOverflow)
            &&& s@.len() == 0 ==> r == Err::<u64, IntError>(IntError::Empty)
            &&& s@.len() > 0 && !all_digits(t) ==> r == Err::<u64, IntError>(
                if exists|i: int|
                    0 <= i <= t.len() && all_digits(#[trigger] t.take(i)) && digits_value(t.take(i))
                        > u64::MAX {
                    IntError::PosOverflow
                } else {
                    IntError::InvalidDigit
                },
            )
        }),
{
    let t = unsigned_text(s@, false);
    assert(s@.drop_first() =~= s@.skip(1));
    assert(t.take(t.len() as int) =~= t);
    if all_digits(t) {
        assert forall|i: int| 0 <= i <= t.len() implies digits_value(#[trigger] t.take(i))
            <= digits_value(t) by {
            lemma_prefix_value(t, i);
        }
    }
}

/// Only digits from 0 to 9 count as such.
pub proof fn law_digits_are_listed(c: char)
    ensures
        is_digit(c) <==> exists|d: int| 0 <= d <= 9 && c == #[trigger] "0123456789"@[d],
{
    reveal_strlit("0123456789");
    if is_digit(c) {
        let d = c as int - 48;
        assert(c == "0123456789"@[d]);
    }
}

/// The words for a number that cannot be read are those of the standard library.
pub proof fn law_number_errors_are_worded(e: IntError, r: String)
    requires
        call_ensures(IntError::message, (e,), r),
    ensures
        e is Empty ==> r@ == "cannot parse integer from empty string"@,
        e is InvalidDigit ==> r@ == "invalid digit found in string"@,
        e is PosOverflow ==> r@ == "number too large to fit in target type"@,
        e is NegOverflow ==> r@ == "number too small to fit in target type"@,
{
}

} // verus!
