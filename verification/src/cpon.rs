//! Which Cpon texts can be read and packed.
//!
//! The reader of `shvproto` takes the number of decimals from the exponent of a number without a
//! check, so with an exponent near the lowest `i64` the difference overflows. The functions here
//! follow a text value by value, as that reader does, to tell whether it comes to such a number.

use crate::number::{all_digits, digits_value, is_digit};
use crate::text::{contains, holds, text_outcome, to_chars};
use crate::walk::{decimal_fits, is_decimal_fitting, mantissa_fits, Walk};
use shvproto::{DateTime, RpcValue};
use vstd::prelude::*;

verus! {

/// The place behind a comment whose text begins at `i` and that ends with `*/`.
pub open spec fn block_comment(s: Seq<char>, i: int) -> Walk<int>
    decreases s.len() - i,
{
    if i < 0 || i >= s.len() {
        Walk::Failed
    } else if s[i] != '*' {
        block_comment(s, i + 1)
    } else if i + 1 >= s.len() {
        Walk::Failed
    } else if s[i + 1] == '/' {
        Walk::At(i + 2)
    } else {
        block_comment(s, i + 2)
    }
}

/// The place behind a comment whose text begins at `i` and that ends with its line.
pub open spec fn line_comment(s: Seq<char>, i: int) -> Walk<int>
    decreases s.len() - i,
{
    if i < 0 || i >= s.len() {
        Walk::Failed
    } else if s[i] == '\n' {
        Walk::At(i + 1)
    } else {
        line_comment(s, i + 1)
    }
}

/// The place behind the comment that begins at `i`.
pub open spec fn comment(s: Seq<char>, i: int) -> Walk<int> {
    if i + 1 >= s.len() {
        Walk::Failed
    } else if s[i + 1] == '*' {
        block_comment(s, i + 2)
    } else if s[i + 1] == '/' {
        line_comment(s, i + 2)
    } else {
        Walk::Failed
    }
}

/// Whether a character only keeps values apart.
pub open spec fn between(c: char) -> bool {
    c <= ' ' || c == ':' || c == ','
}

/// The place from `i` on where something other than space, separators and comments stands.
pub open spec fn skipped(s: Seq<char>, i: int) -> Walk<int>
    decreases s.len() - i,
{
    if i < 0 || i >= s.len() {
        Walk::Failed
    } else if between(s[i]) {
        skipped(s, i + 1)
    } else if s[i] != '/' {
        Walk::At(i)
    } else {
        match comment(s, i) {
            Walk::At(k) => if i < k <= s.len() {
                skipped(s, k)
            } else {
                Walk::Failed
            },
            end => end,
        }
    }
}

fn skip_comment(s: &Vec<char>, i: usize) -> (r: Walk<usize>)
    requires
        i < s.len(),
    ensures
        r.place() == comment(s@, i as int),
        r matches Walk::At(k) ==> i < k <= s.len(),
{
    if s.len() - i < 2 {
        return Walk::Failed;
    }
    let mut k: usize = i + 2;
    if s[i + 1] == '*' {
        while k < s.len()
            invariant
                i + 2 <= k <= s.len(),
                comment(s@, i as int) == block_comment(s@, k as int),
            decreases s.len() - k,
        {
            if s[k] != '*' {
                k += 1;
            } else if s.len() - k < 2 {
                return Walk::Failed;
            } else if s[k + 1] == '/' {
                return Walk::At(k + 2);
            } else {
                k += 2;
            }
        }
        Walk::Failed
    } else if s[i + 1] == '/' {
        while k < s.len()
            invariant
                i + 2 <= k <= s.len(),
                comment(s@, i as int) == line_comment(s@, k as int),
            decreases s.len() - k,
        {
            if s[k] == '\n' {
                return Walk::At(k + 1);
            }
            k += 1;
        }
        Walk::Failed
    } else {
        Walk::Failed
    }
}

/// Goes on from `i` to where something other than space, separators and comments stands.
fn skip(s: &Vec<char>, i: usize) -> (r: Walk<usize>)
    requires
        i <= s.len(),
    ensures
        r.place() == skipped(s@, i as int),
        r matches Walk::At(k) ==> i <= k < s.len(),
{
    let mut k: usize = i;
    while k < s.len()
        invariant
            i <= k <= s.len(),
            skipped(s@, i as int) == skipped(s@, k as int),
        decreases s.len() - k,
    {
        let c = s[k];
        if c <= ' ' || c == ':' || c == ',' {
            k += 1;
        } else if c != '/' {
            return Walk::At(k);
        } else {
            match skip_comment(s, k) {
                Walk::At(m) => {
                    k = m;
                },
                end => {
                    return end;
                },
            }
        }
    }
    Walk::Failed
}

/// The place behind a text whose characters begin at `i`.
pub open spec fn text_end(s: Seq<char>, i: int) -> Walk<int>
    decreases s.len() - i,
{
    if i < 0 || i >= s.len() {
        Walk::Failed
    } else if s[i] == '"' {
        Walk::At(i + 1)
    } else if s[i] != '\\' {
        text_end(s, i + 1)
    } else if i + 1 >= s.len() {
        Walk::Failed
    } else {
        text_end(s, i + 2)
    }
}

/// The character that an escaped one stands for.
pub open spec fn escaped(c: char) -> char {
    if c == 'n' {
        '\n'
    } else if c == 'r' {
        '\r'
    } else if c == 't' {
        '\t'
    } else if c == '0' {
        '\0'
    } else {
        c
    }
}

/// The text whose characters begin at `i`.
pub open spec fn text_from(s: Seq<char>, i: int) -> Seq<char>
    decreases s.len() - i,
{
    if i < 0 || i >= s.len() || s[i] == '"' {
        Seq::<char>::empty()
    } else if s[i] != '\\' {
        seq![s[i]] + text_from(s, i + 1)
    } else if i + 1 >= s.len() {
        Seq::<char>::empty()
    } else {
        seq![escaped(s[i + 1])] + text_from(s, i + 2)
    }
}

/// The place behind the text at `i`. Whatever stands at `i` is taken for its quote; behind half
/// of a character there is no text.
pub open spec fn text_walk(s: Seq<char>, i: int) -> Walk<int> {
    if i >= s.len() || s[i] > '\u{7f}' {
        Walk::Failed
    } else {
        text_end(s, i + 1)
    }
}

/// Walks over the text at `i` and gives what it says.
fn walk_text(s: &Vec<char>, i: usize) -> (r: (Walk<usize>, String))
    requires
        i <= s.len(),
    ensures
        r.0.place() == text_walk(s@, i as int),
        r.0 matches Walk::At(k) ==> i < k <= s.len(),
        r.0 is At ==> r.1@ == text_from(s@, i + 1),
{
    let mut t = String::new();
    if i >= s.len() || s[i] > '\u{7f}' {
        return (Walk::Failed, t);
    }
    let mut k: usize = i + 1;
    assert(text_from(s@, i + 1) =~= t@ + text_from(s@, k as int));
    while k < s.len()
        invariant
            i < k <= s.len(),
            text_walk(s@, i as int) == text_end(s@, k as int),
            text_from(s@, i + 1) == t@ + text_from(s@, k as int),
        decreases s.len() - k,
    {
        let ghost before = t@;
        let c = s[k];
        if c == '"' {
            assert(text_from(s@, i + 1) =~= t@);
            return (Walk::At(k + 1), t);
        } else if c != '\\' {
            t.push(c);
            assert(before + (seq![c] + text_from(s@, k + 1)) =~= t@ + text_from(s@, k + 1));
            k += 1;
        } else if s.len() - k < 2 {
            return (Walk::Failed, t);
        } else {
            let e = s[k + 1];
            let d = if e == 'n' {
                '\n'
            } else if e == 'r' {
                '\r'
            } else if e == 't' {
                '\t'
            } else if e == '0' {
                '\0'
            } else {
                e
            };
            t.push(d);
            assert(before + (seq![d] + text_from(s@, k + 2)) =~= t@ + text_from(s@, k + 2));
            k += 2;
        }
    }
    (Walk::Failed, t)
}

/// Whether `c` is a hexadecimal digit.
pub open spec fn hex_digit(c: char) -> bool {
    ('0' <= c && c <= '9') || ('a' <= c && c <= 'f') || ('A' <= c && c <= 'F')
}

fn is_hex_digit(c: char) -> (r: bool)
    ensures
        r == hex_digit(c),
{
    ('0' <= c && c <= '9') || ('a' <= c && c <= 'f') || ('A' <= c && c <= 'F')
}

/// Whether `c` is escaped by itself in a blob.
pub open spec fn blob_escape(c: char) -> bool {
    c == '\\' || c == '"' || c == 'n' || c == 'r' || c == 't'
}

/// The place behind a blob whose characters begin at `i`.
pub open spec fn blob_end(s: Seq<char>, i: int) -> Walk<int>
    decreases s.len() - i,
{
    if i < 0 || i >= s.len() {
        Walk::Failed
    } else if s[i] == '"' {
        Walk::At(i + 1)
    } else if s[i] != '\\' {
        blob_end(s, i + 1)
    } else if i + 1 >= s.len() {
        Walk::Failed
    } else if blob_escape(s[i + 1]) {
        blob_end(s, i + 2)
    } else if i + 2 < s.len() && hex_digit(s[i + 1]) && hex_digit(s[i + 2]) {
        blob_end(s, i + 3)
    } else {
        Walk::Failed
    }
}

/// The place behind a blob in hexadecimal digits that begin at `i`.
pub open spec fn hex_end(s: Seq<char>, i: int) -> Walk<int>
    decreases s.len() - i,
{
    if i < 0 || i >= s.len() {
        Walk::Failed
    } else if s[i] <= ' ' {
        hex_end(s, i + 1)
    } else if s[i] == '"' {
        Walk::At(i + 1)
    } else if i + 1 < s.len() && hex_digit(s[i]) && hex_digit(s[i + 1]) {
        hex_end(s, i + 2)
    } else {
        Walk::Failed
    }
}

/// The place behind the blob at `i`. Whatever stands behind its letter is taken for its quote.
pub open spec fn blob_walk(s: Seq<char>, i: int) -> Walk<int> {
    if i + 1 >= s.len() {
        Walk::Failed
    } else if s[i] == 'b' {
        blob_end(s, i + 2)
    } else if s[i + 1] > '\u{7f}' {
        Walk::Failed
    } else {
        hex_end(s, i + 2)
    }
}

fn walk_blob(s: &Vec<char>, i: usize) -> (r: Walk<usize>)
    requires
        i < s.len(),
    ensures
        r.place() == blob_walk(s@, i as int),
        r matches Walk::At(k) ==> i < k <= s.len(),
{
    if s.len() - i < 2 {
        return Walk::Failed;
    }
    let mut k: usize = i + 2;
    if s[i] == 'b' {
        while k < s.len()
            invariant
                i + 2 <= k <= s.len(),
                blob_walk(s@, i as int) == blob_end(s@, k as int),
            decreases s.len() - k,
        {
            if s[k] == '"' {
                return Walk::At(k + 1);
            }
            if s[k] != '\\' {
                k += 1;
                continue;
            }
            if s.len() - k < 2 {
                return Walk::Failed;
            }
            let c = s[k + 1];
            if c == '\\' || c == '"' || c == 'n' || c == 'r' || c == 't' {
                k += 2;
            } else if s.len() - k > 2 && is_hex_digit(c) && is_hex_digit(s[k + 2]) {
                k += 3;
            } else {
                return Walk::Failed;
            }
        }
        return Walk::Failed;
    }
    if s[i + 1] > '\u{7f}' {
        return Walk::Failed;
    }
    while k < s.len()
        invariant
            i + 2 <= k <= s.len(),
            blob_walk(s@, i as int) == hex_end(s@, k as int),
        decreases s.len() - k,
    {
        if s[k] <= ' ' {
            k += 1;
        } else if s[k] == '"' {
            return Walk::At(k + 1);
        } else if s.len() - k > 1 && is_hex_digit(s[k]) && is_hex_digit(s[k + 1]) {
            k += 2;
        } else {
            return Walk::Failed;
        }
    }
    Walk::Failed
}

/// The place behind the word that should stand at `i`.
pub open spec fn word_walk(s: Seq<char>, i: int, word: Seq<char>) -> Walk<int> {
    if i + word.len() <= s.len() && s.subrange(i, i + word.len()) == word {
        Walk::At(i + word.len())
    } else {
        Walk::Failed
    }
}

fn walk_word(s: &Vec<char>, i: usize, word: &str) -> (r: Walk<usize>)
    requires
        i <= s.len(),
        word@.len() > 0,
    ensures
        r.place() == word_walk(s@, i as int, word@),
        r matches Walk::At(k) ==> i < k <= s.len(),
{
    let w = to_chars(word);
    if w.len() > s.len() - i {
        return Walk::Failed;
    }
    let mut k: usize = 0;
    while k < w.len()
        invariant
            w@ == word@,
            i + w.len() <= s.len(),
            k <= w.len(),
            forall|m: int| 0 <= m < k ==> s@[i + m] == w@[m],
        decreases w@.len() - k,
    {
        if s[i + k] != w[k] {
            assert(s@.subrange(i as int, i + word@.len())[k as int] != word@[k as int]);
            return Walk::Failed;
        }
        k += 1;
    }
    assert(s@.subrange(i as int, i + word@.len()) =~= word@);
    Walk::At(i + w.len())
}

/// A number that is being read: the place that is reached, the base, the value so far, the
/// characters and the digits that went into it, whether it has a minus sign, and whether more
/// digits came than fit in `i64`.
pub struct Number {
    pub pos: int,
    pub base: int,
    pub value: int,
    pub chars: int,
    pub digits: int,
    pub negative: bool,
    pub large: bool,
}

/// A number to be read from `pos` on, behind digits of this value.
pub open spec fn number_from(pos: int, value: int) -> Number {
    Number { pos, base: 10, value, chars: 0, digits: 0, negative: false, large: false }
}

/// The value of a digit in this base, if it is one.
pub open spec fn digit_value(c: char, base: int) -> Option<int> {
    if '0' <= c && c <= '9' {
        Some(c as int - 48)
    } else if base == 16 && 'a' <= c && c <= 'f' {
        Some(c as int - 87)
    } else if base == 16 && 'A' <= c && c <= 'F' {
        Some(c as int - 55)
    } else {
        None
    }
}

/// A number with one more digit. Digits that do not fit are not counted.
pub open spec fn with_digit(n: Number, digit: int) -> Number {
    let value = n.value * n.base + digit;
    if n.large || value > i64::MAX {
        Number { pos: n.pos + 1, chars: n.chars + 1, large: true, ..n }
    } else {
        Number { pos: n.pos + 1, chars: n.chars + 1, digits: n.digits + 1, value, ..n }
    }
}

/// What reading a number leads to.
pub enum Reading<N> {
    Done(N),
    Failed,
    Over,
}

/// The most characters of a number that the reader can count.
pub const MOST_CHARS: usize = 0x7fff_ffff;

/// A number read to its end. A sign may stand before it where `signed` allows it, and an `x` as
/// the second character makes it hexadecimal.
pub open spec fn number_read(s: Seq<char>, n: Number, signed: bool) -> Reading<Number>
    decreases s.len() - n.pos,
{
    if n.pos < 0 || n.pos >= s.len() {
        Reading::Done(n)
    } else {
        let c = s[n.pos];
        let sign = c == '+' || c == '-';
        let mark = c == 'x' || c == 'X';
        if sign && n.chars == 0 && !signed {
            Reading::Failed
        } else if (sign && n.chars != 0) || (mark && (n.chars != 1 || n.value != 0)) || (!sign
            && !mark && digit_value(c, n.base) is None) {
            Reading::Done(n)
        } else if n.chars >= MOST_CHARS {
            Reading::Over
        } else if sign {
            number_read(
                s,
                Number { pos: n.pos + 1, chars: n.chars + 1, negative: c == '-', ..n },
                signed,
            )
        } else if mark {
            number_read(s, Number { pos: n.pos + 1, chars: n.chars + 1, base: 16, ..n }, signed)
        } else {
            number_read(s, with_digit(n, digit_value(c, n.base)->0), signed)
        }
    }
}

/// A number that was read.
struct Scanned {
    pos: usize,
    value: u64,
    digits: usize,
    negative: bool,
    large: bool,
}

impl Scanned {
    /// Whether this is the number `n`.
    spec fn is(self, n: Number) -> bool {
        &&& n.pos == self.pos
        &&& n.value == self.value
        &&& n.digits == self.digits
        &&& n.negative == self.negative
        &&& n.large == self.large
    }
}

/// Reads a number from `pos` on, behind digits of this value.
fn scan_number(s: &Vec<char>, pos: usize, value: u64, signed: bool) -> (r: Reading<Scanned>)
    requires
        pos <= s.len(),
        value <= i64::MAX,
    ensures
        match (number_read(s@, number_from(pos as int, value as int), signed), r) {
            (Reading::Done(n), Reading::Done(m)) => m.is(n),
            (Reading::Failed, Reading::Failed) => true,
            (Reading::Over, Reading::Over) => true,
            _ => false,
        },
        r matches Reading::Done(m) ==> {
            &&& pos <= m.pos <= s.len()
            &&& m.value <= i64::MAX
            &&& m.digits <= m.pos - pos
            &&& m.digits > 0 ==> pos < m.pos
        },
{
    let mut at: usize = pos;
    let mut base: u64 = 10;
    let mut v: u64 = value;
    let mut digits: usize = 0;
    let mut negative = false;
    let mut large = false;
    while at < s.len()
        invariant
            pos <= at <= s.len(),
            base == 10 || base == 16,
            value <= i64::MAX,
            v <= i64::MAX,
            digits <= at - pos,
            number_read(s@, number_from(pos as int, value as int), signed) == number_read(
                s@,
                Number {
                    pos: at as int,
                    base: base as int,
                    value: v as int,
                    chars: at - pos,
                    digits: digits as int,
                    negative,
                    large,
                },
                signed,
            ),
        decreases s.len() - at,
    {
        let c = s[at];
        let chars: usize = at - pos;
        if c == '+' || c == '-' {
            if chars != 0 {
                return Reading::Done(Scanned { pos: at, value: v, digits, negative, large });
            }
            if !signed {
                return Reading::Failed;
            }
            negative = c == '-';
        } else if c == 'x' || c == 'X' {
            if chars != 1 || v != 0 {
                return Reading::Done(Scanned { pos: at, value: v, digits, negative, large });
            }
            if chars >= MOST_CHARS {
                return Reading::Over;
            }
            base = 16;
        } else {
            let d: u64 = if '0' <= c && c <= '9' {
                c as u64 - 48
            } else if base == 16 && 'a' <= c && c <= 'f' {
                c as u64 - 87
            } else if base == 16 && 'A' <= c && c <= 'F' {
                c as u64 - 55
            } else {
                return Reading::Done(Scanned { pos: at, value: v, digits, negative, large });
            };
            if chars >= MOST_CHARS {
                return Reading::Over;
            }
            let next: u128 = if base == 16 {
                v as u128 * 16 + d as u128
            } else {
                v as u128 * 10 + d as u128
            };
            if large || next > i64::MAX as u128 {
                large = true;
            } else {
                v = next as u64;
                digits += 1;
            }
        }
        at += 1;
    }
    Reading::Done(Scanned { pos: at, value: v, digits, negative, large })
}

/// A number as the low byte of its two's complement tells it.
pub open spec fn low_byte(n: int) -> int {
    (n + 128) % 256 - 128
}

/// What the reader makes of a decimal. `large` tells that digits did not fit in `i64`, `wide` that
/// the mantissa may have to be cut.
pub open spec fn decimal_end(
    large: bool,
    wide: bool,
    negative: bool,
    mantissa: int,
    exponent: int,
    next: int,
) -> Walk<int> {
    if large {
        Walk::Failed
    } else if exponent < i64::MIN {
        Walk::Over
    } else if wide && !decimal_fits(negative, mantissa as nat, low_byte(exponent)) {
        Walk::Failed
    } else {
        Walk::At(next)
    }
}

/// The place behind the exponent whose mark stands at `i`.
pub open spec fn exponent_walk(
    s: Seq<char>,
    i: int,
    large: bool,
    wide: bool,
    negative: bool,
    mantissa: int,
    decimals: int,
) -> Walk<int> {
    match number_read(s, number_from(i + 1, 0), true) {
        Reading::Failed => Walk::Failed,
        Reading::Over => Walk::Over,
        Reading::Done(e) => if e.digits == 0 {
            Walk::Failed
        } else {
            let exponent = if e.negative {
                -e.value
            } else {
                e.value
            };
            decimal_end(large || e.large, wide, negative, mantissa, exponent - decimals, e.pos)
        },
    }
}

/// Whether an exponent mark stands at `i`.
pub open spec fn mark_at(s: Seq<char>, i: int) -> bool {
    i < s.len() && (s[i] == 'e' || s[i] == 'E')
}

/// The place behind the number at `i`.
pub open spec fn number_walk(s: Seq<char>, i: int) -> Walk<int> {
    let negative = s[i] == '-';
    let start = if negative || s[i] == '+' {
        i + 1
    } else {
        i
    };
    match number_read(s, number_from(start, 0), true) {
        Reading::Failed => Walk::Failed,
        Reading::Over => Walk::Over,
        Reading::Done(m) => if m.digits == 0 {
            Walk::Failed
        } else if m.pos < s.len() && s[m.pos] == 'u' {
            Walk::At(m.pos + 1)
        } else if mark_at(s, m.pos) {
            exponent_walk(s, m.pos, m.large, false, negative, m.value, 0)
        } else if m.pos < s.len() && s[m.pos] == '.' {
            match number_read(s, number_from(m.pos + 1, m.value), false) {
                Reading::Failed => Walk::Failed,
                Reading::Over => Walk::Over,
                Reading::Done(d) => {
                    let large = m.large || d.large;
                    let wide = !mantissa_fits(false, d.value);
                    if mark_at(s, d.pos) {
                        exponent_walk(s, d.pos, large, wide, negative, d.value, d.digits)
                    } else if d.pos < s.len() && s[d.pos] == '.' {
                        Walk::Failed
                    } else if d.pos < s.len() && s[d.pos] == 'u' {
                        decimal_end(large, wide, negative, d.value, -d.digits, d.pos + 1)
                    } else {
                        decimal_end(large, wide, negative, d.value, -d.digits, d.pos)
                    }
                },
            }
        } else {
            Walk::At(m.pos)
        },
    }
}

fn end_decimal(
    large: bool,
    wide: bool,
    negative: bool,
    mantissa: u64,
    exponent: i128,
    next: usize,
) -> (r: Walk<usize>)
    requires
        -0x1_0000_0000_0000_0000_0000 <= exponent <= i64::MAX,
    ensures
        r.place() == decimal_end(
            large,
            wide,
            negative,
            mantissa as int,
            exponent as int,
            next as int,
        ),
        r matches Walk::At(k) ==> k == next,
{
    if large {
        return Walk::Failed;
    }
    if exponent < i64::MIN as i128 {
        return Walk::Over;
    }
    if wide {
        let low: i64 = ((exponent + 128 + 0x1_0000_0000_0000_0000) as u128 % 256) as i64 - 128;
        if !is_decimal_fitting(negative, mantissa, low) {
            return Walk::Failed;
        }
    }
    Walk::At(next)
}

fn walk_exponent(
    s: &Vec<char>,
    i: usize,
    large: bool,
    wide: bool,
    negative: bool,
    mantissa: u64,
    decimals: usize,
) -> (r: Walk<usize>)
    requires
        i < s.len(),
    ensures
        r.place() == exponent_walk(
            s@,
            i as int,
            large,
            wide,
            negative,
            mantissa as int,
            decimals as int,
        ),
        r matches Walk::At(k) ==> i < k <= s.len(),
{
    match scan_number(s, i + 1, 0, true) {
        Reading::Failed => Walk::Failed,
        Reading::Over => Walk::Over,
        Reading::Done(e) => {
            if e.digits == 0 {
                return Walk::Failed;
            }
            let exponent: i128 = if e.negative {
                -(e.value as i128)
            } else {
                e.value as i128
            };
            end_decimal(
                large || e.large,
                wide,
                negative,
                mantissa,
                exponent - decimals as i128,
                e.pos,
            )
        },
    }
}

/// Walks over the number at `i`.
fn walk_number(s: &Vec<char>, i: usize) -> (r: Walk<usize>)
    requires
        i < s.len(),
    ensures
        r.place() == number_walk(s@, i as int),
        r matches Walk::At(k) ==> i < k <= s.len(),
{
    let negative = s[i] == '-';
    let start: usize = if negative || s[i] == '+' {
        i + 1
    } else {
        i
    };
    let m = match scan_number(s, start, 0, true) {
        Reading::Failed => {
            return Walk::Failed;
        },
        Reading::Over => {
            return Walk::Over;
        },
        Reading::Done(m) => m,
    };
    if m.digits == 0 {
        return Walk::Failed;
    }
    if m.pos >= s.len() {
        return Walk::At(m.pos);
    }
    let c = s[m.pos];
    if c == 'u' {
        return Walk::At(m.pos + 1);
    }
    if c == 'e' || c == 'E' {
        return walk_exponent(s, m.pos, m.large, false, negative, m.value, 0);
    }
    if c != '.' {
        return Walk::At(m.pos);
    }
    let d = match scan_number(s, m.pos + 1, m.value, false) {
        Reading::Failed => {
            return Walk::Failed;
        },
        Reading::Over => {
            return Walk::Over;
        },
        Reading::Done(d) => d,
    };
    let large = m.large || d.large;
    let wide = d.value >= 0x80_0000_0000_0000;
    let exponent: i128 = -(d.digits as i128);
    if d.pos >= s.len() {
        return end_decimal(large, wide, negative, d.value, exponent, d.pos);
    }
    let c = s[d.pos];
    if c == 'e' || c == 'E' {
        walk_exponent(s, d.pos, large, wide, negative, d.value, d.digits)
    } else if c == '.' {
        Walk::Failed
    } else if c == 'u' {
        end_decimal(large, wide, negative, d.value, exponent, d.pos + 1)
    } else {
        end_decimal(large, wide, negative, d.value, exponent, d.pos)
    }
}

/// Whether `DateTime::from_iso_str` takes a text for a date.
pub uninterp spec fn is_iso_date(text: Seq<char>) -> bool;

/// `DateTime::from_iso_str`: whether a text is a date. The answer is a function of the text alone.
#[verifier::external_body]
fn check_iso_date(text: &str) -> (r: bool)
    ensures
        r == is_iso_date(text@),
{
    DateTime::from_iso_str(text).is_ok()
}

/// The place behind the date at `i`.
pub open spec fn date_walk(s: Seq<char>, i: int) -> Walk<int> {
    match text_walk(s, i + 1) {
        Walk::At(k) => if is_iso_date(text_from(s, i + 2)) {
            Walk::At(k)
        } else {
            Walk::Failed
        },
        end => end,
    }
}

/// The kinds of containers.
#[derive(Debug, Clone, Copy, PartialEq, Eq, Structural)]
pub enum Container {
    List,
    TextMap,
    IntMap,
    Meta,
}

impl Container {
    /// The character that ends the container.
    pub open spec fn last(self) -> char {
        match self {
            Container::List => ']',
            Container::TextMap => '}',
            Container::IntMap => '}',
            Container::Meta => '>',
        }
    }

    fn last_char(self) -> (r: char)
        ensures
            r == self.last(),
    {
        match self {
            Container::List => ']',
            Container::TextMap => '}',
            Container::IntMap => '}',
            Container::Meta => '>',
        }
    }
}

/// The place behind the value at `i`, without meta data.
pub open spec fn bare_walk(s: Seq<char>, i: int) -> Walk<int>
    decreases s.len() - i, 0int,
{
    if i < 0 || i >= s.len() {
        Walk::Failed
    } else {
        let c = s[i];
        if ('0' <= c && c <= '9') || c == '+' || c == '-' {
            number_walk(s, i)
        } else if c == '"' {
            text_walk(s, i)
        } else if c == 'b' || c == 'x' {
            blob_walk(s, i)
        } else if c == '[' {
            items_walk(s, i + 1, Container::List)
        } else if c == '{' {
            items_walk(s, i + 1, Container::TextMap)
        } else if c == 'i' {
            if i + 1 < s.len() && s[i + 1] == '{' {
                items_walk(s, i + 2, Container::IntMap)
            } else {
                Walk::Failed
            }
        } else if c == 'd' {
            date_walk(s, i)
        } else if c == 't' {
            word_walk(s, i, "true"@)
        } else if c == 'f' {
            word_walk(s, i, "false"@)
        } else if c == 'n' {
            word_walk(s, i, "null"@)
        } else {
            Walk::Failed
        }
    }
}

/// The place behind the value from `i` on, which may have meta data before it.
pub open spec fn value_walk(s: Seq<char>, i: int) -> Walk<int>
    decreases s.len() - i, 1int,
{
    match skipped(s, i) {
        Walk::At(j) => if !(0 <= i <= j < s.len()) {
            Walk::Failed
        } else if s[j] == '<' {
            match items_walk(s, j + 1, Container::Meta) {
                Walk::At(k) => match skipped(s, k) {
                    Walk::At(m) => if j < m < s.len() {
                        bare_walk(s, m)
                    } else {
                        Walk::Failed
                    },
                    end => end,
                },
                end => end,
            }
        } else {
            bare_walk(s, j)
        },
        end => end,
    }
}

/// The place behind the key at `i` in a container of this kind.
pub open spec fn key_walk(s: Seq<char>, i: int, kind: Container) -> Walk<int>
    decreases s.len() - i, 2int,
{
    match kind {
        Container::List => Walk::At(i),
        Container::TextMap => text_walk(s, i),
        Container::IntMap => match number_read(s, number_from(i, 0), true) {
            Reading::Done(n) => Walk::At(n.pos),
            Reading::Failed => Walk::Failed,
            Reading::Over => Walk::Over,
        },
        Container::Meta => value_walk(s, i),
    }
}

/// The place behind the items from `i` on of a container of this kind.
pub open spec fn items_walk(s: Seq<char>, i: int, kind: Container) -> Walk<int>
    decreases s.len() - i, 3int,
{
    match skipped(s, i) {
        Walk::At(j) => if !(0 <= i <= j < s.len()) {
            Walk::Failed
        } else if s[j] == kind.last() {
            Walk::At(j + 1)
        } else {
            match key_walk(s, j, kind) {
                Walk::At(k) => if !(j <= k <= s.len()) {
                    Walk::Failed
                } else {
                    match value_walk(s, k) {
                        Walk::At(m) => if k < m <= s.len() {
                            items_walk(s, m, kind)
                        } else {
                            Walk::Failed
                        },
                        end => end,
                    }
                },
                end => end,
            }
        },
        end => end,
    }
}

/// Walks over the value at `i`, without meta data.
fn walk_bare(s: &Vec<char>, i: usize) -> (r: Walk<usize>)
    requires
        i < s.len(),
    ensures
        r.place() == bare_walk(s@, i as int),
        r matches Walk::At(k) ==> i < k <= s.len(),
    decreases s.len() - i, 0int,
{
    proof {
        reveal_strlit("true");
        reveal_strlit("false");
        reveal_strlit("null");
    }
    let c = s[i];
    if ('0' <= c && c <= '9') || c == '+' || c == '-' {
        walk_number(s, i)
    } else if c == '"' {
        walk_text(s, i).0
    } else if c == 'b' || c == 'x' {
        walk_blob(s, i)
    } else if c == '[' {
        walk_items(s, i + 1, Container::List)
    } else if c == '{' {
        walk_items(s, i + 1, Container::TextMap)
    } else if c == 'i' {
        if s.len() - i > 1 && s[i + 1] == '{' {
            walk_items(s, i + 2, Container::IntMap)
        } else {
            Walk::Failed
        }
    } else if c == 'd' {
        match walk_text(s, i + 1) {
            (Walk::At(k), text) => if check_iso_date(text.as_str()) {
                Walk::At(k)
            } else {
                Walk::Failed
            },
            (end, _) => end,
        }
    } else if c == 't' {
        walk_word(s, i, "true")
    } else if c == 'f' {
        walk_word(s, i, "false")
    } else if c == 'n' {
        walk_word(s, i, "null")
    } else {
        Walk::Failed
    }
}

/// Walks over the value from `i` on, which may have meta data before it.
fn walk_value(s: &Vec<char>, i: usize) -> (r: Walk<usize>)
    requires
        i <= s.len(),
    ensures
        r.place() == value_walk(s@, i as int),
        r matches Walk::At(k) ==> i < k <= s.len(),
    decreases s.len() - i, 1int,
{
    let j: usize = match skip(s, i) {
        Walk::At(j) => j,
        end => {
            return end;
        },
    };
    if s[j] != '<' {
        return walk_bare(s, j);
    }
    let k: usize = match walk_items(s, j + 1, Container::Meta) {
        Walk::At(k) => k,
        end => {
            return end;
        },
    };
    match skip(s, k) {
        Walk::At(m) => walk_bare(s, m),
        end => end,
    }
}

/// Walks over the key at `i` in a container of this kind.
fn walk_key(s: &Vec<char>, i: usize, kind: Container) -> (r: Walk<usize>)
    requires
        i < s.len(),
    ensures
        r.place() == key_walk(s@, i as int, kind),
        r matches Walk::At(k) ==> i <= k <= s.len(),
    decreases s.len() - i, 2int,
{
    match kind {
        Container::List => Walk::At(i),
        Container::TextMap => walk_text(s, i).0,
        Container::IntMap => match scan_number(s, i, 0, true) {
            Reading::Done(n) => Walk::At(n.pos),
            Reading::Failed => Walk::Failed,
            Reading::Over => Walk::Over,
        },
        Container::Meta => walk_value(s, i),
    }
}

/// Walks over the items from `i` on of a container of this kind.
fn walk_items(s: &Vec<char>, i: usize, kind: Container) -> (r: Walk<usize>)
    requires
        i <= s.len(),
    ensures
        r.place() == items_walk(s@, i as int, kind),
        r matches Walk::At(k) ==> i < k <= s.len(),
    decreases s.len() - i, 3int,
{
    let mut at: usize = i;
    loop
        invariant
            i <= at <= s.len(),
            items_walk(s@, i as int, kind) == items_walk(s@, at as int, kind),
        decreases s.len() - at,
    {
        let j: usize = match skip(s, at) {
            Walk::At(j) => j,
            end => {
                return end;
            },
        };
        if s[j] == kind.last_char() {
            return Walk::At(j + 1);
        }
        let k: usize = match walk_key(s, j, kind) {
            Walk::At(k) => k,
            end => {
                return end;
            },
        };
        match walk_value(s, k) {
            Walk::At(m) => {
                at = m;
            },
            end => {
                return end;
            },
        }
    }
}

/// Whether the reader comes to a number in the text whose exponent, less its decimals, is below
/// the lowest `i64`, or that has more characters than it can count.
pub open spec fn text_overflows(text: Seq<char>) -> bool {
    value_walk(text, 0) is Over
}

/// Whether the arithmetic of the reader overflows on a text.
pub fn does_text_overflow(text: &str) -> (r: bool)
    ensures
        r == text_overflows(text@),
{
    let s = to_chars(text);
    match walk_value(&s, 0) {
        Walk::Over => true,
        _ => false,
    }
}

/// The part of a Cpon text that stands outside string literals. `inside` tells whether the text
/// begins inside one.
pub open spec fn outside_strings(s: Seq<char>, inside: bool) -> Seq<char>
    decreases s.len(),
{
    if s.len() == 0 {
        Seq::<char>::empty()
    } else if s[0] == '"' {
        outside_strings(s.skip(1), !inside)
    } else if !inside {
        seq![s[0]] + outside_strings(s.skip(1), false)
    } else if s[0] == '\\' && s.len() > 1 {
        outside_strings(s.skip(2), true)
    } else {
        outside_strings(s.skip(1), true)
    }
}

fn strip_strings(s: &str) -> (r: String)
    ensures
        r@ == outside_strings(s@, false),
{
    let x = to_chars(s);
    let mut r = String::new();
    let mut inside = false;
    let mut i: usize = 0;
    assert(s@.skip(0) =~= s@);
    while i < x.len()
        invariant
            x@ == s@,
            i <= x.len(),
            r@ + outside_strings(s@.skip(i as int), inside) == outside_strings(s@, false),
        decreases x.len() - i,
    {
        let ghost done = r@;
        let ghost rest = s@.skip(i as int);
        assert(rest.skip(1) =~= s@.skip(i + 1));
        if x[i] == '"' {
            inside = !inside;
        } else if !inside {
            r.push(x[i]);
            assert(r@ + outside_strings(s@.skip(i + 1), false) =~= done + outside_strings(
                rest,
                false,
            ));
        } else if x[i] == '\\' && i + 1 < x.len() {
            assert(rest.skip(2) =~= s@.skip(i + 2));
            i += 1;
        }
        i += 1;
    }
    assert(r@ + outside_strings(s@.skip(x.len() as int), inside) =~= r@);
    r
}

/// What `RpcValue::from_cpon` makes of a text: the value that it denotes, as `to_cpon` writes it,
/// or the words of the error.
pub uninterp spec fn cpon_text(text: Seq<char>) -> Result<Seq<char>, Seq<char>>;

/// `RpcValue::from_cpon` and `to_cpon`: reads a Cpon text and writes the value in normal form.
/// A text on which the arithmetic of `from_cpon` overflows is left out.
#[verifier::external_body]
fn normalize_cpon(text: &str) -> (r: Result<String, String>)
    requires
        !text_overflows(text@),
    ensures
        text_outcome(r) == cpon_text(text@),
{
    match RpcValue::from_cpon(text) {
        Ok(value) => Ok(value.to_cpon()),
        Err(err) => Err(err.to_string()),
    }
}

/// Whether what a text denotes can be packed. The lowest `i64` cannot: the packer takes the
/// absolute value of a number. Nor can a text on which the reader overflows.
pub open spec fn packable(text: Seq<char>) -> bool {
    &&& !text_overflows(text)
    &&& cpon_text(text) matches Ok(t) ==> !holds(
        outside_strings(t, false),
        "-9223372036854775808"@,
    )
}

/// Whether what a Cpon text denotes can be packed.
pub fn is_packable(text: &str) -> (r: bool)
    ensures
        r == packable(text@),
{
    if does_text_overflow(text) {
        return false;
    }
    match normalize_cpon(text) {
        Ok(t) => !contains(strip_strings(t.as_str()).as_str(), "-9223372036854775808"),
        Err(_) => true,
    }
}

/// Whether an exponent stands at `i` that lies below the lowest `i64` once the decimals of a
/// number in this text are taken from it.
pub open spec fn deep_exponent_at(s: Seq<char>, i: int) -> bool {
    &&& 0 <= i < s.len()
    &&& s[i] == 'e' || s[i] == 'E'
    &&& number_read(s, number_from(i + 1, 0), true) matches Reading::Done(e)
    &&& e.negative
    &&& e.value + s.len() > 0x7fff_ffff_ffff_ffff
}

/// Whether there is such an exponent somewhere in the text.
pub open spec fn has_deep_exponent(s: Seq<char>) -> bool {
    exists|i: int| deep_exponent_at(s, i)
}

/// The characters and the digits of a number are at most those that are passed in reading it.
proof fn lemma_number_bounds(s: Seq<char>, n: Number, signed: bool)
    requires
        0 <= n.pos,
        0 <= n.chars <= n.pos,
        0 <= n.digits,
        0 <= n.value,
        n.base == 10 || n.base == 16,
        s.len() <= MOST_CHARS,
    ensures
        match number_read(s, n, signed) {
            Reading::Done(e) => {
                &&& n.pos <= e.pos
                &&& e.pos <= s.len() || e.pos == n.pos
                &&& e.digits <= n.digits + (e.pos - n.pos)
                &&& 0 <= e.digits
                &&& 0 <= e.value
            },
            Reading::Failed => true,
            Reading::Over => false,
        },
    decreases s.len() - n.pos,
{
    if n.pos < s.len() {
        let c = s[n.pos];
        let sign = c == '+' || c == '-';
        let mark = c == 'x' || c == 'X';
        if sign && n.chars == 0 && !signed {
        } else if (sign && n.chars != 0) || (mark && (n.chars != 1 || n.value != 0)) || (!sign
            && !mark && digit_value(c, n.base) is None) {
        } else if sign {
            lemma_number_bounds(
                s,
                Number { pos: n.pos + 1, chars: n.chars + 1, negative: c == '-', ..n },
                signed,
            );
        } else if mark {
            lemma_number_bounds(
                s,
                Number { pos: n.pos + 1, chars: n.chars + 1, base: 16, ..n },
                signed,
            );
        } else {
            let d = digit_value(c, n.base)->0;
            assert(0 <= d);
            assert(0 <= n.value * n.base) by (nonlinear_arith)
                requires
                    0 <= n.value,
                    n.base == 10 || n.base == 16,
            ;
            lemma_number_bounds(s, with_digit(n, d), signed);
        }
    }
}

/// Only a deep exponent overflows.
proof fn lemma_exponent_over(
    s: Seq<char>,
    i: int,
    large: bool,
    wide: bool,
    negative: bool,
    mantissa: int,
    decimals: int,
)
    requires
        s.len() <= MOST_CHARS,
        0 <= i < s.len(),
        s[i] == 'e' || s[i] == 'E',
        0 <= decimals <= s.len(),
        exponent_walk(s, i, large, wide, negative, mantissa, decimals) is Over,
    ensures
        has_deep_exponent(s),
{
    lemma_number_bounds(s, number_from(i + 1, 0), true);
    assert(deep_exponent_at(s, i));
}

proof fn lemma_number_over(s: Seq<char>, i: int)
    requires
        s.len() <= MOST_CHARS,
        0 <= i < s.len(),
        number_walk(s, i) is Over,
    ensures
        has_deep_exponent(s),
{
    let negative = s[i] == '-';
    let start = if negative || s[i] == '+' {
        i + 1
    } else {
        i
    };
    lemma_number_bounds(s, number_from(start, 0), true);
    if let Reading::Done(m) = number_read(s, number_from(start, 0), true) {
        if mark_at(s, m.pos) && !(m.pos < s.len() && s[m.pos] == 'u') {
            lemma_exponent_over(s, m.pos, m.large, false, negative, m.value, 0);
        } else if m.pos < s.len() && s[m.pos] == '.' {
            lemma_number_bounds(s, number_from(m.pos + 1, m.value), false);
            if let Reading::Done(d) = number_read(s, number_from(m.pos + 1, m.value), false) {
                let large = m.large || d.large;
                let wide = !mantissa_fits(false, d.value);
                if mark_at(s, d.pos) {
                    lemma_exponent_over(s, d.pos, large, wide, negative, d.value, d.digits);
                }
            }
        }
    }
}

proof fn lemma_comment_ends(s: Seq<char>, i: int)
    ensures
        !(block_comment(s, i) is Over),
        !(line_comment(s, i) is Over),
    decreases s.len() - i,
{
    if 0 <= i < s.len() {
        lemma_comment_ends(s, i + 1);
        if i + 2 <= s.len() {
            lemma_comment_ends(s, i + 2);
        }
    }
}

proof fn lemma_skipped_ends(s: Seq<char>, i: int)
    ensures
        !(skipped(s, i) is Over),
    decreases s.len() - i,
{
    if 0 <= i < s.len() {
        lemma_comment_ends(s, i + 2);
        if between(s[i]) {
            lemma_skipped_ends(s, i + 1);
        } else if s[i] == '/' {
            if let Walk::At(k) = comment(s, i) {
                if i < k <= s.len() {
                    lemma_skipped_ends(s, k);
                }
            }
        }
    }
}

proof fn lemma_texts_end(s: Seq<char>, i: int)
    ensures
        !(text_end(s, i) is Over),
        !(blob_end(s, i) is Over),
        !(hex_end(s, i) is Over),
    decreases s.len() - i,
{
    if 0 <= i < s.len() {
        lemma_texts_end(s, i + 1);
        if i + 1 < s.len() {
            lemma_texts_end(s, i + 2);
        }
        if i + 2 < s.len() {
            lemma_texts_end(s, i + 3);
        }
    }
}

proof fn lemma_bare_over(s: Seq<char>, i: int)
    requires
        s.len() <= MOST_CHARS,
        bare_walk(s, i) is Over,
    ensures
        has_deep_exponent(s),
    decreases s.len() - i, 0int,
{
    let c = s[i];
    lemma_texts_end(s, i + 1);
    lemma_texts_end(s, i + 2);
    if ('0' <= c && c <= '9') || c == '+' || c == '-' {
        lemma_number_over(s, i);
    } else if c == '[' {
        lemma_items_over(s, i + 1, Container::List);
    } else if c == '{' {
        lemma_items_over(s, i + 1, Container::TextMap);
    } else if c == 'i' {
        lemma_items_over(s, i + 2, Container::IntMap);
    }
}

proof fn lemma_value_over(s: Seq<char>, i: int)
    requires
        s.len() <= MOST_CHARS,
        value_walk(s, i) is Over,
    ensures
        has_deep_exponent(s),
    decreases s.len() - i, 1int,
{
    lemma_skipped_ends(s, i);
    if let Walk::At(j) = skipped(s, i) {
        if s[j] == '<' {
            match items_walk(s, j + 1, Container::Meta) {
                Walk::At(k) => {
                    lemma_skipped_ends(s, k);
                    if let Walk::At(m) = skipped(s, k) {
                        lemma_bare_over(s, m);
                    }
                },
                _ => {
                    lemma_items_over(s, j + 1, Container::Meta);
                },
            }
        } else {
            lemma_bare_over(s, j);
        }
    }
}

proof fn lemma_key_over(s: Seq<char>, i: int, kind: Container)
    requires
        s.len() <= MOST_CHARS,
        0 <= i < s.len(),
        key_walk(s, i, kind) is Over,
    ensures
        has_deep_exponent(s),
    decreases s.len() - i, 2int,
{
    lemma_texts_end(s, i + 1);
    match kind {
        Container::IntMap => {
            lemma_number_bounds(s, number_from(i, 0), true);
        },
        Container::Meta => {
            lemma_value_over(s, i);
        },
        _ => {},
    }
}

proof fn lemma_items_over(s: Seq<char>, i: int, kind: Container)
    requires
        s.len() <= MOST_CHARS,
        items_walk(s, i, kind) is Over,
    ensures
        has_deep_exponent(s),
    decreases s.len() - i, 3int,
{
    lemma_skipped_ends(s, i);
    if let Walk::At(j) = skipped(s, i) {
        match key_walk(s, j, kind) {
            Walk::At(k) => {
                match value_walk(s, k) {
                    Walk::At(m) => {
                        lemma_items_over(s, m, kind);
                    },
                    _ => {
                        lemma_value_over(s, k);
                    },
                }
            },
            _ => {
                lemma_key_over(s, j, kind);
            },
        }
    }
}

/// A text is refused for a number only if there is an exponent in it that lies below the lowest
/// `i64` by itself or with decimals taken from it; whatever else a text holds, it is read. Texts
/// of more characters than the reader can count are left out.
pub proof fn law_only_deep_exponents_overflow(text: &str, r: bool)
    requires
        call_ensures(does_text_overflow, (text,), r),
        text@.len() <= 0x7fff_ffff,
    ensures
        r ==> has_deep_exponent(text@),
        !text@.contains('e') && !text@.contains('E') ==> !r,
{
    let s = text@;
    if r {
        lemma_value_over(s, 0);
        let i = choose|i: int| deep_exponent_at(s, i);
        assert(s.contains(s[i]));
    }
}

/// Whether the digits `d` stand in `s` from `i` on, and no more digits, nor an `x`, behind them.
pub open spec fn digits_stand_at(s: Seq<char>, i: int, d: Seq<char>) -> bool {
    &&& 0 <= i
    &&& i + d.len() <= s.len()
    &&& s.subrange(i, i + d.len()) == d
    &&& all_digits(d)
    &&& i + d.len() < s.len() ==> {
        let c = s[i + d.len()];
        !is_digit(c) && c != 'x' && c != 'X' && c != '+' && c != '-'
    }
}

/// Reading decimal digits counts them by tens.
proof fn lemma_digits_are_read(s: Seq<char>, n: Number, d: Seq<char>, done: Seq<char>, signed: bool)
    requires
        s.len() <= MOST_CHARS,
        digits_stand_at(s, n.pos, d),
        n.base == 10,
        !n.large,
        0 <= n.chars <= n.pos,
        n.value == digits_value(done),
        all_digits(done),
        digits_value(done + d) <= i64::MAX,
    ensures
        number_read(s, n, signed) == Reading::Done(
            Number {
                pos: n.pos + d.len(),
                chars: n.chars + d.len(),
                digits: n.digits + d.len(),
                value: digits_value(done + d),
                ..n
            },
        ),
    decreases d.len(),
{
    if d.len() == 0 {
        assert(done + d =~= done);
    } else {
        let c = s[n.pos];
        assert(c == s.subrange(n.pos, n.pos + d.len())[0]);
        assert(is_digit(d[0]));
        let rest = d.skip(1);
        let more = done.push(c);
        assert(more.drop_last() =~= done);
        assert(done + d =~= more + rest);
        assert forall|i: int| 0 <= i < more.len() implies is_digit(#[trigger] more[i]) by {
            if i < done.len() {
                assert(is_digit(done[i]));
            }
        }
        assert forall|i: int| 0 <= i < rest.len() implies is_digit(#[trigger] rest[i]) by {
            assert(is_digit(d[i + 1]));
        }
        lemma_more_digits(more, rest);
        assert(s.subrange(n.pos + 1, n.pos + 1 + rest.len()) =~= rest) by {
            assert forall|i: int| 0 <= i < rest.len() implies s[n.pos + 1 + i] == rest[i] by {
                assert(s.subrange(n.pos, n.pos + d.len())[i + 1] == d[i + 1]);
            }
        }
        assert(digit_value(c, 10) == Some(c as int - 48));
        let next = with_digit(n, c as int - 48);
        assert(next.value == digits_value(more));
        lemma_digits_are_read(s, next, rest, more, signed);
    }
}

/// More digits denote more.
proof fn lemma_more_digits(a: Seq<char>, b: Seq<char>)
    requires
        all_digits(a),
        all_digits(b),
    ensures
        0 <= digits_value(a) <= digits_value(a + b),
    decreases b.len(),
{
    if b.len() == 0 {
        assert(a + b =~= a);
        lemma_digits_positive(a);
    } else {
        let init = b.drop_last();
        assert forall|i: int| 0 <= i < init.len() implies is_digit(#[trigger] init[i]) by {
            assert(is_digit(b[i]));
        }
        lemma_more_digits(a, init);
        assert((a + b).drop_last() =~= a + init);
        assert(is_digit(b[b.len() - 1]));
        assert((a + b).last() == b.last());
    }
}

proof fn lemma_digits_positive(a: Seq<char>)
    requires
        all_digits(a),
    ensures
        0 <= digits_value(a),
    decreases a.len(),
{
    if a.len() > 0 {
        let init = a.drop_last();
        assert forall|i: int| 0 <= i < init.len() implies is_digit(#[trigger] init[i]) by {
            assert(is_digit(a[i]));
        }
        lemma_digits_positive(init);
        assert(is_digit(a[a.len() - 1]));
    }
}

/// A negative exponent in decimal digits is read as the number that they denote.
pub proof fn law_exponents_are_read(s: Seq<char>, i: int, d: Seq<char>)
    requires
        s.len() <= 0x7fff_ffff,
        0 <= i < s.len(),
        s[i] == '-',
        digits_stand_at(s, i + 1, d),
        digits_value(d) <= i64::MAX,
    ensures
        number_read(s, number_from(i, 0), true) matches Reading::Done(e) && e.negative && e.value
            == digits_value(d) && !e.large && e.digits == d.len() && e.pos == i + 1 + d.len(),
{
    let none = Seq::<char>::empty();
    let n = Number { pos: i + 1, chars: 1, negative: true, ..number_from(i, 0) };
    assert(none + d =~= d);
    lemma_digits_are_read(s, n, d, none, true);
    assert(number_read(s, number_from(i, 0), true) == number_read(s, n, true));
}

/// A number `a.b` with the exponent `-c` overflows exactly if the exponent, less the decimals, is
/// below the lowest `i64`. The digits of the number and those of the exponent fit in an `i64`
/// each.
pub proof fn law_deep_exponents_overflow(
    text: &str,
    a: Seq<char>,
    b: Seq<char>,
    c: Seq<char>,
    r: bool,
)
    requires
        call_ensures(does_text_overflow, (text,), r),
        text@ == a + seq!['.'] + b + seq!['e', '-'] + c,
        text@.len() <= 0x7fff_ffff,
        a.len() > 0,
        c.len() > 0,
        all_digits(a),
        all_digits(b),
        all_digits(c),
        digits_value(a + b) <= i64::MAX,
        digits_value(c) <= i64::MAX,
    ensures
        r <==> digits_value(c) + b.len() > 0x8000_0000_0000_0000,
{
    let s = text@;
    let p = a.len() as int;
    let q = p + 1 + b.len();
    assert(s[p] == '.');
    assert(s[q] == 'e');
    assert(s[q + 1] == '-');
    assert(s.subrange(0, p) =~= a);
    assert(s.subrange(p + 1, q) =~= b);
    assert(s.subrange(q + 2, q + 2 + c.len()) =~= c);
    assert(is_digit(a[0]));
    assert(s[0] == a[0]);
    lemma_number_with_exponent(s, a, b, c, p, q);
    assert(skipped(s, 0) == Walk::At(0int));
    assert(bare_walk(s, 0) == number_walk(s, 0));
    assert(value_walk(s, 0) == bare_walk(s, 0));
}

/// What is made of a number `a.b` with the exponent `-c`.
proof fn lemma_number_with_exponent(
    s: Seq<char>,
    a: Seq<char>,
    b: Seq<char>,
    c: Seq<char>,
    p: int,
    q: int,
)
    requires
        s.len() <= MOST_CHARS,
        p == a.len(),
        q == p + 1 + b.len(),
        q + 1 < s.len(),
        digits_stand_at(s, 0, a),
        s[p] == '.',
        digits_stand_at(s, p + 1, b),
        s[q] == 'e',
        s[q + 1] == '-',
        digits_stand_at(s, q + 2, c),
        a.len() > 0,
        c.len() > 0,
        digits_value(a + b) <= i64::MAX,
        digits_value(c) <= i64::MAX,
    ensures
        number_walk(s, 0) is Over <==> digits_value(c) + b.len() > 0x8000_0000_0000_0000,
{
    let none = Seq::<char>::empty();
    assert(is_digit(a[0]));
    assert(s.subrange(0, p)[0] == s[0]);
    assert(none + a =~= a);
    assert(digits_value(none) == 0);
    lemma_more_digits(a, b);
    lemma_digits_are_read(s, number_from(0, 0), a, none, true);
    lemma_digits_are_read(s, number_from(p + 1, digits_value(a)), b, a, false);
    law_exponents_are_read(s, q + 1, c);
    let wide = !mantissa_fits(false, digits_value(a + b));
    assert(number_walk(s, 0) == exponent_walk(
        s,
        q,
        false,
        wide,
        false,
        digits_value(a + b),
        b.len() as int,
    ));
}

/// A text can be packed unless its reader overflows or it denotes the lowest `i64` somewhere
/// outside strings, as its normal form shows. A text that denotes nothing is left to the reader.
pub proof fn law_all_but_the_lowest_number_can_be_packed(text: &str, over: bool, r: bool)
    requires
        call_ensures(is_packable, (text,), r),
        call_ensures(does_text_overflow, (text,), over),
    ensures
        over ==> !r,
        !over && cpon_text(text@) is Err ==> r,
        !over ==> (cpon_text(text@) matches Ok(t) ==> {
            &&& r <==> !holds(outside_strings(t, false), "-9223372036854775808"@)
            &&& !t.contains('-') ==> r
            &&& !t.contains('"') ==> (r <==> !exists|i: int|
                0 <= i && i + 20 <= t.len() && #[trigger] t.subrange(i, i + 20)
                    == "-9223372036854775808"@)
        }),
{
    let low = "-9223372036854775808"@;
    reveal_strlit("-9223372036854775808");
    if let Ok(t) = cpon_text(text@) {
        let left = outside_strings(t, false);
        if !t.contains('-') {
            lemma_left_is_part(t, false, '-');
            assert forall|i: int| 0 <= i <= left.len() - low.len() implies #[trigger] left.skip(
                i,
            ).take(low.len() as int) != low by {
                assert(left.skip(i).take(low.len() as int)[0] == left[i]);
                assert(left.contains(left[i]));
                assert(low[0] == '-');
            }
        }
        if !t.contains('"') {
            lemma_left_is_all(t);
            assert forall|i: int| 0 <= i && i + 20 <= t.len() implies t.skip(i).take(20)
                == #[trigger] t.subrange(i, i + 20) by {
                assert(t.skip(i).take(20) =~= t.subrange(i, i + 20));
            }
            if holds(left, low) {
                let i = choose|i: int|
                    0 <= i <= left.len() - low.len() && #[trigger] left.skip(i).take(
                        low.len() as int,
                    ) == low;
                assert(t.subrange(i, i + 20) == low);
            }
            if exists|i: int|
                0 <= i && i + 20 <= t.len() && #[trigger] t.subrange(i, i + 20) == low {
                let i = choose|i: int|
                    0 <= i && i + 20 <= t.len() && #[trigger] t.subrange(i, i + 20) == low;
                assert(t.skip(i).take(low.len() as int) == low);
            }
        }
    }
}

/// What does not stand in a text does not stand in it outside strings.
proof fn lemma_left_is_part(t: Seq<char>, inside: bool, c: char)
    requires
        !t.contains(c),
    ensures
        !outside_strings(t, inside).contains(c),
    decreases t.len(),
{
    if t.len() > 0 {
        assert(t.contains(t[0]));
        assert forall|i: int| 0 <= i < t.skip(1).len() implies t.skip(1)[i] != c by {
            assert(t.contains(t[i + 1]));
        }
        if t[0] == '"' {
            lemma_left_is_part(t.skip(1), !inside, c);
        } else if !inside {
            let rest = outside_strings(t.skip(1), false);
            lemma_left_is_part(t.skip(1), false, c);
            assert forall|i: int| 0 <= i < (seq![t[0]] + rest).len() implies (seq![t[0]] + rest)[i]
                != c by {
                if i > 0 {
                    assert(rest.contains(rest[i - 1]));
                }
            }
        } else if t[0] == '\\' && t.len() > 1 {
            assert forall|i: int| 0 <= i < t.skip(2).len() implies t.skip(2)[i] != c by {
                assert(t.contains(t[i + 2]));
            }
            lemma_left_is_part(t.skip(2), true, c);
        } else {
            lemma_left_is_part(t.skip(1), true, c);
        }
    }
}

/// Without quotes all of a text stands outside strings.
proof fn lemma_left_is_all(t: Seq<char>)
    requires
        !t.contains('"'),
    ensures
        outside_strings(t, false) == t,
    decreases t.len(),
{
    if t.len() > 0 {
        assert(t.contains(t[0]));
        let rest = t.skip(1);
        assert forall|i: int| 0 <= i < rest.len() implies rest[i] != '"' by {
            assert(t.contains(t[i + 1]));
        }
        lemma_left_is_all(rest);
        assert(seq![t[0]] + rest =~= t);
    } else {
        assert(outside_strings(t, false) =~= t);
    }
}

/// Whether this can stand between the quotes of a string literal: a quote or a backslash in it
/// has a backslash before it.
pub open spec fn is_string_body(body: Seq<char>) -> bool
    decreases body.len(),
{
    if body.len() == 0 {
        true
    } else if body[0] == '\\' {
        body.len() > 1 && is_string_body(body.skip(2))
    } else {
        body[0] != '"' && is_string_body(body.skip(1))
    }
}

/// A string literal is passed over: what stands outside strings is what stands outside them
/// before it and behind it. An escaped character does not end it.
pub proof fn law_strings_are_passed_over(before: Seq<char>, body: Seq<char>, behind: Seq<char>)
    requires
        !before.contains('"'),
        is_string_body(body),
    ensures
        outside_strings(before + seq!['"'] + body + seq!['"'] + behind, false) == before
            + outside_strings(behind, false),
        outside_strings(before, false) == before,
    decreases before.len(),
{
    let t = before + seq!['"'] + body + seq!['"'] + behind;
    lemma_left_is_all(before);
    if before.len() == 0 {
        assert(t.skip(1) =~= body + seq!['"'] + behind);
        lemma_inside(body, behind);
        assert(before + outside_strings(behind, false) =~= outside_strings(behind, false));
    } else {
        let rest = before.skip(1);
        assert forall|i: int| 0 <= i < rest.len() implies rest[i] != '"' by {
            assert(before.contains(before[i + 1]));
        }
        assert(before.contains(before[0]));
        law_strings_are_passed_over(rest, body, behind);
        assert(t.skip(1) =~= rest + seq!['"'] + body + seq!['"'] + behind);
        assert(seq![before[0]] + (rest + outside_strings(behind, false)) =~= before
            + outside_strings(behind, false));
    }
}

proof fn lemma_inside(body: Seq<char>, behind: Seq<char>)
    requires
        is_string_body(body),
    ensures
        outside_strings(body + seq!['"'] + behind, true) == outside_strings(behind, false),
    decreases body.len(),
{
    let t = body + seq!['"'] + behind;
    if body.len() == 0 {
        assert(t.skip(1) =~= behind);
    } else if body[0] == '\\' {
        lemma_inside(body.skip(2), behind);
        assert(t.skip(2) =~= body.skip(2) + seq!['"'] + behind);
    } else {
        lemma_inside(body.skip(1), behind);
        assert(t.skip(1) =~= body.skip(1) + seq!['"'] + behind);
    }
}

} // verus!
