//! Where the dates in packed values overflow.
//!
//! A packed date counts from the SHV epoch. The reader of `shvproto` adds the distance to the
//! Unix epoch without a check, so for a date near the end of `i64` the sum overflows. The
//! functions here follow packed bytes value by value, as that reader does, to tell whether it
//! comes to such a date.

use crate::walk::{decimal_fits, is_decimal_fitting, Walk};
use vstd::prelude::*;
use vstd::slice::slice_subrange;
use vstd::utf8::valid_utf8;

verus! {

/// The bytes that begin the packed values which are not a small number, and the one that ends a
/// container.
pub const NULL: u8 = 128;

pub const UINT: u8 = 129;

pub const INT: u8 = 130;

pub const DOUBLE: u8 = 131;

pub const BLOB: u8 = 133;

pub const STRING: u8 = 134;

pub const LIST: u8 = 136;

pub const MAP: u8 = 137;

pub const IMAP: u8 = 138;

pub const META: u8 = 139;

pub const DECIMAL: u8 = 140;

pub const DATE_TIME: u8 = 141;

pub const CSTRING: u8 = 142;

pub const FALSE: u8 = 253;

pub const TRUE: u8 = 254;

pub const TERM: u8 = 255;

/// The SHV epoch, 2018-02-02, in milliseconds of the Unix epoch.
pub const EPOCH: i64 = 1_517_529_600_000;

/// `std::str::from_utf8`: whether bytes are UTF-8.
#[verifier::external_body]
fn is_utf8(bytes: &[u8]) -> (r: bool)
    ensures
        r == valid_utf8(bytes@),
{
    std::str::from_utf8(bytes).is_ok()
}

/// A packed number: its bits, how many there are, and the place behind it.
pub struct Bits {
    pub num: int,
    pub len: int,
    pub next: int,
}

/// Appends `count` bytes to a number of 64 bits; what does not fit is cut off at the top.
pub open spec fn bits_behind(s: Seq<u8>, i: int, count: int, num: int) -> int
    decreases count,
{
    if count <= 0 {
        num
    } else {
        bits_behind(s, i + 1, count - 1, (num % 0x100_0000_0000_0000) * 256 + s[i])
    }
}

/// How many bytes follow the first byte of a packed number.
pub open spec fn bytes_behind(head: u8) -> int {
    if head < 128 {
        0
    } else if head < 192 {
        1
    } else if head < 224 {
        2
    } else if head < 240 {
        3
    } else {
        head - 236
    }
}

/// The bits of a packed number that stand in its first byte.
pub open spec fn head_bits(head: u8) -> int {
    if head < 128 {
        head as int
    } else if head < 192 {
        head - 128
    } else if head < 224 {
        head - 192
    } else if head < 240 {
        head - 224
    } else {
        0
    }
}

/// The number of bits of a packed number.
pub open spec fn bit_length(head: u8) -> int {
    if head < 240 {
        7 * (bytes_behind(head) + 1)
    } else {
        8 * bytes_behind(head)
    }
}

/// The packed number at `i`, if there is one.
pub open spec fn bits_at(s: Seq<u8>, i: int) -> Option<Bits> {
    if i < 0 || i >= s.len() || s[i] == 255 || i + 1 + bytes_behind(s[i]) > s.len() {
        None
    } else {
        Some(
            Bits {
                num: bits_behind(s, i + 1, bytes_behind(s[i]), head_bits(s[i])),
                len: bit_length(s[i]),
                next: i + 1 + bytes_behind(s[i]),
            },
        )
    }
}

/// The signed number in so many bits: the highest one is its sign. There are at most 64.
pub open spec fn signed_value(num: int, len: int) -> Option<int> {
    if len > 64 {
        None
    } else {
        let sign = sign_bit(len);
        if num >= sign {
            Some(sign - num)
        } else {
            Some(num)
        }
    }
}

/// The value of the highest of so many bits.
pub open spec fn sign_bit(len: int) -> int {
    if len == 7 {
        0x40
    } else if len == 14 {
        0x2000
    } else if len == 21 {
        0x10_0000
    } else if len == 28 {
        0x800_0000
    } else if len == 32 {
        0x8000_0000
    } else if len == 40 {
        0x80_0000_0000
    } else if len == 48 {
        0x8000_0000_0000
    } else if len == 56 {
        0x80_0000_0000_0000
    } else {
        0x8000_0000_0000_0000
    }
}

/// The signed packed number at `i` and the place behind it, if there is one.
pub open spec fn int_at(s: Seq<u8>, i: int) -> Option<(int, int)> {
    match bits_at(s, i) {
        None => None,
        Some(b) => match signed_value(b.num, b.len) {
            None => None,
            Some(v) => Some((v, b.next)),
        },
    }
}

/// The milliseconds from the SHV epoch in a packed date. The lowest bit tells whether a time zone
/// stands in the next seven but one, the second one that the date is in seconds.
pub open spec fn date_msecs(packed: int) -> int {
    let count = if packed % 2 == 1 {
        packed / 4 / 128
    } else {
        packed / 4
    };
    if (packed / 2) % 2 == 1 {
        count * 1000
    } else {
        count
    }
}

/// What the reader makes of a packed date: counted from the Unix epoch, with seven bits for the
/// time zone, it has to fit in an `i64`.
pub open spec fn date_walk(packed: int, next: int) -> Walk<int> {
    let msecs = date_msecs(packed);
    if msecs < i64::MIN || msecs > i64::MAX {
        Walk::Failed
    } else if msecs + EPOCH > i64::MAX {
        Walk::Over
    } else if (msecs + EPOCH) * 128 < i64::MIN || (msecs + EPOCH) * 128 > i64::MAX {
        Walk::Failed
    } else {
        Walk::At(next)
    }
}

/// Reads the packed number at `i`.
fn read_bits(s: &[u8], i: usize) -> (r: Option<(u64, u8, usize)>)
    requires
        i <= s@.len(),
    ensures
        match (bits_at(s@, i as int), r) {
            (Some(b), Some((num, len, next))) => b.num == num && b.len == len && b.next == next,
            (None, None) => true,
            _ => false,
        },
        r matches Some((_, _, next)) ==> i < next <= s@.len(),
{
    if i >= s.len() {
        return None;
    }
    let head: u8 = s[i];
    if head == 255 {
        return None;
    }
    let (count, bits, len): (usize, u8, u8) = if head < 128 {
        (0, head, 7)
    } else if head < 192 {
        (1, head - 128, 14)
    } else if head < 224 {
        (2, head - 192, 21)
    } else if head < 240 {
        (3, head - 224, 28)
    } else {
        ((head - 236) as usize, 0, (head - 236) * 8)
    };
    if count > s.len() - i - 1 {
        return None;
    }
    let next: usize = i + 1 + count;
    let mut num: u64 = bits as u64;
    let mut k: usize = i + 1;
    while k < next
        invariant
            i < k <= next <= s@.len(),
            bits_behind(s@, i + 1, next - i - 1, bits as int) == bits_behind(
                s@,
                k as int,
                next - k,
                num as int,
            ),
        decreases next - k,
    {
        num = (num % 0x100_0000_0000_0000) * 256 + s[k] as u64;
        k += 1;
    }
    Some((num, len, next))
}

/// Reads the signed packed number at `i`: whether it is negative, its size and the place behind it.
fn read_int(s: &[u8], i: usize) -> (r: Option<(bool, u64, usize)>)
    requires
        i <= s@.len(),
    ensures
        match (int_at(s@, i as int), r) {
            (Some((v, n)), Some((negative, size, next))) => {
                v == signed(negative, size) && n == next
            },
            (None, None) => true,
            _ => false,
        },
        r matches Some((_, _, next)) ==> i < next <= s@.len(),
{
    match read_bits(s, i) {
        None => None,
        Some((num, len, next)) => {
            if len > 64 {
                return None;
            }
            let sign: u64 = if len == 7 {
                0x40
            } else if len == 14 {
                0x2000
            } else if len == 21 {
                0x10_0000
            } else if len == 28 {
                0x800_0000
            } else if len == 32 {
                0x8000_0000
            } else if len == 40 {
                0x80_0000_0000
            } else if len == 48 {
                0x8000_0000_0000
            } else if len == 56 {
                0x80_0000_0000_0000
            } else {
                0x8000_0000_0000_0000
            };
            if num >= sign {
                Some((true, num - sign, next))
            } else {
                Some((false, num, next))
            }
        },
    }
}

/// The number with this sign and size.
pub open spec fn signed(negative: bool, size: u64) -> int {
    if negative {
        -(size as int)
    } else {
        size as int
    }
}

/// A packed number moved up by a multiple of all divisors is divided as the number itself.
proof fn lemma_moved_up(packed: int)
    ensures
        (packed + 0x1_0000_0000_0000_0000) % 2 == packed % 2,
        ((packed + 0x1_0000_0000_0000_0000) / 2) % 2 == (packed / 2) % 2,
        (packed + 0x1_0000_0000_0000_0000) / 4 == packed / 4 + 0x4000_0000_0000_0000,
        (packed + 0x1_0000_0000_0000_0000) / 512 == packed / 4 / 128 + 0x80_0000_0000_0000,
{
    assert((packed + 0x1_0000_0000_0000_0000) / 2 == packed / 2 + 0x8000_0000_0000_0000);
    assert(packed / 4 / 128 == packed / 512);
}

/// Decides what the reader makes of a packed date.
fn walk_date(negative: bool, size: u64, next: usize) -> (r: Walk<usize>)
    ensures
        r.place() == date_walk(signed(negative, size), next as int),
        r matches Walk::At(k) ==> k == next,
{
    let packed: i128 = if negative {
        -(size as i128)
    } else {
        size as i128
    };
    // Moved up by a multiple of all divisors, to be divided as an unsigned number.
    let up: u128 = (packed + 0x1_0000_0000_0000_0000) as u128;
    proof {
        lemma_moved_up(packed as int);
    }
    let zoned = up % 2 == 1;
    let seconds = (up / 2) % 2 == 1;
    let count: i128 = if zoned {
        (up / 512) as i128 - 0x80_0000_0000_0000
    } else {
        (up / 4) as i128 - 0x4000_0000_0000_0000
    };
    let msecs: i128 = if seconds {
        count * 1000
    } else {
        count
    };
    assert(msecs == date_msecs(signed(negative, size)));
    if msecs < i64::MIN as i128 || msecs > i64::MAX as i128 {
        return Walk::Failed;
    }
    let unix: i128 = msecs + EPOCH as i128;
    if unix > i64::MAX as i128 {
        return Walk::Over;
    }
    if unix * 128 < i64::MIN as i128 || unix * 128 > i64::MAX as i128 {
        Walk::Failed
    } else {
        Walk::At(next)
    }
}

/// The place behind `count` bytes from `i` on.
pub open spec fn bytes_walk(s: Seq<u8>, i: int, count: int) -> Walk<int> {
    if i + count <= s.len() {
        Walk::At(i + count)
    } else {
        Walk::Failed
    }
}

/// The place behind a text from `i` to `end`.
pub open spec fn text_walk(s: Seq<u8>, i: int, end: int, next: int) -> Walk<int> {
    if end <= s.len() && valid_utf8(s.subrange(i, end)) {
        Walk::At(next)
    } else {
        Walk::Failed
    }
}

/// The place of the first zero byte from `i` on, the length where there is none.
pub open spec fn zero_from(s: Seq<u8>, i: int) -> int
    decreases s.len() - i,
{
    if i < 0 || i >= s.len() {
        s.len() as int
    } else if s[i] == 0 {
        i
    } else {
        zero_from(s, i + 1)
    }
}

/// The place behind a value that holds no others. `kind` is the byte before `i`.
pub open spec fn plain_walk(s: Seq<u8>, kind: u8, i: int) -> Walk<int> {
    if kind < 128 || kind == NULL || kind == FALSE || kind == TRUE {
        Walk::At(i)
    } else if kind == INT {
        match int_at(s, i) {
            Some((_, next)) => Walk::At(next),
            None => Walk::Failed,
        }
    } else if kind == UINT {
        match bits_at(s, i) {
            Some(b) => Walk::At(b.next),
            None => Walk::Failed,
        }
    } else if kind == DOUBLE {
        bytes_walk(s, i, 8)
    } else if kind == DECIMAL {
        match int_at(s, i) {
            Some((mantissa, j)) => match int_at(s, j) {
                Some((exponent, next)) => if -128 <= exponent <= 127 && decimal_fits(
                    mantissa < 0,
                    size_of(mantissa),
                    exponent,
                ) {
                    Walk::At(next)
                } else {
                    Walk::Failed
                },
                None => Walk::Failed,
            },
            None => Walk::Failed,
        }
    } else if kind == DATE_TIME {
        match int_at(s, i) {
            Some((packed, next)) => date_walk(packed, next),
            None => Walk::Failed,
        }
    } else if kind == BLOB {
        match bits_at(s, i) {
            Some(b) => bytes_walk(s, b.next, b.num),
            None => Walk::Failed,
        }
    } else if kind == STRING {
        match bits_at(s, i) {
            Some(b) => text_walk(s, b.next, b.next + b.num, b.next + b.num),
            None => Walk::Failed,
        }
    } else if kind == CSTRING {
        let end = zero_from(s, i);
        if end < s.len() {
            text_walk(s, i, end, end + 1)
        } else {
            Walk::Failed
        }
    } else {
        Walk::Failed
    }
}

/// How large a number is.
pub open spec fn size_of(n: int) -> nat {
    if n < 0 {
        (-n) as nat
    } else {
        n as nat
    }
}

fn walk_bytes(s: &[u8], i: usize, count: u64) -> (r: Walk<usize>)
    requires
        i <= s@.len(),
    ensures
        r.place() == bytes_walk(s@, i as int, count as int),
        r matches Walk::At(k) ==> i <= k <= s@.len(),
{
    if count <= (s.len() - i) as u64 {
        Walk::At(i + count as usize)
    } else {
        Walk::Failed
    }
}

/// Walks over a value that holds no others.
fn walk_plain(s: &[u8], kind: u8, i: usize) -> (r: Walk<usize>)
    requires
        i <= s@.len(),
    ensures
        r.place() == plain_walk(s@, kind, i as int),
        r matches Walk::At(k) ==> i <= k <= s@.len(),
{
    if kind < 128 || kind == NULL || kind == FALSE || kind == TRUE {
        Walk::At(i)
    } else if kind == INT {
        match read_int(s, i) {
            Some((_, _, next)) => Walk::At(next),
            None => Walk::Failed,
        }
    } else if kind == UINT {
        match read_bits(s, i) {
            Some((_, _, next)) => Walk::At(next),
            None => Walk::Failed,
        }
    } else if kind == DOUBLE {
        walk_bytes(s, i, 8)
    } else if kind == DECIMAL {
        match read_int(s, i) {
            Some((negative, size, j)) => match read_int(s, j) {
                Some((below, exponent, next)) => {
                    if exponent > 128 || (exponent == 128 && !below) {
                        return Walk::Failed;
                    }
                    let e: i64 = if below {
                        -(exponent as i64)
                    } else {
                        exponent as i64
                    };
                    if is_decimal_fitting(negative && size > 0, size, e) {
                        Walk::At(next)
                    } else {
                        Walk::Failed
                    }
                },
                None => Walk::Failed,
            },
            None => Walk::Failed,
        }
    } else if kind == DATE_TIME {
        match read_int(s, i) {
            Some((negative, size, next)) => walk_date(negative, size, next),
            None => Walk::Failed,
        }
    } else if kind == BLOB {
        match read_bits(s, i) {
            Some((num, _, next)) => walk_bytes(s, next, num),
            None => Walk::Failed,
        }
    } else if kind == STRING {
        match read_bits(s, i) {
            Some((num, _, next)) => match walk_bytes(s, next, num) {
                Walk::At(end) => if is_utf8(slice_subrange(s, next, end)) {
                    Walk::At(end)
                } else {
                    Walk::Failed
                },
                _ => Walk::Failed,
            },
            None => Walk::Failed,
        }
    } else if kind == CSTRING {
        let mut end: usize = i;
        while end < s.len() && s[end] != 0
            invariant
                i <= end <= s@.len(),
                zero_from(s@, i as int) == zero_from(s@, end as int),
            decreases s@.len() - end,
        {
            end += 1;
        }
        if end < s.len() && is_utf8(slice_subrange(s, i, end)) {
            Walk::At(end + 1)
        } else {
            Walk::Failed
        }
    } else {
        Walk::Failed
    }
}

/// The place behind the value at `i`, without meta data.
pub open spec fn bare_walk(s: Seq<u8>, i: int) -> Walk<int>
    decreases s.len() - i, 0int,
{
    if i < 0 || i >= s.len() {
        Walk::Failed
    } else if s[i] == LIST || s[i] == MAP || s[i] == IMAP {
        items_walk(s, i + 1, s[i])
    } else {
        plain_walk(s, s[i], i + 1)
    }
}

/// The place behind the value at `i`, which may have meta data before it.
pub open spec fn value_walk(s: Seq<u8>, i: int) -> Walk<int>
    decreases s.len() - i, 1int,
{
    if i < 0 || i >= s.len() {
        Walk::Failed
    } else if s[i] == META {
        match items_walk(s, i + 1, META) {
            Walk::At(k) => if i < k <= s.len() {
                bare_walk(s, k)
            } else {
                Walk::Failed
            },
            end => end,
        }
    } else {
        bare_walk(s, i)
    }
}

/// Whether a packed integer begins with this byte.
pub open spec fn int_key(kind: u8) -> bool {
    64 <= kind < 128 || kind == INT
}

/// Whether a packed text begins with this byte.
pub open spec fn text_key(kind: u8) -> bool {
    kind == STRING || kind == CSTRING
}

/// The place behind the items from `i` on of a container of this kind. The keys of a map are
/// texts, those of an integer map integers, those of meta data either.
pub open spec fn items_walk(s: Seq<u8>, i: int, kind: u8) -> Walk<int>
    decreases s.len() - i, 2int,
{
    if i < 0 || i >= s.len() {
        Walk::Failed
    } else if s[i] == TERM {
        Walk::At(i + 1)
    } else if (kind == MAP && s[i] != STRING) || (kind == IMAP && !int_key(s[i])) {
        Walk::Failed
    } else {
        let first = if kind == META {
            bare_walk(s, i)
        } else {
            value_walk(s, i)
        };
        match first {
            Walk::At(k) => if !(i < k <= s.len()) {
                Walk::Failed
            } else if kind == LIST {
                items_walk(s, k, kind)
            } else {
                match value_walk(s, k) {
                    Walk::At(m) => if !(k < m <= s.len()) || (kind == META && !int_key(s[i])
                        && !text_key(s[i])) {
                        Walk::Failed
                    } else {
                        items_walk(s, m, kind)
                    },
                    end => end,
                }
            },
            end => end,
        }
    }
}

/// Walks over the value at `i`, without meta data.
fn walk_bare(s: &[u8], i: usize) -> (r: Walk<usize>)
    requires
        i <= s@.len(),
    ensures
        r.place() == bare_walk(s@, i as int),
        r matches Walk::At(k) ==> i < k <= s@.len(),
    decreases s@.len() - i, 0int,
{
    if i >= s.len() {
        return Walk::Failed;
    }
    let kind: u8 = s[i];
    if kind == LIST || kind == MAP || kind == IMAP {
        walk_items(s, i + 1, kind)
    } else {
        walk_plain(s, kind, i + 1)
    }
}

/// Walks over the value at `i`, which may have meta data before it.
fn walk_value(s: &[u8], i: usize) -> (r: Walk<usize>)
    requires
        i <= s@.len(),
    ensures
        r.place() == value_walk(s@, i as int),
        r matches Walk::At(k) ==> i < k <= s@.len(),
    decreases s@.len() - i, 1int,
{
    if i < s.len() && s[i] == META {
        match walk_items(s, i + 1, META) {
            Walk::At(k) => walk_bare(s, k),
            end => end,
        }
    } else {
        walk_bare(s, i)
    }
}

/// Walks over the items from `i` on of a container of this kind.
fn walk_items(s: &[u8], i: usize, kind: u8) -> (r: Walk<usize>)
    requires
        i <= s@.len(),
    ensures
        r.place() == items_walk(s@, i as int, kind),
        r matches Walk::At(k) ==> i < k <= s@.len(),
    decreases s@.len() - i, 2int,
{
    let mut j: usize = i;
    while j < s.len() && s[j] != TERM
        invariant
            i <= j <= s@.len(),
            items_walk(s@, i as int, kind) == items_walk(s@, j as int, kind),
        decreases s@.len() - j,
    {
        let c: u8 = s[j];
        if (kind == MAP && c != STRING) || (kind == IMAP && !((64 <= c && c < 128) || c == INT)) {
            return Walk::Failed;
        }
        let first = if kind == META {
            walk_bare(s, j)
        } else {
            walk_value(s, j)
        };
        let k: usize = match first {
            Walk::At(k) => k,
            end => {
                return end;
            },
        };
        if kind == LIST {
            j = k;
            continue;
        }
        let m: usize = match walk_value(s, k) {
            Walk::At(m) => m,
            end => {
                return end;
            },
        };
        if kind == META && !((64 <= c && c < 128) || c == INT || c == STRING || c == CSTRING) {
            return Walk::Failed;
        }
        j = m;
    }
    if j < s.len() {
        Walk::At(j + 1)
    } else {
        Walk::Failed
    }
}

/// The place behind the meta data of a frame: the protocol byte is followed by meta data.
pub open spec fn meta_walk(raw: Seq<u8>) -> Walk<int> {
    if raw.len() > 1 && raw[0] == 1 && raw[1] == META {
        items_walk(raw, 2, META)
    } else {
        Walk::Failed
    }
}

/// Whether a date in the meta data of a frame overflows.
pub open spec fn meta_overflows(raw: Seq<u8>) -> bool {
    meta_walk(raw) is Over
}

/// Whether a date in a frame overflows, in the meta data or in the message behind it.
pub open spec fn frame_overflows(raw: Seq<u8>) -> bool {
    match meta_walk(raw) {
        Walk::At(k) => bare_walk(raw, k) is Over,
        Walk::Failed => false,
        Walk::Over => true,
    }
}

fn walk_meta(raw: &[u8]) -> (r: Walk<usize>)
    ensures
        r.place() == meta_walk(raw@),
        r matches Walk::At(k) ==> k <= raw@.len(),
{
    if raw.len() > 1 && raw[0] == 1 && raw[1] == META {
        walk_items(raw, 2, META)
    } else {
        Walk::Failed
    }
}

/// Whether a date in the meta data of a frame overflows.
pub fn does_meta_overflow(raw: &[u8]) -> (r: bool)
    ensures
        r == meta_overflows(raw@),
{
    match walk_meta(raw) {
        Walk::Over => true,
        _ => false,
    }
}

/// Whether a date in a frame overflows.
pub fn does_frame_overflow(raw: &[u8]) -> (r: bool)
    ensures
        r == frame_overflows(raw@),
{
    match walk_meta(raw) {
        Walk::At(k) => match walk_bare(raw, k) {
            Walk::Over => true,
            _ => false,
        },
        Walk::Failed => false,
        Walk::Over => true,
    }
}

/// Whether the bytes from `i` on begin a packed date, in seconds, that lies so far ahead that its
/// milliseconds run over: without a time zone and with one.
pub open spec fn far_date_at(s: Seq<u8>, i: int) -> bool {
    &&& 0 <= i
    &&& i + 10 <= s.len()
    &&& s[i] == 0x8d
    &&& s[i + 1] == 0xf4
    &&& {
        ||| s[i + 2] == 0x00 && s[i + 3] == 0x83 && s[i + 4] == 0x12 && (s[i + 5] == 0x6d || s[i
            + 5] == 0x6e)
        ||| s[i + 2] == 0x41 && s[i + 3] == 0x89 && (s[i + 4] == 0x36 || s[i + 4] == 0x37)
    }
}

/// Whether there is such a date somewhere in the bytes.
pub open spec fn has_far_date(s: Seq<u8>) -> bool {
    exists|i: int| far_date_at(s, i)
}

/// The number in eight bytes, the highest first.
pub open spec fn eight_bytes(s: Seq<u8>, i: int) -> int {
    s[i] * 0x100_0000_0000_0000 + s[i + 1] * 0x1_0000_0000_0000 + s[i + 2] * 0x100_0000_0000 + s[i
        + 3] * 0x1_0000_0000 + s[i + 4] * 0x100_0000 + s[i + 5] * 0x1_0000 + s[i + 6] * 0x100 + s[i
        + 7]
}

/// Few bytes hold a small number.
proof fn lemma_short_bits(s: Seq<u8>, i: int, count: int, num: int)
    requires
        0 <= count <= 3 && 0 <= num < 64,
    ensures
        0 <= bits_behind(s, i, count, num) < 0x4000_0000,
{
    reveal_with_fuel(bits_behind, 4);
}

/// So many bytes hold a number of so many bytes.
proof fn lemma_byte_bits(s: Seq<u8>, i: int, count: int)
    requires
        4 <= count <= 8,
    ensures
        0 <= bits_behind(s, i, count, 0),
        count < 8 ==> bits_behind(s, i, count, 0) < 0x100_0000_0000_0000,
        count == 8 ==> bits_behind(s, i, count, 0) == eight_bytes(s, i),
{
    let a = s[i] as int;
    let b = a * 256 + s[i + 1];
    let c = b * 256 + s[i + 2];
    let d = c * 256 + s[i + 3];
    assert(bits_behind(s, i, count, 0) == bits_behind(s, i + 1, count - 1, a));
    assert(bits_behind(s, i + 1, count - 1, a) == bits_behind(s, i + 2, count - 2, b));
    assert(bits_behind(s, i + 2, count - 2, b) == bits_behind(s, i + 3, count - 3, c));
    assert(bits_behind(s, i + 3, count - 3, c) == bits_behind(s, i + 4, count - 4, d));
    if count > 4 {
        let e = d * 256 + s[i + 4];
        assert(bits_behind(s, i + 4, count - 4, d) == bits_behind(s, i + 5, count - 5, e));
        if count > 5 {
            let f = e * 256 + s[i + 5];
            assert(bits_behind(s, i + 5, count - 5, e) == bits_behind(s, i + 6, count - 6, f));
            if count > 6 {
                let g = f * 256 + s[i + 6];
                assert(bits_behind(s, i + 6, count - 6, f) == bits_behind(s, i + 7, count - 7, g));
                if count > 7 {
                    let h = g * 256 + s[i + 7];
                    assert(bits_behind(s, i + 7, 1, g) == bits_behind(s, i + 8, 0, h));
                }
            }
        }
    }
}

/// Only large numbers are dates that overflow.
proof fn lemma_far_packed(packed: int)
    requires
        date_walk(packed, 0) is Over,
        packed < 0x8000_0000_0000_0000,
    ensures
        packed % 2 == 1 ==> 0x4189_3696_df53_ee00 <= packed <= 0x4189_374b_c6a7_efff,
        packed % 2 == 0 ==> 0x83_126d_2dbe_a7de <= packed <= 0x83_126e_978d_4fdf,
{
    if packed % 2 == 1 {
        assert(packed / 4 / 128 == packed / 512);
    }
}

/// The first bytes of large numbers.
proof fn lemma_far_bytes(s: Seq<u8>, i: int)
    ensures
        0x83_126d_2dbe_a7de <= eight_bytes(s, i) <= 0x83_126e_978d_4fdf ==> s[i] == 0x00 && s[i + 1]
            == 0x83 && s[i + 2] == 0x12 && (s[i + 3] == 0x6d || s[i + 3] == 0x6e),
        0x4189_3696_df53_ee00 <= eight_bytes(s, i) <= 0x4189_374b_c6a7_efff ==> s[i] == 0x41 && s[i
            + 1] == 0x89 && (s[i + 2] == 0x36 || s[i + 2] == 0x37),
{
}

/// A number in fewer than eight bytes is no date that overflows.
proof fn lemma_short_date(s: Seq<u8>, j: int)
    requires
        0 <= j < s.len(),
        s[j] != 244,
    ensures
        int_at(s, j) matches Some((packed, _)) ==> packed < 0x80_0000_0000_0000,
{
    let head = s[j];
    if head < 128 {
        reveal_with_fuel(bits_behind, 2);
    } else if head < 240 {
        lemma_short_bits(s, j + 1, bytes_behind(head), head_bits(head));
    } else if head < 244 {
        lemma_byte_bits(s, j + 1, bytes_behind(head));
    }
}

/// Only a date far ahead overflows.
proof fn lemma_date_over(s: Seq<u8>, i: int)
    requires
        0 <= i,
        plain_walk(s, DATE_TIME, i + 1) is Over,
        i < s.len(),
        s[i] == DATE_TIME,
    ensures
        far_date_at(s, i),
{
    let j = i + 1;
    let (packed, next) = int_at(s, j)->0;
    assert(date_walk(packed, next) is Over);
    assert(date_walk(packed, 0) is Over);
    if s[j] != 244 {
        lemma_short_date(s, j);
        lemma_far_packed(packed);
    } else {
        lemma_byte_bits(s, j + 1, 8);
        assert(packed == eight_bytes(s, j + 1) || packed <= 0);
        lemma_far_packed(packed);
        lemma_far_bytes(s, j + 1);
    }
}

proof fn lemma_plain_over(s: Seq<u8>, kind: u8, i: int)
    requires
        plain_walk(s, kind, i) is Over,
    ensures
        kind == DATE_TIME,
{
}

proof fn lemma_bare_over(s: Seq<u8>, i: int)
    requires
        bare_walk(s, i) is Over,
    ensures
        has_far_date(s),
    decreases s.len() - i, 0int,
{
    if s[i] == LIST || s[i] == MAP || s[i] == IMAP {
        lemma_items_over(s, i + 1, s[i]);
    } else {
        lemma_plain_over(s, s[i], i + 1);
        lemma_date_over(s, i);
    }
}

proof fn lemma_value_over(s: Seq<u8>, i: int)
    requires
        value_walk(s, i) is Over,
    ensures
        has_far_date(s),
    decreases s.len() - i, 1int,
{
    if s[i] == META {
        match items_walk(s, i + 1, META) {
            Walk::At(k) => {
                lemma_bare_over(s, k);
            },
            _ => {
                lemma_items_over(s, i + 1, META);
            },
        }
    } else {
        lemma_bare_over(s, i);
    }
}

proof fn lemma_items_over(s: Seq<u8>, i: int, kind: u8)
    requires
        items_walk(s, i, kind) is Over,
    ensures
        has_far_date(s),
    decreases s.len() - i, 2int,
{
    let first = if kind == META {
        bare_walk(s, i)
    } else {
        value_walk(s, i)
    };
    match first {
        Walk::At(k) => {
            if kind == LIST {
                lemma_items_over(s, k, kind);
            } else {
                match value_walk(s, k) {
                    Walk::At(m) => {
                        lemma_items_over(s, m, kind);
                    },
                    _ => {
                        lemma_value_over(s, k);
                    },
                }
            }
        },
        _ => {
            if kind == META {
                lemma_bare_over(s, i);
            } else {
                lemma_value_over(s, i);
            }
        },
    }
}

/// A frame is refused for a date only if there is a date in it that lies far ahead; whatever else
/// a frame holds, it is read. What overflows in the meta data overflows in the frame.
pub proof fn law_only_far_dates_overflow(raw: &[u8], meta: bool, frame: bool)
    requires
        call_ensures(does_meta_overflow, (raw,), meta),
        call_ensures(does_frame_overflow, (raw,), frame),
    ensures
        meta || frame ==> has_far_date(raw@),
        meta ==> frame,
{
    let s = raw@;
    match meta_walk(s) {
        Walk::At(k) => {
            if frame {
                lemma_bare_over(s, k);
            }
        },
        Walk::Failed => {},
        Walk::Over => {
            lemma_items_over(s, 2, META);
        },
    }
}

/// A frame that holds nothing but a message with a date in it overflows exactly if the
/// milliseconds of the date fit in an `i64` from the SHV epoch and do not from the Unix epoch.
/// The date is the number `n` in eight bytes: the lowest bit tells of a time zone, which takes
/// seven bits, the second one of seconds.
pub proof fn law_far_dates_overflow(raw: &[u8], n: int, frame: bool)
    requires
        call_ensures(does_frame_overflow, (raw,), frame),
        raw@.len() == 16,
        raw@.take(7) == seq![1u8, 0x8b, 0xff, 0x8a, 0x42, 0x8d, 0xf4],
        raw@[15] == 0xff,
        n == eight_bytes(raw@, 7),
        n < 0x8000_0000_0000_0000,
    ensures
        ({
            let count = if n % 2 == 1 {
                n / 512
            } else {
                n / 4
            };
            let msecs = if n % 4 >= 2 {
                count * 1000
            } else {
                count
            };
            frame <==> msecs <= 0x7fff_ffff_ffff_ffff && msecs + 1_517_529_600_000
                > 0x7fff_ffff_ffff_ffff
        }),
{
    lemma_lone_date(raw@, n);
    assert(n / 4 / 128 == n / 512);
    assert((n / 2) % 2 == 1 <==> n % 4 >= 2);
}

/// A frame that holds nothing but a message with a date in it overflows if the date does.
proof fn lemma_lone_date(s: Seq<u8>, n: int)
    requires
        s.len() == 16,
        s.take(7) == seq![1u8, 0x8b, 0xff, 0x8a, 0x42, 0x8d, 0xf4],
        s[15] == 0xff,
        n == eight_bytes(s, 7),
        n < 0x8000_0000_0000_0000,
    ensures
        frame_overflows(s) <==> date_walk(n, 15) is Over,
{
    let head = s.take(7);
    assert(s[0] == head[0] && s[1] == head[1] && s[2] == head[2] && s[3] == head[3]);
    assert(s[4] == head[4] && s[5] == head[5] && s[6] == head[6]);
    lemma_byte_bits(s, 7, 8);
    assert(items_walk(s, 2, META) == Walk::At(3int));
    assert(plain_walk(s, 0x42, 5) == Walk::At(5int));
    assert(bare_walk(s, 4) == Walk::At(5int));
    assert(value_walk(s, 4) == Walk::At(5int));
    assert(int_at(s, 6) == Some((n, 15int)));
    assert(plain_walk(s, DATE_TIME, 6) == date_walk(n, 15));
    assert(bare_walk(s, 5) == date_walk(n, 15));
    assert(value_walk(s, 5) == date_walk(n, 15));
    assert(items_walk(s, 15, IMAP) == Walk::At(16int));
    assert(items_walk(s, 4, IMAP) is Over <==> date_walk(n, 15) is Over);
    assert(bare_walk(s, 3) == items_walk(s, 4, IMAP));
}

} // verus!
