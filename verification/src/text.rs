//! Text primitives over the characters of a string.

use vstd::prelude::*;

verus! {

/// `String::push`: the character is appended to the end of the string.
pub assume_specification[ String::push ](s: &mut String, c: char)
    ensures
        final(s)@ == old(s)@.push(c),
;

/// The text in an optional string.
pub open spec fn opt_text(o: Option<String>) -> Option<Seq<char>> {
    match o {
        Some(s) => Some(s@),
        None => None,
    }
}

/// The text in an optional string slice.
pub open spec fn opt_str(o: Option<&str>) -> Option<Seq<char>> {
    match o {
        Some(s) => Some(s@),
        None => None,
    }
}

/// The texts in an outcome of two texts.
pub open spec fn text_outcome(r: Result<String, String>) -> Result<Seq<char>, Seq<char>> {
    match r {
        Ok(s) => Ok(s@),
        Err(e) => Err(e@),
    }
}

/// The characters of `s`, in order.
pub fn to_chars(s: &str) -> (r: Vec<char>)
    ensures
        r@ == s@,
{
    let mut r: Vec<char> = Vec::new();
    for c in it: s.chars()
        invariant
            it.seq() == s@,
            r@ == it.seq().take(it.index()),
    {
        r.push(c);
    }
    r
}

/// Whether two strings hold the same characters.
pub fn same_text(a: &str, b: &str) -> (r: bool)
    ensures
        r == (a@ == b@),
{
    let x = to_chars(a);
    let y = to_chars(b);
    if x.len() != y.len() {
        return false;
    }
    let mut i: usize = 0;
    while i < x.len()
        invariant
            x@ == a@,
            y@ == b@,
            x.len() == y.len(),
            i <= x.len(),
            forall|j: int| 0 <= j < i ==> x@[j] == y@[j],
        decreases x.len() - i,
    {
        if x[i] != y[i] {
            return false;
        }
        i += 1;
    }
    assert(a@ =~= b@);
    true
}

/// Finds the first `c` in `s`; the index counts characters.
pub fn find(s: &str, c: char) -> (r: Option<usize>)
    ensures
        match r {
            Some(i) => s@.index_of_first(c) == Some(i as int),
            None => s@.index_of_first(c) is None,
        },
{
    let x = to_chars(s);
    let mut i: usize = 0;
    while i < x.len()
        invariant
            x@ == s@,
            i <= x.len(),
            forall|j: int| 0 <= j < i ==> x@[j] != c,
        decreases x.len() - i,
    {
        if x[i] == c {
            proof {
                s@.index_of_first_ensures(c);
            }
            return Some(i);
        }
        i += 1;
    }
    proof {
        s@.index_of_first_ensures(c);
    }
    None
}

/// The code points with the Unicode property `White_Space`.
pub open spec fn white_space(c: char) -> bool {
    let n = c as int;
    ||| 0x9 <= n <= 0xd
    ||| n == 0x20
    ||| n == 0x85
    ||| n == 0xa0
    ||| n == 0x1680
    ||| 0x2000 <= n <= 0x200a
    ||| n == 0x2028
    ||| n == 0x2029
    ||| n == 0x202f
    ||| n == 0x205f
    ||| n == 0x3000
}

/// Whether `c` is Unicode white space.
pub fn is_white_space(c: char) -> (r: bool)
    ensures
        r == white_space(c),
{
    let n: u32 = c as u32;
    (0x9 <= n && n <= 0xd) || n == 0x20 || n == 0x85 || n == 0xa0 || n == 0x1680 || (0x2000 <= n
        && n <= 0x200a) || n == 0x2028 || n == 0x2029 || n == 0x202f || n == 0x205f || n == 0x3000
}

/// `s` without its leading white space.
pub open spec fn trimmed_start(s: Seq<char>) -> Seq<char>
    decreases s.len(),
{
    if s.len() > 0 && white_space(s[0]) {
        trimmed_start(s.drop_first())
    } else {
        s
    }
}

/// `s` without its trailing white space.
pub open spec fn trimmed_end(s: Seq<char>) -> Seq<char>
    decreases s.len(),
{
    if s.len() > 0 && white_space(s.last()) {
        trimmed_end(s.drop_last())
    } else {
        s
    }
}

/// `s` without leading and trailing white space.
pub open spec fn trimmed(s: Seq<char>) -> Seq<char> {
    trimmed_end(trimmed_start(s))
}

/// Whether there is no white space at the ends of `s`.
pub open spec fn tight(s: Seq<char>) -> bool {
    s.len() > 0 ==> !white_space(s[0]) && !white_space(s.last())
}

/// Cutting at the end keeps the first character, if it is not white space.
proof fn lemma_trimmed_end_start(s: Seq<char>)
    requires
        s.len() > 0 ==> !white_space(s[0]),
    ensures
        tight(trimmed_end(s)),
    decreases s.len(),
{
    if s.len() > 0 && white_space(s.last()) {
        lemma_trimmed_end_start(s.drop_last());
    }
}

/// Cutting at the start leaves no white space there.
proof fn lemma_trimmed_start(s: Seq<char>)
    ensures
        trimmed_start(s).len() > 0 ==> !white_space(trimmed_start(s)[0]),
    decreases s.len(),
{
    if s.len() > 0 && white_space(s[0]) {
        lemma_trimmed_start(s.drop_first());
    }
}

/// A trimmed text has no white space at its ends, and trimming it again changes nothing.
pub proof fn law_trimmed_is_tight(s: Seq<char>)
    ensures
        tight(trimmed(s)),
        trimmed(trimmed(s)) == trimmed(s),
{
    lemma_trimmed_start(s);
    lemma_trimmed_end_start(trimmed_start(s));
}

/// Cuts white space off both ends of `s`.
pub fn trim<'a>(s: &'a str) -> (r: &'a str)
    ensures
        r@ == trimmed(s@),
{
    let x = to_chars(s);
    let mut lo: usize = 0;
    assert(s@.skip(0) =~= s@);
    while lo < x.len() && is_white_space(x[lo])
        invariant
            x@ == s@,
            lo <= x.len(),
            trimmed_start(s@) == trimmed_start(s@.skip(lo as int)),
        decreases x.len() - lo,
    {
        assert(s@.skip(lo as int).drop_first() =~= s@.skip(lo + 1));
        lo += 1;
    }
    assert(trimmed_start(s@) == s@.skip(lo as int));
    let mut hi: usize = x.len();
    while lo < hi && is_white_space(x[hi - 1])
        invariant
            x@ == s@,
            lo <= hi <= x.len(),
            trimmed(s@) == trimmed_end(s@.subrange(lo as int, hi as int)),
        decreases hi - lo,
    {
        assert(s@.subrange(lo as int, hi as int).drop_last() =~= s@.subrange(lo as int, hi - 1));
        hi -= 1;
    }
    s.substring_char(lo, hi)
}

/// The fields of `s` when each position `i` with `cut(i)` separates two fields.
pub open spec fn fields(s: Seq<char>, cut: spec_fn(int) -> bool) -> Seq<Seq<char>>
    decreases s.len(),
{
    if s.len() == 0 {
        seq![Seq::<char>::empty()]
    } else {
        let before = fields(s.drop_last(), cut);
        if cut(s.len() - 1) {
            before.push(Seq::<char>::empty())
        } else {
            before.update(before.len() - 1, before.last().push(s.last()))
        }
    }
}

/// The positions of `c` in `s`.
pub open spec fn places_of(s: Seq<char>, c: char) -> spec_fn(int) -> bool {
    |i: int| s[i] == c
}

/// The fields of `s` between the occurrences of `c`.
pub open spec fn fields_at(s: Seq<char>, c: char) -> Seq<Seq<char>> {
    fields(s, places_of(s, c))
}

/// `parts` one after another with `c` between neighbours.
pub open spec fn joined(parts: Seq<Seq<char>>, c: char) -> Seq<char>
    decreases parts.len(),
{
    if parts.len() == 0 {
        Seq::<char>::empty()
    } else if parts.len() == 1 {
        parts[0]
    } else {
        joined(parts.drop_last(), c).push(c) + parts.last()
    }
}

/// There is always at least one field.
pub proof fn lemma_fields_nonempty(s: Seq<char>, cut: spec_fn(int) -> bool)
    ensures
        fields(s, cut).len() >= 1,
    decreases s.len(),
{
    if s.len() > 0 {
        lemma_fields_nonempty(s.drop_last(), cut);
    }
}

/// Joining the fields with the separator that was cut out gives the text back.
pub proof fn lemma_joined_fields(s: Seq<char>, cut: spec_fn(int) -> bool, c: char)
    requires
        forall|i: int| 0 <= i < s.len() && #[trigger] cut(i) ==> s[i] == c,
    ensures
        joined(fields(s, cut), c) == s,
    decreases s.len(),
{
    if s.len() == 0 {
        assert(joined(fields(s, cut), c) =~= s);
    } else {
        let init = s.drop_last();
        let before = fields(init, cut);
        assert forall|i: int| 0 <= i < init.len() && #[trigger] cut(i) implies init[i] == c by {
            assert(s[i] == c);
        }
        lemma_joined_fields(init, cut, c);
        lemma_fields_nonempty(init, cut);
        if cut(s.len() - 1) {
            let all = before.push(Seq::<char>::empty());
            assert(s[s.len() - 1] == c);
            assert(all.drop_last() =~= before);
            assert(joined(all, c) =~= s);
        } else {
            let all = before.update(before.len() - 1, before.last().push(s.last()));
            assert(all.drop_last() =~= before.drop_last());
            assert(joined(all, c) =~= joined(before, c).push(s.last()));
            assert(joined(all, c) =~= s);
        }
    }
}

/// Fields depend on the cuts inside the text only.
pub proof fn lemma_same_cuts(s: Seq<char>, a: spec_fn(int) -> bool, b: spec_fn(int) -> bool)
    requires
        forall|i: int| 0 <= i < s.len() ==> #[trigger] a(i) == b(i),
    ensures
        fields(s, a) == fields(s, b),
    decreases s.len(),
{
    if s.len() > 0 {
        lemma_same_cuts(s.drop_last(), a, b);
        assert(a(s.len() - 1) == b(s.len() - 1));
    }
}

/// A text without `c` is one field.
pub proof fn lemma_one_field_at(s: Seq<char>, c: char)
    requires
        !s.contains(c),
    ensures
        fields_at(s, c) == seq![s],
    decreases s.len(),
{
    if s.len() == 0 {
        assert(s =~= Seq::<char>::empty());
    } else {
        let init = s.drop_last();
        assert forall|i: int| 0 <= i < init.len() implies init[i] != c by {
            assert(s.contains(s[i]));
        }
        lemma_one_field_at(init, c);
        lemma_same_cuts(init, places_of(s, c), places_of(init, c));
        assert(s.contains(s[s.len() - 1]));
        assert(init.push(s.last()) =~= s);
        assert(fields_at(s, c) =~= seq![s]);
    }
}

/// A text without `c` behind a `c` is one more field.
pub proof fn lemma_next_field_at(a: Seq<char>, b: Seq<char>, c: char)
    requires
        !b.contains(c),
    ensures
        fields_at(a.push(c) + b, c) == fields_at(a, c).push(b),
    decreases b.len(),
{
    let s = a.push(c) + b;
    if b.len() == 0 {
        assert(s =~= a.push(c));
        assert(s.drop_last() =~= a);
        lemma_same_cuts(a, places_of(s, c), places_of(a, c));
        assert(b =~= Seq::<char>::empty());
    } else {
        let init = b.drop_last();
        let t = a.push(c) + init;
        assert(s.drop_last() =~= t);
        assert forall|i: int| 0 <= i < init.len() implies init[i] != c by {
            assert(b.contains(b[i]));
        }
        lemma_next_field_at(a, init, c);
        lemma_same_cuts(t, places_of(s, c), places_of(t, c));
        assert(b.contains(b[b.len() - 1]));
        assert(s.last() == b.last());
        let before = fields_at(a, c);
        assert(init.push(b.last()) =~= b);
        assert(before.push(init).update(before.len() as int, b) =~= before.push(b));
    }
}

/// The characters of each string of `v`.
pub open spec fn texts(v: Seq<&str>) -> Seq<Seq<char>> {
    Seq::new(v.len(), |i: int| v[i]@)
}

/// The positions whose mark is set.
pub open spec fn marked(marks: Seq<bool>) -> spec_fn(int) -> bool {
    |i: int| marks[i]
}

/// Splits `s` at the positions whose mark is set.
pub fn split_marked<'a>(s: &'a str, marks: &Vec<bool>) -> (r: Vec<&'a str>)
    requires
        marks@.len() == s@.len(),
    ensures
        texts(r@) == fields(s@, marked(marks@)),
        r@.len() >= 1,
{
    let ghost cut = marked(marks@);
    let mut r: Vec<&'a str> = Vec::new();
    let mut start: usize = 0;
    let mut i: usize = 0;
    assert(s@.take(0) =~= Seq::<char>::empty());
    while i < marks.len()
        invariant
            marks@.len() == s@.len(),
            cut == marked(marks@),
            start <= i <= marks.len(),
            texts(r@).push(s@.subrange(start as int, i as int)) == fields(
                s@.take(i as int),
                cut,
            ),
        decreases marks.len() - i,
    {
        let ghost before = fields(s@.take(i as int), cut);
        assert(s@.take(i + 1).drop_last() =~= s@.take(i as int));
        if marks[i] {
            let t = s.substring_char(start, i);
            r.push(t);
            assert(texts(r@) =~= before);
            start = i + 1;
            assert(s@.subrange(start as int, i + 1) =~= Seq::<char>::empty());
        } else {
            assert(s@.subrange(start as int, i + 1) =~= s@.subrange(start as int, i as int).push(
                s@[i as int],
            ));
            assert(texts(r@).push(s@.subrange(start as int, i + 1)) =~= fields(
                s@.take(i + 1),
                cut,
            ));
        }
        i += 1;
    }
    assert(s@.take(marks.len() as int) =~= s@);
    let t = s.substring_char(start, marks.len());
    r.push(t);
    assert(texts(r@) =~= fields(s@, cut));
    r
}

/// Splits `s` at each `c`.
pub fn split<'a>(s: &'a str, c: char) -> (r: Vec<&'a str>)
    ensures
        texts(r@) == fields_at(s@, c),
        r@.len() >= 1,
{
    let mut marks: Vec<bool> = Vec::new();
    for x in it: s.chars()
        invariant
            it.seq() == s@,
            marks@.len() == it.index(),
            forall|i: int| 0 <= i < marks@.len() ==> marks@[i] == (s@[i] == c),
    {
        marks.push(x == c);
    }
    proof {
        lemma_same_cuts(s@, marked(marks@), places_of(s@, c));
    }
    split_marked(s, &marks)
}

/// `s` with each occurrence of `from` replaced by `to`; occurrences are taken from left to right
/// and do not overlap.
pub open spec fn replaced(s: Seq<char>, from: Seq<char>, to: Seq<char>) -> Seq<char>
    decreases s.len(),
{
    if from.len() == 0 || s.len() < from.len() {
        s
    } else if s.take(from.len() as int) == from {
        to + replaced(s.skip(from.len() as int), from, to)
    } else {
        seq![s[0]] + replaced(s.skip(1), from, to)
    }
}

/// Whether `from` stands in `s` at position `i`.
fn stands_at(s: &Vec<char>, i: usize, from: &Vec<char>) -> (r: bool)
    requires
        i + from.len() <= s.len(),
    ensures
        r == (s@.skip(i as int).take(from.len() as int) == from@),
{
    let mut k: usize = 0;
    while k < from.len()
        invariant
            i + from.len() <= s.len(),
            k <= from.len(),
            forall|j: int| 0 <= j < k ==> s@[i + j] == from@[j],
        decreases from.len() - k,
    {
        if s[i + k] != from[k] {
            assert(s@.skip(i as int).take(from.len() as int)[k as int] != from@[k as int]);
            return false;
        }
        k += 1;
    }
    assert(s@.skip(i as int).take(from.len() as int) =~= from@);
    true
}

/// Whether no occurrence of `from` begins in `t`, whatever follows `t`: each first character of
/// `from` in `t` has another second character behind it.
pub open spec fn inert(t: Seq<char>, from: Seq<char>) -> bool {
    forall|i: int|
        0 <= i < t.len() && #[trigger] t[i] == from[0] ==> i + 1 < t.len() && t[i + 1] != from[1]
}

/// Replacement passes over an inert text.
pub proof fn lemma_replaced_inert(t: Seq<char>, rest: Seq<char>, from: Seq<char>, to: Seq<char>)
    requires
        from.len() >= 2,
        inert(t, from),
    ensures
        replaced(t + rest, from, to) == t + replaced(rest, from, to),
    decreases t.len(),
{
    let s = t + rest;
    if t.len() == 0 {
        assert(s =~= rest);
        assert(t + replaced(rest, from, to) =~= replaced(rest, from, to));
    } else {
        let tail = t.skip(1);
        assert forall|i: int| 0 <= i < tail.len() && #[trigger] tail[i] == from[0] implies i + 1
            < tail.len() && tail[i + 1] != from[1] by {
            assert(t[i + 1] == from[0]);
        }
        lemma_replaced_inert(tail, rest, from, to);
        assert(s.skip(1) =~= tail + rest);
        if s.len() < from.len() {
            assert(replaced(rest, from, to) == rest);
        } else {
            if s.take(from.len() as int) == from {
                assert(s.take(from.len() as int)[0] == t[0]);
                assert(s.take(from.len() as int)[1] == t[1]);
            }
            assert(seq![s[0]] + (tail + replaced(rest, from, to)) =~= t + replaced(
                rest,
                from,
                to,
            ));
        }
    }
}

/// Replacement puts `to` in the place of an occurrence at the start.
pub proof fn lemma_replaced_first(rest: Seq<char>, from: Seq<char>, to: Seq<char>)
    requires
        from.len() > 0,
    ensures
        replaced(from + rest, from, to) == to + replaced(rest, from, to),
{
    let s = from + rest;
    assert(s.take(from.len() as int) =~= from);
    assert(s.skip(from.len() as int) =~= rest);
}

/// Whether `part` stands somewhere in `s`.
pub open spec fn holds(s: Seq<char>, part: Seq<char>) -> bool {
    exists|i: int|
        0 <= i <= s.len() - part.len() && #[trigger] s.skip(i).take(part.len() as int) == part
}

/// Whether `part` stands somewhere in `s`.
pub fn contains(s: &str, part: &str) -> (r: bool)
    ensures
        r == holds(s@, part@),
{
    let x = to_chars(s);
    let p = to_chars(part);
    let mut i: usize = 0;
    while p.len() <= x.len() - i
        invariant
            x@ == s@,
            p@ == part@,
            i <= x.len(),
            forall|k: int|
                0 <= k < i ==> #[trigger] s@.skip(k).take(part@.len() as int) != part@,
        decreases x.len() - i,
    {
        if stands_at(&x, i, &p) {
            return true;
        }
        if i == x.len() {
            return false;
        }
        i += 1;
    }
    false
}

/// Replaces each occurrence of `from` in `s` by `to`.
pub fn replace(s: &str, from: &str, to: &str) -> (r: String)
    requires
        from@.len() > 0,
    ensures
        r@ == replaced(s@, from@, to@),
{
    let x = to_chars(s);
    let f = to_chars(from);
    let mut out = String::new();
    let mut i: usize = 0;
    assert(s@.skip(0) =~= s@);
    while f.len() <= x.len() - i
        invariant
            x@ == s@,
            f@ == from@,
            f.len() > 0,
            i <= x.len(),
            out@ + replaced(s@.skip(i as int), from@, to@) == replaced(s@, from@, to@),
        decreases x.len() - i,
    {
        let ghost rest = s@.skip(i as int);
        if stands_at(&x, i, &f) {
            let ghost done = out@;
            out.append(to);
            assert(rest.skip(from@.len() as int) =~= s@.skip(i + f.len()));
            assert(out@ + replaced(s@.skip(i + f.len()), from@, to@) =~= done + replaced(
                rest,
                from@,
                to@,
            ));
            i += f.len();
        } else {
            let ghost done = out@;
            out.push(x[i]);
            assert(rest.skip(1) =~= s@.skip(i + 1));
            assert(out@ + replaced(s@.skip(i + 1), from@, to@) =~= done + replaced(
                rest,
                from@,
                to@,
            ));
            i += 1;
        }
    }
    while i < x.len()
        invariant
            x@ == s@,
            i <= x.len(),
            out@ + s@.skip(i as int) == replaced(s@, from@, to@),
        decreases x.len() - i,
    {
        let ghost done = out@;
        out.push(x[i]);
        assert(out@ + s@.skip(i + 1) =~= done + s@.skip(i as int));
        i += 1;
    }
    assert(out@ + s@.skip(x.len() as int) =~= out@);
    out
}

/// The decimal digit `d`.
pub open spec fn digit_char(d: int) -> char {
    (48 + d) as char
}

/// The decimal digits of `n`, without leading zeros.
pub open spec fn digits(n: nat) -> Seq<char>
    decreases n,
{
    if n < 10 {
        seq![digit_char(n as int)]
    } else {
        digits(n / 10).push(digit_char((n % 10) as int))
    }
}

/// The decimal notation of `n`.
pub open spec fn decimal(n: int) -> Seq<char> {
    if n < 0 {
        seq!['-'] + digits((-n) as nat)
    } else {
        digits(n as nat)
    }
}

/// Appends the decimal notation of `n` to `s`.
pub fn push_u64(s: &mut String, n: u64)
    ensures
        final(s)@ == old(s)@ + decimal(n as int),
    decreases n,
{
    let d: u8 = (n % 10) as u8;
    if n >= 10 {
        push_u64(s, n / 10);
    }
    s.push((48 + d) as char);
    assert(s@ =~= old(s)@ + digits(n as nat));
}

/// Appends the decimal notation of `n` to `s`.
pub fn push_i32(s: &mut String, n: i32)
    ensures
        final(s)@ == old(s)@ + decimal(n as int),
{
    if n < 0 {
        s.push('-');
        let m: i64 = -(n as i64);
        push_u64(s, m as u64);
        assert(s@ =~= old(s)@ + decimal(n as int));
    } else {
        push_u64(s, n as u64);
    }
}

/// White space is what Unicode lists as such, and nothing else.
pub proof fn law_white_space_is_listed(c: char, r: bool)
    requires
        call_ensures(is_white_space, (c,), r),
    ensures
        r <==> {
            ||| c == ' ' || c == '\t' || c == '\n' || c == '\r' || c == '\u{b}' || c == '\u{c}'
            ||| c == '\u{85}' || c == '\u{a0}' || c == '\u{1680}'
            ||| '\u{2000}' <= c && c <= '\u{200a}'
            ||| c == '\u{2028}' || c == '\u{2029}' || c == '\u{202f}' || c == '\u{205f}'
            ||| c == '\u{3000}'
        },
{
}

/// Cutting at the start skips white space only.
proof fn lemma_start_cut(s: Seq<char>) -> (k: int)
    ensures
        0 <= k <= s.len(),
        trimmed_start(s) == s.skip(k),
        forall|i: int| 0 <= i < k ==> white_space(#[trigger] s[i]),
    decreases s.len(),
{
    if s.len() > 0 && white_space(s[0]) {
        let k = lemma_start_cut(s.drop_first());
        assert(s.drop_first().skip(k) =~= s.skip(k + 1));
        assert forall|i: int| 0 <= i < k + 1 implies white_space(#[trigger] s[i]) by {
            if i > 0 {
                assert(s.drop_first()[i - 1] == s[i]);
            }
        }
        k + 1
    } else {
        assert(s.skip(0) =~= s);
        0
    }
}

/// Cutting at the end drops white space only.
proof fn lemma_end_cut(s: Seq<char>) -> (k: int)
    ensures
        0 <= k <= s.len(),
        trimmed_end(s) == s.take(k),
        forall|i: int| k <= i < s.len() ==> white_space(#[trigger] s[i]),
    decreases s.len(),
{
    if s.len() > 0 && white_space(s.last()) {
        let k = lemma_end_cut(s.drop_last());
        assert(s.drop_last().take(k) =~= s.take(k));
        assert forall|i: int| k <= i < s.len() implies white_space(#[trigger] s[i]) by {
            if i < s.len() - 1 {
                assert(s.drop_last()[i] == s[i]);
            }
        }
        k
    } else {
        assert(s.take(s.len() as int) =~= s);
        s.len() as int
    }
}

/// A trimmed text is the text between two runs of white space.
proof fn lemma_trimmed_cuts(s: Seq<char>) -> (cuts: (int, int))
    ensures
        0 <= cuts.0 <= cuts.1 <= s.len(),
        trimmed(s) == s.subrange(cuts.0, cuts.1),
        forall|i: int|
            0 <= i < cuts.0 || cuts.1 <= i < s.len() ==> white_space(#[trigger] s[i]),
{
    let a = lemma_start_cut(s);
    let k = lemma_end_cut(s.skip(a));
    assert(s.skip(a).take(k) =~= s.subrange(a, a + k));
    assert forall|i: int| 0 <= i < a || a + k <= i < s.len() implies white_space(
        #[trigger] s[i],
    ) by {
        if i >= a {
            assert(s.skip(a)[i - a] == s[i]);
        }
    }
    (a, a + k)
}

/// Whether `t` is `s` without the white space at its ends: what is cut off is white space, and
/// what is left neither begins nor ends with any.
pub open spec fn is_core(s: Seq<char>, t: Seq<char>) -> bool {
    &&& tight(t)
    &&& exists|a: int, b: int|
        0 <= a <= b <= s.len() && t == #[trigger] s.subrange(a, b) && (forall|i: int|
            0 <= i < a || b <= i < s.len() ==> white_space(#[trigger] s[i]))
}

/// Trimming cuts off white space at the ends, all of it and nothing else.
pub proof fn law_trimming_cuts_white_space_only(s: &str, r: &str)
    requires
        call_ensures(trim, (s,), r),
    ensures
        is_core(s@, r@),
{
    lemma_is_core(s@);
}

/// The trimmed text is the text without the white space at its ends.
pub proof fn lemma_is_core(s: Seq<char>)
    ensures
        is_core(s, trimmed(s)),
{
    law_trimmed_is_tight(s);
    let (a, b) = lemma_trimmed_cuts(s);
    assert(trimmed(s) == s.subrange(a, b));
}

/// No field holds the character at which the text was cut.
proof fn lemma_fields_without(s: Seq<char>, cut: spec_fn(int) -> bool, c: char)
    requires
        forall|i: int| 0 <= i < s.len() ==> #[trigger] cut(i) == (s[i] == c),
    ensures
        forall|i: int|
            0 <= i < fields(s, cut).len() ==> !(#[trigger] fields(s, cut)[i]).contains(c),
    decreases s.len(),
{
    if s.len() > 0 {
        let init = s.drop_last();
        assert forall|i: int| 0 <= i < init.len() implies #[trigger] cut(i) == (init[i] == c) by {
            assert(init[i] == s[i]);
        }
        lemma_fields_without(init, cut, c);
        lemma_fields_nonempty(init, cut);
        let before = fields(init, cut);
        assert(cut(s.len() - 1) == (s[s.len() - 1] == c));
        assert forall|i: int| 0 <= i < fields(s, cut).len() implies !(#[trigger] fields(
            s,
            cut,
        )[i]).contains(c) by {
            if i < before.len() {
                assert(!before[i].contains(c));
                if !cut(s.len() - 1) && i == before.len() - 1 {
                    let last = before.last();
                    assert forall|k: int| 0 <= k < last.push(s.last()).len() implies last.push(
                        s.last(),
                    )[k] != c by {
                        if k < last.len() {
                            assert(last.contains(last[k]));
                        }
                    }
                }
            }
        }
    }
}

/// Splitting at a character gives the parts between its occurrences: none of them holds it, and
/// joined with it they are the text again.
pub proof fn law_split_parts_are_those_between(s: &str, c: char, r: Vec<&str>)
    requires
        call_ensures(split, (s, c), r),
    ensures
        joined(Seq::new(r@.len(), |i: int| r@[i]@), c) == s@,
        forall|i: int| 0 <= i < r@.len() ==> !(#[trigger] r@[i])@.contains(c),
        r@.len() > 0,
{
    let parts = Seq::new(r@.len(), |i: int| r@[i]@);
    assert(parts =~= texts(r@));
    lemma_joined_fields(s@, places_of(s@, c), c);
    lemma_fields_without(s@, places_of(s@, c), c);
    assert forall|i: int| 0 <= i < r@.len() implies !(#[trigger] r@[i])@.contains(c) by {
        assert(texts(r@)[i] == r@[i]@);
    }
}

/// Whether `part` stands in `s` at position `i`.
pub open spec fn stands(s: Seq<char>, part: Seq<char>, i: int) -> bool {
    0 <= i <= s.len() - part.len() && s.subrange(i, i + part.len()) == part
}

/// A text in which nothing is to be replaced stays as it is.
pub proof fn law_replacing_nothing_changes_nothing(s: Seq<char>, from: Seq<char>, to: Seq<char>)
    requires
        from.len() > 0,
        forall|i: int| !#[trigger] stands(s, from, i),
    ensures
        replaced(s, from, to) == s,
    decreases s.len(),
{
    if s.len() >= from.len() {
        assert(s.take(from.len() as int) =~= s.subrange(0, from.len() as int));
        assert(!stands(s, from, 0));
        let tail = s.skip(1);
        assert forall|i: int| !#[trigger] stands(tail, from, i) by {
            if 0 <= i <= tail.len() - from.len() {
                assert(tail.subrange(i, i + from.len()) =~= s.subrange(i + 1, i + 1 + from.len()));
                assert(!stands(s, from, i + 1));
            }
        }
        law_replacing_nothing_changes_nothing(tail, from, to);
        assert(seq![s[0]] + tail =~= s);
    }
}

/// Replacing takes the first occurrence, puts `to` in its place, leaves what stands before as it
/// is and goes on behind.
pub proof fn law_replacing_takes_the_first_occurrence(
    s: Seq<char>,
    from: Seq<char>,
    to: Seq<char>,
    at: int,
)
    requires
        from.len() > 0,
        stands(s, from, at),
        forall|i: int| i < at ==> !#[trigger] stands(s, from, i),
    ensures
        replaced(s, from, to) == s.take(at) + to + replaced(s.skip(at + from.len()), from, to),
    decreases at,
{
    assert(s.take(from.len() as int) =~= s.subrange(0, from.len() as int));
    if at == 0 {
        assert(s.take(0) + to =~= to);
    } else {
        assert(!stands(s, from, 0));
        let tail = s.skip(1);
        assert(tail.subrange(at - 1, at - 1 + from.len()) =~= s.subrange(at, at + from.len()));
        assert forall|i: int| i < at - 1 implies !#[trigger] stands(tail, from, i) by {
            if 0 <= i <= tail.len() - from.len() {
                assert(tail.subrange(i, i + from.len()) =~= s.subrange(i + 1, i + 1 + from.len()));
                assert(!stands(s, from, i + 1));
            }
        }
        law_replacing_takes_the_first_occurrence(tail, from, to, at - 1);
        assert(tail.skip(at - 1 + from.len()) =~= s.skip(at + from.len()));
        assert(seq![s[0]] + (tail.take(at - 1) + to + replaced(
            s.skip(at + from.len()),
            from,
            to,
        )) =~= s.take(at) + to + replaced(s.skip(at + from.len()), from, to));
    }
}

/// `replace` does so: where nothing is to be replaced it gives the text back, and otherwise what
/// stands before the first occurrence, `to`, and what it gives for the rest.
pub proof fn law_replace_goes_from_left_to_right(
    s: &str,
    from: &str,
    to: &str,
    r: String,
    at: int,
    rest: &str,
    end: String,
)
    requires
        call_ensures(replace, (s, from, to), r),
        from@.len() > 0,
        forall|i: int| i < at ==> !#[trigger] stands(s@, from@, i),
        stands(s@, from@, at) ==> rest@ == s@.skip(at + from@.len()),
        call_ensures(replace, (rest, from, to), end),
    ensures
        stands(s@, from@, at) ==> r@ == s@.take(at) + to@ + end@,
        at > s@.len() ==> r@ == s@,
{
    if stands(s@, from@, at) {
        law_replacing_takes_the_first_occurrence(s@, from@, to@, at);
    }
    if at > s@.len() {
        assert forall|i: int| !#[trigger] stands(s@, from@, i) by {}
        law_replacing_nothing_changes_nothing(s@, from@, to@);
    }
}

/// Decimal notation grows digit by digit: a number times ten and a digit is the notation of the
/// number with the digit behind it, and a negative number has a minus sign before it.
pub proof fn law_decimal_grows_by_digits(n: int, d: int)
    requires
        0 <= d <= 9,
    ensures
        decimal(d) == seq!["0123456789"@[d]],
        n > 0 ==> decimal(n * 10 + d) == decimal(n).push("0123456789"@[d]),
        n > 0 ==> decimal(-n) == seq!['-'] + decimal(n),
{
    reveal_strlit("0123456789");
    assert(digit_char(d) == "0123456789"@[d]);
    if n > 0 {
        let m = (n * 10 + d) as nat;
        assert(m / 10 == n && m % 10 == d);
    }
}

/// Numbers are written behind the text in decimal notation.
pub proof fn law_numbers_are_appended(
    s: &mut String,
    t: &mut String,
    n: u64,
    k: i32,
    r: (),
    q: (),
)
    requires
        call_ensures(push_u64, (s, n), r),
        call_ensures(push_i32, (t, k), q),
    ensures
        final(s)@ == old(s)@ + decimal(n as int),
        final(t)@ == old(t)@ + decimal(k as int),
{
}

} // verus!
