//! Text as sequences of characters: the small vocabulary of splitting,
//! trimming, number reading and number writing that the rest of the crate
//! is stated in.

use vstd::prelude::*;
use vstd::string::StringExecFns;

verus! {

/// Appends one character to `out`; the call is `String::push`.
#[verifier::external_body]
pub(crate) fn push_char(out: &mut String, c: char)
    ensures
        final(out)@ == old(out)@.push(c),
{
    out.push(c)
}

/// Appends `s` to `out`.
pub fn push_str(out: &mut String, s: &str)
    ensures
        final(out)@ == old(out)@ + s@,
{
    out.append(s)
}

/// The characters of `s`, in order.
pub fn chars_of(s: &str) -> (v: Vec<char>)
    ensures
        v@ == s@,
{
    let mut v: Vec<char> = Vec::new();
    for c in it: s.chars()
        invariant
            v@ == it.seq().take(it.index() as int),
    {
        v.push(c);
    }
    v
}

/// The string made of the characters `v[from..to]`.
pub(crate) fn string_of(v: &Vec<char>, from: usize, to: usize) -> (s: String)
    requires
        from <= to <= v.len(),
    ensures
        s@ == v@.subrange(from as int, to as int),
{
    let mut s = String::new();
    let mut i: usize = from;
    while i < to
        invariant
            from <= i <= to <= v.len(),
            s@ == v@.subrange(from as int, i as int),
        decreases to - i,
    {
        push_char(&mut s, v[i]);
        i += 1;
    }
    s
}

/// Whether `c` is one of the ten ASCII decimal digits.
pub open spec fn is_digit(c: char) -> bool {
    '0' <= c <= '9'
}

/// The number that a decimal digit stands for.
pub open spec fn digit_value(c: char) -> nat {
    (c as nat - '0' as nat) as nat
}

/// The number written by a sequence of decimal digits, most significant first.
pub open spec fn digits_value(s: Seq<char>) -> nat
    decreases s.len(),
{
    if s.len() == 0 {
        0
    } else {
        digits_value(s.drop_last()) * 10 + digit_value(s.last())
    }
}

/// Whether every character of `s` is a decimal digit.
pub open spec fn all_digits(s: Seq<char>) -> bool {
    forall|i: int| 0 <= i < s.len() ==> is_digit(#[trigger] s[i])
}

/// `s` without one leading plus sign, if it has one.
pub open spec fn unsigned_body(s: Seq<char>) -> Seq<char> {
    if s.len() > 0 && s[0] == '+' {
        s.skip(1)
    } else {
        s
    }
}

/// What reading `s` as an unsigned 64-bit decimal number gives: an optional
/// plus sign, then one or more digits and nothing else, with a value that fits.
pub open spec fn parsed_u64(s: Seq<char>) -> Option<u64> {
    let body = unsigned_body(s);
    if body.len() > 0 && all_digits(body) && digits_value(body) <= u64::MAX {
        Some(digits_value(body) as u64)
    } else {
        None
    }
}

/// The value of a sequence of digits does not shrink when digits are appended.
pub proof fn lemma_digits_value_monotone(s: Seq<char>, k: int)
    requires
        0 <= k <= s.len(),
        all_digits(s),
    ensures
        digits_value(s.take(k)) <= digits_value(s),
    decreases s.len() - k,
{
    if k < s.len() {
        lemma_digits_value_monotone(s, k + 1);
        assert(s.take(k + 1).drop_last() =~= s.take(k));
        assert(is_digit(s[k]));
    } else {
        assert(s.take(k) =~= s);
    }
}

/// Reads `v[from..to]` as an unsigned 64-bit decimal number.
pub(crate) fn parse_u64(v: &Vec<char>, from: usize, to: usize) -> (r: Option<u64>)
    requires
        from <= to <= v.len(),
    ensures
        r == parsed_u64(v@.subrange(from as int, to as int)),
{
    let ghost s = v@.subrange(from as int, to as int);
    let mut i: usize = from;
    if i < to && v[i] == '+' {
        i += 1;
    }
    let start: usize = i;
    let ghost body = unsigned_body(s);
    assert(body =~= v@.subrange(start as int, to as int));
    if start == to {
        return None;
    }
    let mut value: u64 = 0;
    while i < to
        invariant
            from <= start <= i <= to <= v.len(),
            body == v@.subrange(start as int, to as int),
            body == unsigned_body(v@.subrange(from as int, to as int)),
            all_digits(body.take(i - start)),
            value == digits_value(body.take(i - start)),
        decreases to - i,
    {
        let c = v[i];
        assert(c == body[i - start]);
        if !(c >= '0' && c <= '9') {
            return None;
        }
        let d: u64 = (c as u32 - '0' as u32) as u64;
        proof {
            assert(body.take(i - start + 1).drop_last() =~= body.take(i - start));
            assert(digits_value(body.take(i - start + 1)) == value * 10 + d);
        }
        if value > (u64::MAX - d) / 10 {
            proof {
                // the digits read so far already exceed the range
                if all_digits(body) {
                    lemma_digits_value_monotone(body, i - start + 1);
                }
            }
            return None;
        }
        value = value * 10 + d;
        i += 1;
    }
    assert(body.take(to - start) =~= body);
    Some(value)
}

/// The decimal digit for a number below ten.
pub open spec fn digit_char(d: nat) -> char
    recommends
        d < 10,
{
    (d + '0' as nat) as char
}

/// The decimal numeral of `n`: no sign, no leading zero but for zero itself.
pub open spec fn decimal(n: nat) -> Seq<char>
    decreases n,
{
    if n < 10 {
        seq![digit_char(n)]
    } else {
        decimal(n / 10).push(digit_char(n % 10))
    }
}

/// Appends the decimal numeral of `n` to `out`.
pub fn push_decimal(out: &mut String, n: u64)
    ensures
        final(out)@ == old(out)@ + decimal(n as nat),
    decreases n,
{
    if n >= 10 {
        push_decimal(out, n / 10);
    }
    let d: u8 = (n % 10) as u8;
    let c: char = (d + 48u8) as char;
    assert(c == digit_char((n % 10) as nat));
    push_char(out, c);
    assert(final(out)@ =~= old(out)@ + decimal(n as nat));
}

/// The position of the first `c` in `s`, or the length of `s` if there is none.
pub open spec fn find(s: Seq<char>, c: char) -> int
    decreases s.len(),
{
    if s.len() == 0 || s[0] == c {
        0
    } else {
        1 + find(s.skip(1), c)
    }
}

/// `find` lands inside the sequence or at its end, on the first match.
pub proof fn lemma_find(s: Seq<char>, c: char)
    ensures
        0 <= find(s, c) <= s.len(),
        find(s, c) < s.len() ==> s[find(s, c)] == c,
        forall|i: int| 0 <= i < find(s, c) ==> s[i] != c,
    decreases s.len(),
{
    if s.len() != 0 && s[0] != c {
        lemma_find(s.skip(1), c);
        assert forall|i: int| 0 <= i < find(s, c) implies s[i] != c by {
            if i > 0 {
                assert(s.skip(1)[i - 1] == s[i]);
            }
        }
    }
}

/// A position that holds `c` with none before it is where `find` lands.
pub proof fn lemma_find_at(s: Seq<char>, c: char, k: int)
    requires
        0 <= k <= s.len(),
        k < s.len() ==> s[k] == c,
        forall|i: int| 0 <= i < k ==> s[i] != c,
    ensures
        find(s, c) == k,
    decreases s.len(),
{
    if k > 0 {
        assert(s[0] != c);
        assert forall|i: int| 0 <= i < k - 1 implies s.skip(1)[i] != c by {
            assert(s.skip(1)[i] == s[i + 1]);
        }
        lemma_find_at(s.skip(1), c, k - 1);
    }
}

/// The first position in `v[from..to]` that holds `c`, or `to`.
pub(crate) fn find_char(v: &Vec<char>, from: usize, to: usize, c: char) -> (k: usize)
    requires
        from <= to <= v.len(),
    ensures
        from <= k <= to,
        k - from == find(v@.subrange(from as int, to as int), c),
{
    let mut k: usize = from;
    while k < to && v[k] != c
        invariant
            from <= k <= to <= v.len(),
            forall|i: int| from <= i < k ==> v@[i] != c,
        decreases to - k,
    {
        k += 1;
    }
    proof {
        lemma_find_at(v@.subrange(from as int, to as int), c, k - from);
    }
    k
}

/// Whether `c` is white space in the sense of Unicode's `White_Space` property,
/// which is what trimming and splitting on white space go by.
pub open spec fn is_space(c: char) -> bool {
    let n = c as u32;
    ||| 0x09 <= n <= 0x0D
    ||| n == 0x20
    ||| n == 0x85
    ||| n == 0xA0
    ||| n == 0x1680
    ||| 0x2000 <= n <= 0x200A
    ||| n == 0x2028
    ||| n == 0x2029
    ||| n == 0x202F
    ||| n == 0x205F
    ||| n == 0x3000
}

/// Decides `is_space`.
pub fn is_space_char(c: char) -> (r: bool)
    ensures
        r == is_space(c),
{
    let n: u32 = c as u32;
    (0x09 <= n && n <= 0x0D) || n == 0x20 || n == 0x85 || n == 0xA0 || n == 0x1680 || (0x2000 <= n
        && n <= 0x200A) || n == 0x2028 || n == 0x2029 || n == 0x202F || n == 0x205F || n == 0x3000
}

/// The number of white-space characters that `s` begins with.
pub open spec fn leading_spaces(s: Seq<char>) -> int
    decreases s.len(),
{
    if s.len() == 0 || !is_space(s[0]) {
        0
    } else {
        1 + leading_spaces(s.skip(1))
    }
}

/// The number of white-space characters that `s` ends with.
pub open spec fn trailing_spaces(s: Seq<char>) -> int
    decreases s.len(),
{
    if s.len() == 0 || !is_space(s.last()) {
        0
    } else {
        1 + trailing_spaces(s.drop_last())
    }
}

/// `s` without the white space at its two ends.
pub open spec fn trim(s: Seq<char>) -> Seq<char> {
    let rest = s.skip(leading_spaces(s));
    rest.take(rest.len() - trailing_spaces(rest))
}

/// A run of white space of length `k` from the start, closed by the end of
/// the sequence or by another character, is the leading white space.
pub proof fn lemma_leading_spaces_at(s: Seq<char>, k: int)
    requires
        0 <= k <= s.len(),
        k < s.len() ==> !is_space(s[k]),
        forall|i: int| 0 <= i < k ==> is_space(#[trigger] s[i]),
    ensures
        leading_spaces(s) == k,
    decreases s.len(),
{
    if k > 0 {
        assert(is_space(s[0]));
        assert forall|i: int| 0 <= i < k - 1 implies is_space(#[trigger] s.skip(1)[i]) by {
            assert(s.skip(1)[i] == s[i + 1]);
        }
        lemma_leading_spaces_at(s.skip(1), k - 1);
    }
}

/// The same from the end.
pub proof fn lemma_trailing_spaces_at(s: Seq<char>, k: int)
    requires
        0 <= k <= s.len(),
        k < s.len() ==> !is_space(s[s.len() - 1 - k]),
        forall|i: int| s.len() - k <= i < s.len() ==> is_space(#[trigger] s[i]),
    ensures
        trailing_spaces(s) == k,
    decreases s.len(),
{
    if k > 0 {
        assert(is_space(s[s.len() - 1]));
        let t = s.drop_last();
        assert forall|i: int| t.len() - (k - 1) <= i < t.len() implies is_space(#[trigger] t[i]) by {
            assert(t[i] == s[i]);
        }
        lemma_trailing_spaces_at(t, k - 1);
    }
}

/// The bounds of `v[from..to]` without the white space at its two ends.
pub(crate) fn trim_bounds(v: &Vec<char>, from: usize, to: usize) -> (r: (usize, usize))
    requires
        from <= to <= v.len(),
    ensures
        from <= r.0 <= r.1 <= to,
        v@.subrange(r.0 as int, r.1 as int) == trim(v@.subrange(from as int, to as int)),
{
    let ghost s = v@.subrange(from as int, to as int);
    let mut a: usize = from;
    while a < to && is_space_char(v[a])
        invariant
            from <= a <= to <= v.len(),
            forall|i: int| from <= i < a ==> is_space(#[trigger] v@[i]),
        decreases to - a,
    {
        a += 1;
    }
    let mut b: usize = to;
    while b > a && is_space_char(v[b - 1])
        invariant
            a <= b <= to <= v.len(),
            forall|i: int| b <= i < to ==> is_space(#[trigger] v@[i]),
        decreases b,
    {
        b -= 1;
    }
    proof {
        lemma_leading_spaces_at(s, a - from);
        let rest = s.skip(a - from);
        assert(rest =~= v@.subrange(a as int, to as int));
        if b > a {
            lemma_trailing_spaces_at(rest, to - b);
        } else {
            // all of `rest` is white space
            assert forall|i: int| 0 <= i < rest.len() implies is_space(#[trigger] rest[i]) by {
                assert(rest[i] == v@[a + i]);
            }
            lemma_trailing_spaces_at(rest, rest.len() as int);
        }
        assert(v@.subrange(a as int, b as int) =~= rest.take(rest.len() - trailing_spaces(rest)));
    }
    (a, b)
}

/// `s` without one trailing carriage return, if it has one.
pub open spec fn without_cr(s: Seq<char>) -> Seq<char> {
    if s.len() > 0 && s.last() == '\r' {
        s.drop_last()
    } else {
        s
    }
}

/// The lines of `s`. A line ends at a line feed, or at the end of the text if
/// characters are left there; a carriage return just before the line feed
/// belongs to the line ending. The empty text has no lines.
pub open spec fn lines(s: Seq<char>) -> Seq<Seq<char>>
    decreases s.len(),
{
    let k = find(s, '\n');
    if s.len() == 0 {
        Seq::empty()
    } else if 0 <= k < s.len() {
        seq![without_cr(s.take(k))] + lines(s.skip(k + 1))
    } else {
        seq![s]
    }
}

/// Whether `s` is empty or ends with a line feed.
pub open spec fn ends_lines(s: Seq<char>) -> bool {
    s.len() == 0 || s.last() == '\n'
}

/// Whether `s` holds no line feed.
pub open spec fn is_one_line(s: Seq<char>) -> bool {
    forall|i: int| 0 <= i < s.len() ==> #[trigger] s[i] != '\n'
}

/// A text of whole lines with one more whole line behind it has the lines
/// of the text and then that line.
pub proof fn lemma_lines_append(t: Seq<char>, l: Seq<char>)
    requires
        ends_lines(t),
        is_one_line(l),
    ensures
        lines(t + l + seq!['\n']) == lines(t).push(without_cr(l)),
    decreases t.len(),
{
    let s = t + l + seq!['\n'];
    if t.len() == 0 {
        assert(forall|i: int| 0 <= i < l.len() ==> s[i] == l[i]);
        lemma_find_at(s, '\n', l.len() as int);
        assert(s.take(l.len() as int) =~= l);
        assert(s.skip(l.len() as int + 1) =~= Seq::<char>::empty());
        assert(lines(s.skip(l.len() as int + 1)) =~= Seq::<Seq<char>>::empty());
        assert(lines(s) == seq![without_cr(s.take(l.len() as int))] + lines(
            s.skip(l.len() as int + 1),
        ));
        assert(lines(s) =~= seq![without_cr(l)]);
        assert(lines(t) =~= Seq::<Seq<char>>::empty());
        assert(lines(t).push(without_cr(l)) =~= seq![without_cr(l)]);
    } else {
        lemma_find(t, '\n');
        let k = find(t, '\n');
        if k == t.len() {
            assert(t[t.len() - 1] != '\n');
        }
        assert(k < t.len());
        assert(forall|i: int| 0 <= i < t.len() ==> s[i] == t[i]);
        lemma_find_at(s, '\n', k);
        let rest = t.skip(k + 1);
        assert(s.take(k) =~= t.take(k));
        assert(s.skip(k + 1) =~= rest + l + seq!['\n']);
        if rest.len() > 0 {
            assert(rest.last() == t.last());
        }
        lemma_lines_append(rest, l);
        assert(lines(s) =~= seq![without_cr(t.take(k))] + lines(rest).push(without_cr(l)));
        assert(lines(t) =~= seq![without_cr(t.take(k))] + lines(rest));
        assert(lines(s) =~= lines(t).push(without_cr(l)));
    }
}

/// The pieces of `s` that a list of bounds cuts out.
pub open spec fn pieces(s: Seq<char>, spans: Seq<(usize, usize)>) -> Seq<Seq<char>> {
    Seq::new(spans.len(), |i: int| s.subrange(spans[i].0 as int, spans[i].1 as int))
}

/// Whether every pair of bounds lies in order inside a text of length `len`.
pub open spec fn spans_within(spans: Seq<(usize, usize)>, len: int) -> bool {
    forall|i: int| 0 <= i < spans.len() ==> (#[trigger] spans[i]).0 <= spans[i].1 <= len
}

/// The bounds of the lines of `v`.
pub(crate) fn line_spans(v: &Vec<char>) -> (spans: Vec<(usize, usize)>)
    ensures
        spans_within(spans@, v.len() as int),
        pieces(v@, spans@) == lines(v@),
        spans.len() <= v.len(),
{
    let mut spans: Vec<(usize, usize)> = Vec::new();
    let mut pos: usize = 0;
    let n = v.len();
    assert(v@.skip(0) =~= v@);
    assert(pieces(v@, spans@) =~= Seq::<Seq<char>>::empty());
    while pos < n
        invariant
            pos <= n == v.len(),
            spans_within(spans@, n as int),
            lines(v@) == pieces(v@, spans@) + lines(v@.skip(pos as int)),
            spans.len() <= pos,
        decreases n - pos,
    {
        let ghost rest = v@.skip(pos as int);
        let ghost before = spans@;
        assert(rest =~= v@.subrange(pos as int, n as int));
        let k = find_char(v, pos, n, '\n');
        proof {
            lemma_find(rest, '\n');
        }
        if k == n {
            spans.push((pos, n));
            proof {
                assert(lines(rest) =~= seq![rest]);
                assert(lines(v@.skip(n as int)) =~= Seq::<Seq<char>>::empty());
                assert(pieces(v@, spans@) =~= pieces(v@, before) + seq![rest]);
            }
            pos = n;
        } else {
            let end: usize = if k > pos && v[k - 1] == '\r' {
                k - 1
            } else {
                k
            };
            spans.push((pos, end));
            proof {
                let line = rest.take(k - pos);
                assert(line =~= v@.subrange(pos as int, k as int));
                assert(without_cr(line) =~= v@.subrange(pos as int, end as int));
                assert(rest.skip(k - pos + 1) =~= v@.skip(k + 1));
                assert(pieces(v@, spans@) =~= pieces(v@, before) + seq![without_cr(line)]);
            }
            pos = k + 1;
        }
    }
    assert(lines(v@.skip(n as int)) =~= Seq::<Seq<char>>::empty());
    spans
}

/// The position of the first white-space character in `s`, or its length.
pub open spec fn word_len(s: Seq<char>) -> int
    decreases s.len(),
{
    if s.len() == 0 || is_space(s[0]) {
        0
    } else {
        1 + word_len(s.skip(1))
    }
}

/// A run of other characters of length `k` from the start, closed by the end
/// of the sequence or by white space, is the first word.
pub proof fn lemma_word_len_at(s: Seq<char>, k: int)
    requires
        0 <= k <= s.len(),
        k < s.len() ==> is_space(s[k]),
        forall|i: int| 0 <= i < k ==> !is_space(#[trigger] s[i]),
    ensures
        word_len(s) == k,
    decreases s.len(),
{
    if k > 0 {
        assert(!is_space(s[0]));
        assert forall|i: int| 0 <= i < k - 1 implies !is_space(#[trigger] s.skip(1)[i]) by {
            assert(s.skip(1)[i] == s[i + 1]);
        }
        lemma_word_len_at(s.skip(1), k - 1);
    }
}

/// The first word of `s`: what stands between its leading white space and
/// the next white space. It is empty exactly when `s` is all white space.
pub open spec fn first_word(s: Seq<char>) -> Seq<char> {
    let rest = s.skip(leading_spaces(s));
    rest.take(word_len(rest))
}

/// What follows the first word of `s`.
pub open spec fn after_first_word(s: Seq<char>) -> Seq<char> {
    let rest = s.skip(leading_spaces(s));
    rest.skip(word_len(rest))
}

/// The bounds of the first word of `v[from..to]`.
pub(crate) fn word_bounds(v: &Vec<char>, from: usize, to: usize) -> (r: (usize, usize))
    requires
        from <= to <= v.len(),
    ensures
        from <= r.0 <= r.1 <= to,
        v@.subrange(r.0 as int, r.1 as int) == first_word(v@.subrange(from as int, to as int)),
        v@.subrange(r.1 as int, to as int) == after_first_word(v@.subrange(from as int, to as int)),
{
    let ghost s = v@.subrange(from as int, to as int);
    let mut a: usize = from;
    while a < to && is_space_char(v[a])
        invariant
            from <= a <= to <= v.len(),
            forall|i: int| from <= i < a ==> is_space(#[trigger] v@[i]),
        decreases to - a,
    {
        a += 1;
    }
    let mut b: usize = a;
    while b < to && !is_space_char(v[b])
        invariant
            a <= b <= to <= v.len(),
            forall|i: int| a <= i < b ==> !is_space(#[trigger] v@[i]),
        decreases to - b,
    {
        b += 1;
    }
    proof {
        lemma_leading_spaces_at(s, a - from);
        let rest = s.skip(a - from);
        assert(rest =~= v@.subrange(a as int, to as int));
        lemma_word_len_at(rest, b - a);
        assert(v@.subrange(a as int, b as int) =~= rest.take(b - a));
        assert(v@.subrange(b as int, to as int) =~= rest.skip(b - a));
    }
    (a, b)
}

/// `s` without the white space at its two ends, as a string of its own.
pub fn trimmed(s: &str) -> (r: String)
    ensures
        r@ == trim(s@),
{
    let v = chars_of(s);
    assert(v@.subrange(0, v.len() as int) =~= v@);
    let (a, b) = trim_bounds(&v, 0, v.len());
    string_of(&v, a, b)
}

/// Whether `s` holds nothing but white space.
pub fn is_blank(s: &str) -> (r: bool)
    ensures
        r == (trim(s@).len() == 0),
{
    let v = chars_of(s);
    assert(v@.subrange(0, v.len() as int) =~= v@);
    let (a, b) = trim_bounds(&v, 0, v.len());
    a == b
}

/// `c`, or its small letter where `c` is one of the 26 ASCII capitals.
pub open spec fn ascii_lower(c: char) -> char {
    if 'A' <= c <= 'Z' {
        ((c as u32) + 32) as char
    } else {
        c
    }
}

/// Whether two texts are the same but for the case of their ASCII letters.
pub open spec fn same_ignoring_ascii_case(a: Seq<char>, b: Seq<char>) -> bool {
    a.len() == b.len() && forall|i: int| 0 <= i < a.len() ==> ascii_lower(#[trigger] a[i]) == ascii_lower(b[i])
}

/// Computes `ascii_lower`.
pub fn to_ascii_lower(c: char) -> (r: char)
    ensures
        r == ascii_lower(c),
{
    if c >= 'A' && c <= 'Z' {
        let n: u8 = c as u8;
        (n + 32) as char
    } else {
        c
    }
}

/// Decides `same_ignoring_ascii_case`.
pub fn eq_ignoring_ascii_case(a: &str, b: &str) -> (r: bool)
    ensures
        r == same_ignoring_ascii_case(a@, b@),
{
    let x = chars_of(a);
    let y = chars_of(b);
    if x.len() != y.len() {
        return false;
    }
    let mut i: usize = 0;
    while i < x.len()
        invariant
            i <= x.len() == y.len(),
            x@ == a@,
            y@ == b@,
            forall|k: int| 0 <= k < i ==> ascii_lower(#[trigger] x@[k]) == ascii_lower(y@[k]),
        decreases x.len() - i,
    {
        if to_ascii_lower(x[i]) != to_ascii_lower(y[i]) {
            return false;
        }
        i += 1;
    }
    true
}

/// The parts in order, with `sep` between each two.
pub open spec fn joined(parts: Seq<Seq<char>>, sep: Seq<char>) -> Seq<char>
    decreases parts.len(),
{
    if parts.len() == 0 {
        Seq::empty()
    } else if parts.len() == 1 {
        parts[0]
    } else {
        joined(parts.drop_last(), sep) + sep + parts.last()
    }
}

/// Computes `joined`.
pub fn join_texts(parts: &Vec<String>, sep: &str) -> (r: String)
    ensures
        r@ == joined(crate::types::views(parts@), sep@),
{
    let ghost ps = crate::types::views(parts@);
    let mut r = String::new();
    let mut i: usize = 0;
    assert(ps.take(0) =~= Seq::<Seq<char>>::empty());
    while i < parts.len()
        invariant
            i <= parts.len(),
            ps == crate::types::views(parts@),
            r@ == joined(ps.take(i as int), sep@),
        decreases parts.len() - i,
    {
        proof {
            assert(ps.take(i + 1).drop_last() =~= ps.take(i as int));
            assert(ps.take(i + 1).last() == parts@[i as int]@);
        }
        if i > 0 {
            push_str(&mut r, sep);
        }
        push_str(&mut r, parts[i].as_str());
        proof {
            if i == 0 {
                assert(ps.take(1)[0] == parts@[0]@);
                assert(r@ =~= parts@[0]@);
            } else {
                assert(r@ =~= joined(ps.take(i as int), sep@) + sep@ + parts@[i as int]@);
            }
        }
        i += 1;
    }
    assert(ps.take(parts.len() as int) =~= ps);
    r
}

/// The decimal numeral of `n` as a string.
pub fn decimal_string(n: u64) -> (r: String)
    ensures
        r@ == decimal(n as nat),
{
    let mut r = String::new();
    push_decimal(&mut r, n);
    assert(r@ =~= decimal(n as nat));
    r
}

/// The string of two texts with a colon between them.
pub fn with_colon(left: &str, right: &str) -> (r: String)
    ensures
        r@ == left@ + ":"@ + right@,
{
    let mut r = String::new();
    push_str(&mut r, left);
    push_str(&mut r, ":");
    push_str(&mut r, right);
    assert(r@ =~= left@ + ":"@ + right@);
    r
}

/// Whether `list` holds the text `wanted`.
pub fn holds_text(list: &Vec<String>, wanted: &str) -> (r: bool)
    ensures
        r == crate::types::views(list@).contains(wanted@),
{
    let mut i: usize = 0;
    while i < list.len()
        invariant
            i <= list.len(),
            forall|k: int| 0 <= k < i ==> crate::types::views(list@)[k] != wanted@,
        decreases list.len() - i,
    {
        if crate::order::compare_text(list[i].as_str(), wanted) == 0 {
            assert(crate::types::views(list@)[i as int] == wanted@);
            return true;
        }
        i += 1;
    }
    false
}

/// Reads `s` as an unsigned 64-bit decimal number.
pub fn read_u64(s: &str) -> (r: Option<u64>)
    ensures
        r == parsed_u64(s@),
{
    let v = chars_of(s);
    assert(v@.subrange(0, v.len() as int) =~= v@);
    parse_u64(&v, 0, v.len())
}

/// The lines of `s`, each as a string of its own.
pub fn lines_of(s: &str) -> (r: Vec<String>)
    ensures
        crate::types::views(r@) == lines(s@),
{
    let v = chars_of(s);
    let spans = line_spans(&v);
    let ghost ls = lines(v@);
    let mut r: Vec<String> = Vec::new();
    let mut i: usize = 0;
    assert(crate::types::views(r@) =~= ls.take(0));
    while i < spans.len()
        invariant
            i <= spans.len(),
            ls == pieces(v@, spans@),
            spans_within(spans@, v.len() as int),
            crate::types::views(r@) == ls.take(i as int),
        decreases spans.len() - i,
    {
        let ghost before = crate::types::views(r@);
        let (from, to) = spans[i];
        let line = string_of(&v, from, to);
        assert(line@ == ls[i as int]);
        r.push(line);
        assert(crate::types::views(r@) =~= before.push(ls[i as int]));
        assert(ls.take(i + 1) =~= ls.take(i as int).push(ls[i as int]));
        i += 1;
    }
    assert(ls.take(spans.len() as int) =~= ls);
    r
}

} // verus!
