//! Character-level text utilities: the views of `&str` and `String` are
//! `Seq<char>`, and every function here is stated over those views.

use vstd::prelude::*;

verus! {

/// Whether `c` has the Unicode `White_Space` property (what `char::is_whitespace` tests).
pub open spec fn is_white_space(c: char) -> bool {
    ||| ('\u{9}' <= c && c <= '\u{d}')
    ||| c == ' '
    ||| c == '\u{85}'
    ||| c == '\u{a0}'
    ||| c == '\u{1680}'
    ||| ('\u{2000}' <= c && c <= '\u{200a}')
    ||| c == '\u{2028}'
    ||| c == '\u{2029}'
    ||| c == '\u{202f}'
    ||| c == '\u{205f}'
    ||| c == '\u{3000}'
}

/// `s` with its trailing white space removed (what `str::trim_end` returns).
pub open spec fn trim_end(s: Seq<char>) -> Seq<char>
    decreases s.len(),
{
    if s.len() > 0 && is_white_space(s.last()) {
        trim_end(s.drop_last())
    } else {
        s
    }
}

/// `s` with its leading white space removed (what `str::trim_start` returns).
pub open spec fn trim_start(s: Seq<char>) -> Seq<char>
    decreases s.len(),
{
    if s.len() > 0 && is_white_space(s[0]) {
        trim_start(s.drop_first())
    } else {
        s
    }
}

/// `s` with white space removed at both ends (what `str::trim` returns).
pub open spec fn trim(s: Seq<char>) -> Seq<char> {
    trim_end(trim_start(s))
}

/// The position of the first `c` in `s`, or `s.len()` when there is none.
pub open spec fn first_index(s: Seq<char>, c: char) -> int
    decreases s.len(),
{
    if s.len() == 0 {
        0
    } else if s[0] == c {
        0
    } else {
        1 + first_index(s.drop_first(), c)
    }
}

pub proof fn lemma_first_index(s: Seq<char>, c: char, i: int)
    requires
        0 <= i <= s.len(),
        forall|j: int| 0 <= j < i ==> s[j] != c,
        i < s.len() ==> s[i] == c,
    ensures
        first_index(s, c) == i,
    decreases i,
{
    if i > 0 {
        lemma_first_index(s.drop_first(), c, i - 1);
    }
}

pub proof fn lemma_first_index_bounds(s: Seq<char>, c: char)
    ensures
        0 <= first_index(s, c) <= s.len(),
        forall|j: int| 0 <= j < first_index(s, c) ==> s[j] != c,
        first_index(s, c) < s.len() ==> s[first_index(s, c)] == c,
        first_index(s, c) == s.len() <==> !s.contains(c),
    decreases s.len(),
{
    if s.len() > 0 && s[0] != c {
        lemma_first_index_bounds(s.drop_first(), c);
        assert forall|j: int| 0 <= j < first_index(s, c) implies s[j] != c by {
            if j > 0 {
                assert(s[j] == s.drop_first()[j - 1]);
            }
        }
        if s.contains(c) {
            let k = choose|k: int| 0 <= k < s.len() && s[k] == c;
            assert(s.drop_first()[k - 1] == c);
        }
        if s.drop_first().contains(c) {
            let k = choose|k: int| 0 <= k < s.drop_first().len() && s.drop_first()[k] == c;
            assert(s[k + 1] == c);
        }
    }
}

/// The characters of `s`, in order.
pub fn chars_of(s: &str) -> (v: Vec<char>)
    ensures
        v@ == s@,
{
    let mut v: Vec<char> = Vec::new();
    for c in it: s.chars()
        invariant
            v@ == it.seq().take(it.index() as int),
            it.seq() == s@,
    {
        v.push(c);
    }
    v
}

/// Appends `c` to `s` (std's `String::push`).
#[verifier::external_body]
pub(crate) fn push_char(s: &mut String, c: char)
    ensures
        final(s)@ == old(s)@.push(c),
{
    s.push(c);
}

/// The string whose characters are `v`.
pub fn string_of(v: &[char]) -> (s: String)
    ensures
        s@ == v@,
{
    let mut s = String::new();
    let mut i: usize = 0;
    while i < v.len()
        invariant
            i <= v.len(),
            s@ == v@.take(i as int),
        decreases v.len() - i,
    {
        push_char(&mut s, v[i]);
        i = i + 1;
        assert(s@ == v@.take(i as int));
    }
    assert(v@.take(v@.len() as int) == v@);
    s
}

/// Appends every character of `v` to `s`.
pub fn push_chars(s: &mut String, v: &[char])
    ensures
        final(s)@ == old(s)@ + v@,
{
    let mut i: usize = 0;
    while i < v.len()
        invariant
            i <= v.len(),
            s@ == old(s)@ + v@.take(i as int),
        decreases v.len() - i,
    {
        push_char(s, v[i]);
        i = i + 1;
        assert(s@ == old(s)@ + v@.take(i as int));
    }
    assert(v@.take(v@.len() as int) == v@);
}

/// Whether `c` is white space (what `char::is_whitespace` answers).
pub fn is_whitespace(c: char) -> (b: bool)
    ensures
        b == is_white_space(c),
{
    ('\u{9}' <= c && c <= '\u{d}') || c == ' ' || c == '\u{85}' || c == '\u{a0}' || c == '\u{1680}'
        || ('\u{2000}' <= c && c <= '\u{200a}') || c == '\u{2028}' || c == '\u{2029}' || c
        == '\u{202f}' || c == '\u{205f}' || c == '\u{3000}'
}

/// Number of characters of `s` left once trailing white space is removed.
fn trim_end_len(s: &[char]) -> (n: usize)
    ensures
        n <= s@.len(),
        trim_end(s@) == s@.take(n as int),
{
    let mut n: usize = s.len();
    assert(s@.take(n as int) == s@);
    while n > 0 && is_whitespace(s[n - 1])
        invariant
            n <= s@.len(),
            trim_end(s@) == trim_end(s@.take(n as int)),
        decreases n,
    {
        assert(s@.take(n as int).drop_last() == s@.take(n - 1));
        n = n - 1;
    }
    n
}

/// Number of leading white-space characters of `s`.
fn trim_start_len(s: &[char]) -> (n: usize)
    ensures
        n <= s@.len(),
        trim_start(s@) == s@.skip(n as int),
{
    let mut n: usize = 0;
    assert(s@.skip(0) == s@);
    while n < s.len() && is_whitespace(s[n])
        invariant
            n <= s@.len(),
            trim_start(s@) == trim_start(s@.skip(n as int)),
        decreases s.len() - n,
    {
        assert(s@.skip(n as int).drop_first() == s@.skip(n + 1));
        n = n + 1;
    }
    n
}

/// `s` with its trailing white space removed.
pub fn trimmed_end(s: &[char]) -> (r: Vec<char>)
    ensures
        r@ == trim_end(s@),
{
    let n = trim_end_len(s);
    slice_prefix(s, n)
}

/// `s` with its leading white space removed.
pub fn trimmed_start(s: &[char]) -> (r: Vec<char>)
    ensures
        r@ == trim_start(s@),
{
    let k = trim_start_len(s);
    slice_range(s, k, s.len())
}

/// `s` with white space removed at both ends.
pub fn trimmed(s: &[char]) -> (r: Vec<char>)
    ensures
        r@ == trim(s@),
{
    let k = trim_start_len(s);
    let rest = slice_range(s, k, s.len());
    assert(rest@ == s@.skip(k as int));
    trimmed_end(rest.as_slice())
}

/// The first `n` characters of `s`.
pub fn slice_prefix(s: &[char], n: usize) -> (r: Vec<char>)
    requires
        n <= s@.len(),
    ensures
        r@ == s@.take(n as int),
{
    slice_range(s, 0, n)
}

/// The characters of `s` from position `from` up to, not including, `to`.
pub fn slice_range(s: &[char], from: usize, to: usize) -> (r: Vec<char>)
    requires
        from <= to <= s@.len(),
    ensures
        r@ == s@.subrange(from as int, to as int),
{
    let mut r: Vec<char> = Vec::new();
    let mut i = from;
    while i < to
        invariant
            from <= i <= to <= s@.len(),
            r@ == s@.subrange(from as int, i as int),
        decreases to - i,
    {
        r.push(s[i]);
        i = i + 1;
        assert(r@ == s@.subrange(from as int, i as int));
    }
    r
}

/// Position of the first `c` in `s`, or `s.len()` when `c` does not occur.
pub fn find_char(s: &[char], c: char) -> (i: usize)
    ensures
        i == first_index(s@, c),
{
    let mut i: usize = 0;
    while i < s.len() && s[i] != c
        invariant
            i <= s@.len(),
            forall|j: int| 0 <= j < i ==> s@[j] != c,
        decreases s.len() - i,
    {
        i = i + 1;
    }
    proof {
        lemma_first_index(s@, c, i as int);
    }
    i
}

/// Whether `c` occurs in `s`.
pub fn has_char(s: &[char], c: char) -> (b: bool)
    ensures
        b == s@.contains(c),
{
    let i = find_char(s, c);
    proof {
        lemma_first_index_bounds(s@, c);
    }
    i < s.len()
}

/// Whether `s` begins with `prefix`.
pub fn starts_with(s: &[char], prefix: &[char]) -> (b: bool)
    ensures
        b == (prefix@.len() <= s@.len() && s@.take(prefix@.len() as int) == prefix@),
{
    if prefix.len() > s.len() {
        return false;
    }
    let mut i: usize = 0;
    while i < prefix.len()
        invariant
            prefix@.len() <= s@.len(),
            i <= prefix@.len(),
            forall|j: int| 0 <= j < i ==> s@[j] == prefix@[j],
        decreases prefix.len() - i,
    {
        if s[i] != prefix[i] {
            assert(s@.take(prefix@.len() as int)[i as int] != prefix@[i as int]);
            return false;
        }
        i = i + 1;
    }
    assert(s@.take(prefix@.len() as int) == prefix@);
    true
}

/// Whether the two character sequences are equal.
pub fn chars_eq(a: &[char], b: &[char]) -> (r: bool)
    ensures
        r == (a@ == b@),
{
    if a.len() != b.len() {
        return false;
    }
    let r = starts_with(a, b);
    proof {
        assert(a@.take(b@.len() as int) == a@);
    }
    r
}


/// `l` without one trailing carriage return.
pub open spec fn strip_cr(l: Seq<char>) -> Seq<char> {
    if l.len() > 0 && l.last() == '\r' {
        l.drop_last()
    } else {
        l
    }
}

/// The lines of `s`, as `str::lines` yields them: `s` is cut at each `'\n'`,
/// a `'\r'` just before a `'\n'` is dropped, and a final line ending adds no
/// empty line.
pub open spec fn lines_of(s: Seq<char>) -> Seq<Seq<char>>
    decreases s.len(),
{
    if s.len() == 0 {
        seq![]
    } else {
        let i = first_index(s, '\n');
        proof {
            lemma_first_index_bounds(s, '\n');
        }
        if i < s.len() {
            seq![strip_cr(s.take(i))] + lines_of(s.skip(i + 1))
        } else {
            seq![s]
        }
    }
}

/// The views of a sequence of strings.
pub open spec fn string_views(v: Seq<String>) -> Seq<Seq<char>> {
    v.map_values(|l: String| l@)
}

/// The lines of `raw` (see `lines_of`).
pub fn split_lines(raw: &str) -> (lines: Vec<String>)
    ensures
        string_views(lines@) == lines_of(raw@),
{
    let s = chars_of(raw);
    let n = s.len();
    let mut lines: Vec<String> = Vec::new();
    let mut start: usize = 0;
    let mut i: usize = 0;
    assert(s@.skip(0) == s@);
    while i < n
        invariant
            n == s@.len(),
            s@ == raw@,
            start <= i <= n,
            forall|j: int| start <= j < i ==> s@[j] != '\n',
            lines_of(s@) == string_views(lines@) + lines_of(s@.skip(start as int)),
        decreases n - i,
    {
        if s[i] == '\n' {
            let ghost rest = s@.skip(start as int);
            proof {
                assert forall|j: int| 0 <= j < i - start implies rest[j] != '\n' by {
                    assert(rest[j] == s@[start + j]);
                }
                lemma_first_index(rest, '\n', i - start);
                assert(rest.take(i - start) == s@.subrange(start as int, i as int));
                assert(rest.skip(i - start + 1) == s@.skip(i + 1));
            }
            let mut end = i;
            if end > start && s[end - 1] == '\r' {
                end = end - 1;
            }
            let piece = slice_range(s.as_slice(), start, end);
            assert(piece@ == strip_cr(s@.subrange(start as int, i as int)));
            let line = string_of(piece.as_slice());
            let ghost before = lines@;
            lines.push(line);
            proof {
                assert(string_views(lines@) == string_views(before).push(line@));
                assert(string_views(lines@) + lines_of(s@.skip(i + 1)) == string_views(before) + (
                seq![line@] + lines_of(s@.skip(i + 1))));
            }
            start = i + 1;
        }
        i = i + 1;
    }
    if start < n {
        let ghost rest = s@.skip(start as int);
        proof {
            assert forall|j: int| 0 <= j < rest.len() implies rest[j] != '\n' by {
                assert(rest[j] == s@[start + j]);
            }
            lemma_first_index(rest, '\n', rest.len() as int);
        }
        let piece = slice_range(s.as_slice(), start, n);
        assert(piece@ == rest);
        let line = string_of(piece.as_slice());
        let ghost before = lines@;
        lines.push(line);
        assert(string_views(lines@) == string_views(before).push(line@));
    } else {
        assert(s@.skip(start as int).len() == 0);
    }
    lines
}

/// Whether `c` is an ASCII decimal digit.
pub open spec fn is_digit(c: char) -> bool {
    '0' <= c && c <= '9'
}

/// The value of the decimal digit `c`.
pub open spec fn digit_value(c: char) -> nat {
    (c as int - '0' as int) as nat
}

/// The digit character for `d < 10`.
pub open spec fn digit_char(d: nat) -> char {
    (d + '0' as int) as char
}

pub open spec fn all_digits(s: Seq<char>) -> bool {
    forall|i: int| 0 <= i < s.len() ==> is_digit(#[trigger] s[i])
}

/// The number that the decimal digits `s` spell.
pub open spec fn digits_value(s: Seq<char>) -> nat
    decreases s.len(),
{
    if s.len() == 0 {
        0
    } else {
        digits_value(s.drop_last()) * 10 + digit_value(s.last())
    }
}

/// What `str::parse` gives for an unsigned integer type whose largest value
/// is `max`: an optional `'+'`, then one or more ASCII digits, with a value
/// no greater than `max`.
pub open spec fn parse_unsigned(s: Seq<char>, max: nat) -> Option<nat> {
    let d = if s.len() > 0 && s[0] == '+' {
        s.drop_first()
    } else {
        s
    };
    if d.len() > 0 && all_digits(d) && digits_value(d) <= max {
        Some(digits_value(d))
    } else {
        None
    }
}

/// The decimal representation of `n`, without leading zeros.
pub open spec fn decimal(n: nat) -> Seq<char>
    decreases n,
{
    if n < 10 {
        seq![digit_char(n)]
    } else {
        decimal(n / 10).push(digit_char(n % 10))
    }
}

proof fn lemma_digits_value_prefix(s: Seq<char>, k: int)
    requires
        all_digits(s),
        0 <= k <= s.len(),
    ensures
        digits_value(s.take(k)) <= digits_value(s),
    decreases s.len(),
{
    if k < s.len() {
        assert(s.drop_last().take(k) == s.take(k));
        lemma_digits_value_prefix(s.drop_last(), k);
    } else {
        assert(s.take(k) == s);
    }
}

/// Parses `s` as `str::parse` parses an unsigned integer no larger than `max`.
pub fn parse_decimal(s: &[char], max: u64) -> (r: Option<u64>)
    ensures
        r == match parse_unsigned(s@, max as nat) {
            Some(v) => Some(v as u64),
            None => None::<u64>,
        },
{
    let start: usize = if s.len() > 0 && s[0] == '+' {
        1
    } else {
        0
    };
    let ghost d = if s@.len() > 0 && s@[0] == '+' {
        s@.drop_first()
    } else {
        s@
    };
    assert(d == s@.skip(start as int));
    if start == s.len() {
        return None;
    }
    let mut acc: u128 = 0;
    let mut i: usize = start;
    assert(d.take(0) == Seq::<char>::empty());
    while i < s.len()
        invariant
            start <= i <= s@.len(),
            d == s@.skip(start as int),
            d == (if s@.len() > 0 && s@[0] == '+' {
                s@.drop_first()
            } else {
                s@
            }),
            all_digits(d.take(i - start)),
            acc == digits_value(d.take(i - start)),
            acc <= max,
        decreases s.len() - i,
    {
        let c = s[i];
        assert(d[i - start] == c);
        if !('0' <= c && c <= '9') {
            assert(!is_digit(d[i - start]));
            assert(!all_digits(d));
            return None;
        }
        let dv = (c as u32 - '0' as u32) as u128;
        assert(d.take(i - start + 1).drop_last() == d.take(i - start));
        assert(dv == digit_value(c));
        assert(d.take(i - start + 1).last() == c);
        acc = acc * 10 + dv;
        i = i + 1;
        assert(acc == digits_value(d.take(i - start)));
        assert(all_digits(d.take(i - start))) by {
            assert forall|j: int| 0 <= j < i - start implies is_digit(#[trigger] d.take(i - start)[j]) by {
                if j < i - start - 1 {
                    assert(d.take(i - start)[j] == d.take(i - start - 1)[j]);
                }
            }
        }
        if acc > max as u128 {
            proof {
                if all_digits(d) {
                    lemma_digits_value_prefix(d, i - start);
                    assert(digits_value(d) > max);
                }
            }
            return None;
        }
    }
    assert(d.take(i - start) == d);
    Some(acc as u64)
}

/// Appends the decimal representation of `n` to `out`.
pub fn push_decimal(out: &mut Vec<char>, n: u64)
    ensures
        final(out)@ == old(out)@ + decimal(n as nat),
    decreases n,
{
    if n >= 10 {
        push_decimal(out, n / 10);
    }
    let d = (n % 10) as u32;
    let c = char_from_digit(d);
    out.push(c);
    assert(n >= 10 ==> old(out)@ + decimal(n as nat) =~= old(out)@ + decimal((n / 10) as nat) + seq![c]);
}

fn char_from_digit(d: u32) -> (c: char)
    requires
        d < 10,
    ensures
        c == digit_char(d as nat),
{
    match d {
        0 => '0',
        1 => '1',
        2 => '2',
        3 => '3',
        4 => '4',
        5 => '5',
        6 => '6',
        7 => '7',
        8 => '8',
        _ => '9',
    }
}


proof fn lemma_decimal_digits(n: nat)
    ensures
        decimal(n).len() > 0,
        all_digits(decimal(n)),
        digits_value(decimal(n)) == n,
    decreases n,
{
    if n >= 10 {
        lemma_decimal_digits(n / 10);
        let d = decimal(n / 10);
        let s = d.push(digit_char(n % 10));
        assert(s.drop_last() == d);
        assert forall|i: int| 0 <= i < s.len() implies is_digit(#[trigger] s[i]) by {
            if i < d.len() {
                assert(s[i] == d[i]);
            }
        }
        assert(n == (n / 10) * 10 + n % 10);
        assert(digit_value(digit_char(n % 10)) == n % 10);
        assert(s.last() == digit_char(n % 10));
        assert(decimal(n) == s);
        assert(digits_value(s) == digits_value(d) * 10 + digit_value(s.last()));
        assert(digits_value(s) == n);
    } else {
        let s = seq![digit_char(n)];
        assert(decimal(n) == s);
        assert(digit_value(digit_char(n)) == n);
        assert(s.drop_last() =~= Seq::<char>::empty());
        assert(digits_value(s) == digits_value(s.drop_last()) * 10 + digit_value(s.last()));
        assert(digits_value(s) == n);
    }
}

/// Reading back the decimal representation of a number gives the number.
pub proof fn lemma_parse_decimal_roundtrip(n: nat, max: nat)
    requires
        n <= max,
    ensures
        parse_unsigned(decimal(n), max) == Some(n),
{
    lemma_decimal_digits(n);
    assert(is_digit(decimal(n)[0]));
}

/// No line of a text holds a line break.
pub proof fn lemma_lines_have_no_break(s: Seq<char>)
    ensures
        forall|k: int| 0 <= k < lines_of(s).len() ==> !(#[trigger] lines_of(s)[k]).contains('\n'),
    decreases s.len(),
{
    if s.len() > 0 {
        lemma_first_index_bounds(s, '\n');
        let i = first_index(s, '\n');
        if i < s.len() {
            lemma_lines_have_no_break(s.skip(i + 1));
            let l = strip_cr(s.take(i));
            if l.contains('\n') {
                let k = choose|k: int| 0 <= k < l.len() && l[k] == '\n';
                assert(s[k] == '\n');
            }
            assert forall|k: int| 0 <= k < lines_of(s).len() implies !(#[trigger] lines_of(s)[k]).contains('\n') by {
                if k > 0 {
                    assert(lines_of(s)[k] == lines_of(s.skip(i + 1))[k - 1]);
                }
            }
        }
    }
}

/// Removing trailing white space twice is removing it once.
pub proof fn lemma_trim_end_idempotent(s: Seq<char>)
    ensures
        trim_end(trim_end(s)) == trim_end(s),
        trim_end(s).len() > 0 ==> !is_white_space(trim_end(s).last()),
    decreases s.len(),
{
    if s.len() > 0 && is_white_space(s.last()) {
        lemma_trim_end_idempotent(s.drop_last());
    }
}

} // verus!
