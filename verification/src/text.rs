//! Character-sequence utilities shared by the parsing and formatting code:
//! whitespace trimming, substring search, decimal-digit reading and writing,
//! and construction of `String` values whose contents are pinned by
//! specification-level `Seq<char>` functions.

use vstd::prelude::*;
use vstd::string::StrSliceExecFns;
use vstd::string::StringExecFns;

verus! {

/// The whitespace characters recognised by this library when lines are
/// trimmed: the ASCII blank characters.
pub open spec fn spec_is_space(c: char) -> bool {
    c == ' ' || c == '\t' || c == '\r' || c == '\n' || c == '\u{b}' || c == '\u{c}'
}

fn is_space(c: char) -> (r: bool)
    ensures
        r == spec_is_space(c),
{
    c == ' ' || c == '\t' || c == '\r' || c == '\n' || c == '\u{b}' || c == '\u{c}'
}

/// The given sequence with leading and trailing whitespace removed.
pub open spec fn spec_trim(s: Seq<char>) -> Seq<char>
    decreases s.len(),
{
    if s.len() > 0 && spec_is_space(s[0]) {
        spec_trim(s.drop_first())
    } else if s.len() > 0 && spec_is_space(s.last()) {
        spec_trim(s.drop_last())
    } else {
        s
    }
}

proof fn lemma_trim_is_subrange(s: Seq<char>, a: int, b: int)
    requires
        0 <= a <= b <= s.len(),
        forall|i: int| 0 <= i < a ==> spec_is_space(s[i]),
        forall|i: int| b <= i < s.len() ==> spec_is_space(s[i]),
        a < b ==> !spec_is_space(s[a]) && !spec_is_space(s[b - 1]),
    ensures
        spec_trim(s) == s.subrange(a, b),
    decreases s.len(),
{
    if a > 0 {
        assert(spec_is_space(s[0]));
        lemma_trim_is_subrange(s.drop_first(), a - 1, b - 1);
        assert(s.drop_first().subrange(a - 1, b - 1) =~= s.subrange(a, b));
    } else if b < s.len() {
        if a == b {
            assert(spec_is_space(s[0]));
            lemma_trim_is_subrange(s.drop_first(), 0, 0);
            assert(s.drop_first().subrange(0, 0) =~= s.subrange(a, b));
        } else {
            assert(!spec_is_space(s[0]));
            assert(spec_is_space(s.last()));
            lemma_trim_is_subrange(s.drop_last(), a, b);
            assert(s.drop_last().subrange(a, b) =~= s.subrange(a, b));
        }
    } else {
        if s.len() == 0 {
            assert(spec_trim(s) =~= s.subrange(a, b));
        } else {
            assert(!spec_is_space(s[0]));
            assert(!spec_is_space(s.last()));
            assert(spec_trim(s) =~= s.subrange(a, b));
        }
    }
}

/// Copies the characters of `v` between `lo` (inclusive) and `hi` (exclusive).
pub fn sub_chars(v: &Vec<char>, lo: usize, hi: usize) -> (r: Vec<char>)
    requires
        lo <= hi <= v@.len(),
    ensures
        r@ == v@.subrange(lo as int, hi as int),
{
    let mut r: Vec<char> = Vec::new();
    let mut i: usize = lo;
    while i < hi
        invariant
            lo <= i <= hi <= v@.len(),
            r@ == v@.subrange(lo as int, i as int),
        decreases hi - i,
    {
        proof {
            assert(v@.subrange(lo as int, i + 1 as int) =~= v@.subrange(lo as int, i as int).push(
                v@[i as int],
            ));
        }
        r.push(v[i]);
        i += 1;
    }
    r
}

/// Copies `v` with leading and trailing whitespace removed.
pub fn trim_chars(v: &Vec<char>) -> (r: Vec<char>)
    ensures
        r@ == spec_trim(v@),
        r@.len() <= v@.len(),
{
    let n = v.len();
    let mut a: usize = 0;
    while a < n && is_space(v[a])
        invariant
            0 <= a <= n == v@.len(),
            forall|i: int| 0 <= i < a ==> spec_is_space(v@[i]),
        decreases n - a,
    {
        a += 1;
    }
    let mut b: usize = n;
    while b > a && is_space(v[b - 1])
        invariant
            a <= b <= n == v@.len(),
            forall|i: int| b <= i < n ==> spec_is_space(v@[i]),
        decreases b,
    {
        b -= 1;
    }
    proof {
        lemma_trim_is_subrange(v@, a as int, b as int);
    }
    sub_chars(v, a, b)
}

/// Index of the first occurrence of `c` in `s`, or `-1` when `c` is absent.
pub open spec fn spec_find_char(s: Seq<char>, c: char) -> int
    decreases s.len(),
{
    if s.len() == 0 {
        -1
    } else if s[0] == c {
        0
    } else {
        let r = spec_find_char(s.drop_first(), c);
        if r == -1 {
            -1
        } else {
            r + 1
        }
    }
}

pub proof fn lemma_find_char_at(s: Seq<char>, c: char, j: int)
    requires
        0 <= j < s.len(),
        s[j] == c,
        forall|i: int| 0 <= i < j ==> s[i] != c,
    ensures
        spec_find_char(s, c) == j,
    decreases s.len(),
{
    if j == 0 {
    } else {
        assert(s[0] != c);
        lemma_find_char_at(s.drop_first(), c, j - 1);
    }
}

pub proof fn lemma_find_char_none(s: Seq<char>, c: char)
    requires
        forall|i: int| 0 <= i < s.len() ==> s[i] != c,
    ensures
        spec_find_char(s, c) == -1,
    decreases s.len(),
{
    if s.len() > 0 {
        lemma_find_char_none(s.drop_first(), c);
    }
}

pub proof fn lemma_find_char_props(s: Seq<char>, c: char)
    ensures
        spec_find_char(s, c) == -1 ==> (forall|i: int| 0 <= i < s.len() ==> s[i] != c),
        spec_find_char(s, c) != -1 ==> {
            let r = spec_find_char(s, c);
            &&& 0 <= r < s.len()
            &&& s[r] == c
            &&& (forall|i: int| 0 <= i < r ==> s[i] != c)
        },
    decreases s.len(),
{
    if s.len() > 0 && s[0] != c {
        lemma_find_char_props(s.drop_first(), c);
        let r0 = spec_find_char(s.drop_first(), c);
        if r0 == -1 {
            assert forall|i: int| 0 <= i < s.len() implies s[i] != c by {
                if i > 0 {
                    assert(s.drop_first()[i - 1] != c);
                }
            }
        } else {
            assert(s[r0 + 1] == s.drop_first()[r0]);
            assert forall|i: int| 0 <= i < r0 + 1 implies s[i] != c by {
                if i > 0 {
                    assert(s.drop_first()[i - 1] != c);
                }
            }
        }
    }
}

/// Index of the first occurrence of `c` in `v`, if any.
pub fn find_char(v: &Vec<char>, c: char) -> (r: Option<usize>)
    ensures
        (match r {
            Some(i) => spec_find_char(v@, c) == i as int,
            None => spec_find_char(v@, c) == -1,
        }),
{
    let mut i: usize = 0;
    let n = v.len();
    while i < n
        invariant
            0 <= i <= n == v@.len(),
            forall|j: int| 0 <= j < i ==> v@[j] != c,
        decreases n - i,
    {
        if v[i] == c {
            proof {
                lemma_find_char_at(v@, c, i as int);
            }
            return Some(i);
        }
        i += 1;
    }
    proof {
        lemma_find_char_none(v@, c);
    }
    None
}

/// Holds when `p` is a prefix of `s`.
pub open spec fn spec_starts_with(s: Seq<char>, p: Seq<char>) -> bool {
    p.len() <= s.len() && s.subrange(0, p.len() as int) == p
}

pub fn starts_with_chars(s: &Vec<char>, p: &Vec<char>) -> (r: bool)
    ensures
        r == spec_starts_with(s@, p@),
{
    let m = p.len();
    if m > s.len() {
        return false;
    }
    let mut i: usize = 0;
    while i < m
        invariant
            0 <= i <= m == p@.len() <= s@.len(),
            forall|j: int| 0 <= j < i ==> s@[j] == p@[j],
        decreases m - i,
    {
        if s[i] != p[i] {
            proof {
                assert(s@.subrange(0, p@.len() as int)[i as int] != p@[i as int]);
            }
            return false;
        }
        i += 1;
    }
    proof {
        assert(s@.subrange(0, p@.len() as int) =~= p@);
    }
    true
}

/// Holds for the ten ASCII decimal digits.
pub open spec fn spec_is_digit(c: char) -> bool {
    '0' <= c && c <= '9'
}

fn is_digit(c: char) -> (r: bool)
    ensures
        r == spec_is_digit(c),
{
    '0' <= c && c <= '9'
}

/// The numeric value of an ASCII decimal digit.
pub open spec fn spec_digit_val(c: char) -> int {
    if c == '0' {
        0
    } else if c == '1' {
        1
    } else if c == '2' {
        2
    } else if c == '3' {
        3
    } else if c == '4' {
        4
    } else if c == '5' {
        5
    } else if c == '6' {
        6
    } else if c == '7' {
        7
    } else if c == '8' {
        8
    } else {
        9
    }
}

fn digit_val(c: char) -> (r: u32)
    requires
        spec_is_digit(c),
    ensures
        r as int == spec_digit_val(c),
{
    if c == '0' {
        0
    } else if c == '1' {
        1
    } else if c == '2' {
        2
    } else if c == '3' {
        3
    } else if c == '4' {
        4
    } else if c == '5' {
        5
    } else if c == '6' {
        6
    } else if c == '7' {
        7
    } else if c == '8' {
        8
    } else {
        9
    }
}

/// The ASCII decimal digit for a value between 0 and 9.
pub open spec fn spec_digit_char(d: int) -> char {
    if d == 0 {
        '0'
    } else if d == 1 {
        '1'
    } else if d == 2 {
        '2'
    } else if d == 3 {
        '3'
    } else if d == 4 {
        '4'
    } else if d == 5 {
        '5'
    } else if d == 6 {
        '6'
    } else if d == 7 {
        '7'
    } else if d == 8 {
        '8'
    } else {
        '9'
    }
}

fn digit_char(d: u64) -> (r: char)
    requires
        d <= 9,
    ensures
        r == spec_digit_char(d as int),
{
    if d == 0 {
        '0'
    } else if d == 1 {
        '1'
    } else if d == 2 {
        '2'
    } else if d == 3 {
        '3'
    } else if d == 4 {
        '4'
    } else if d == 5 {
        '5'
    } else if d == 6 {
        '6'
    } else if d == 7 {
        '7'
    } else if d == 8 {
        '8'
    } else {
        '9'
    }
}

/// Holds when `s` is a non-empty run of ASCII decimal digits.
pub open spec fn spec_is_digits(s: Seq<char>) -> bool {
    s.len() > 0 && (forall|i: int| 0 <= i < s.len() ==> spec_is_digit(s[i]))
}

/// The value of a digit run read as a decimal number.
pub open spec fn spec_digits_val(s: Seq<char>) -> int
    decreases s.len(),
{
    if s.len() == 0 {
        0
    } else {
        spec_digits_val(s.drop_last()) * 10 + spec_digit_val(s.last())
    }
}

/// How a `parse_number_token` call classified its input.
pub(crate) enum NumberToken {
    /// The token is empty or holds a character that is not an ASCII digit.
    Malformed,
    /// The token is a digit run whose value exceeds the given bound.
    OutOfRange,
    /// The token is a digit run with this value, within the given bound.
    Value(u32),
}

/// Reads a token as an unsigned decimal number no greater than `max`.
pub(crate) fn parse_number_token(tok: &Vec<char>, max: u32) -> (r: NumberToken)
    ensures
        (match r {
            NumberToken::Malformed => !spec_is_digits(tok@),
            NumberToken::OutOfRange => spec_is_digits(tok@) && spec_digits_val(tok@) > max,
            NumberToken::Value(v) => spec_is_digits(tok@) && spec_digits_val(tok@) == v && v
                <= max,
        }),
{
    let n = tok.len();
    if n == 0 {
        return NumberToken::Malformed;
    }
    let mut i: usize = 0;
    let mut val: u64 = 0;
    let mut over: bool = false;
    while i < n
        invariant
            0 <= i <= n == tok@.len(),
            forall|j: int| 0 <= j < i ==> spec_is_digit(tok@[j]),
            !over ==> val as int == spec_digits_val(tok@.take(i as int)) && val <= max,
            over ==> spec_digits_val(tok@.take(i as int)) > max,
        decreases n - i,
    {
        let c = tok[i];
        if !is_digit(c) {
            proof {
                assert(!spec_is_digit(tok@[i as int]));
            }
            return NumberToken::Malformed;
        }
        let d = digit_val(c);
        proof {
            assert(tok@.take(i + 1 as int).drop_last() =~= tok@.take(i as int));
            assert(tok@.take(i + 1 as int).last() == tok@[i as int]);
        }
        if !over {
            let nv: u64 = val * 10 + d as u64;
            if nv > max as u64 {
                over = true;
            } else {
                val = nv;
            }
        }
        i += 1;
    }
    proof {
        assert(tok@.take(n as int) =~= tok@);
    }
    if over {
        NumberToken::OutOfRange
    } else {
        NumberToken::Value(val as u32)
    }
}

/// The value of a one-digit run is its digit's value.
pub proof fn lemma_digits_val_single(c: char)
    ensures
        spec_digits_val(seq![c]) == spec_digit_val(c),
{
    assert(seq![c].drop_last() =~= Seq::<char>::empty());
    assert(spec_digits_val(Seq::<char>::empty()) == 0);
}

/// The value of a two-digit run combines its digits' values.
pub proof fn lemma_digits_val_pair(c1: char, c2: char)
    ensures
        spec_digits_val(seq![c1, c2]) == spec_digit_val(c1) * 10 + spec_digit_val(c2),
{
    lemma_digits_val_single(c1);
    assert(seq![c1, c2].drop_last() =~= seq![c1]);
    assert(seq![c1, c2].last() == c2);
}

/// The decimal rendering of a non-negative number, without leading zeros
/// (a single `0` for zero).
pub open spec fn spec_num_string(n: int) -> Seq<char>
    decreases n,
{
    if n < 10 {
        seq![spec_digit_char(n)]
    } else {
        spec_num_string(n / 10).push(spec_digit_char(n % 10))
    }
}

/// Appends one character to a string.
///
/// Relies on std's `String::push`, which appends exactly the given character
/// at the end of the string.
#[verifier::external_body]
pub(crate) fn push_char(s: &mut String, c: char)
    ensures
        final (s)@ == old(s)@.push(c),
{
    s.push(c);
}

/// Renders a number in decimal.
pub fn num_to_string(n: u64) -> (r: String)
    ensures
        r@ == spec_num_string(n as int),
    decreases n,
{
    if n < 10 {
        let mut s = String::new();
        push_char(&mut s, digit_char(n));
        proof {
            assert(s@ =~= spec_num_string(n as int));
        }
        s
    } else {
        let mut s = num_to_string(n / 10);
        push_char(&mut s, digit_char(n % 10));
        s
    }
}

/// A number between 0 and 99 rendered as exactly two decimal digits.
pub open spec fn spec_two_digits(m: int) -> Seq<char> {
    seq![spec_digit_char(m / 10), spec_digit_char(m % 10)]
}

/// Renders a number below 100 as two zero-padded decimal digits.
pub fn two_digits_string(m: u64) -> (r: String)
    requires
        m <= 99,
    ensures
        r@ == spec_two_digits(m as int),
{
    let mut s = String::new();
    push_char(&mut s, digit_char(m / 10));
    push_char(&mut s, digit_char(m % 10));
    proof {
        assert(s@ =~= spec_two_digits(m as int));
    }
    s
}

/// Copies a character vector into a `String` with the same contents.
pub fn chars_to_string(v: &Vec<char>) -> (r: String)
    ensures
        r@ == v@,
{
    let mut s = String::new();
    let mut i: usize = 0;
    let n = v.len();
    while i < n
        invariant
            0 <= i <= n == v@.len(),
            s@ == v@.take(i as int),
        decreases n - i,
    {
        push_char(&mut s, v[i]);
        proof {
            assert(v@.take(i as int).push(v@[i as int]) =~= v@.take(i + 1 as int));
        }
        i += 1;
    }
    proof {
        assert(v@.take(n as int) =~= v@);
    }
    s
}

/// Copies the characters of a string slice into a vector.
pub fn str_to_chars(s: &str) -> (r: Vec<char>)
    ensures
        r@ == s@,
{
    let n = s.unicode_len();
    let mut r: Vec<char> = Vec::new();
    let mut i: usize = 0;
    while i < n
        invariant
            0 <= i <= n == s@.len(),
            r@ == s@.take(i as int),
        decreases n - i,
    {
        let c = s.get_char(i);
        r.push(c);
        proof {
            assert(s@.take(i as int).push(s@[i as int]) =~= s@.take(i + 1 as int));
        }
        i += 1;
    }
    proof {
        assert(s@.take(n as int) =~= s@);
    }
    r
}

/// A string made of a literal prefix followed by the given characters.
pub fn str_then_chars(prefix: &str, tail: &Vec<char>) -> (r: String)
    ensures
        r@ == prefix@ + tail@,
{
    let mut s = String::from_str(prefix);
    let t = chars_to_string(tail);
    s.append(t.as_str());
    s
}

/// Appends an element to a vector, extending its abstraction by the
/// element's abstraction.
pub(crate) fn push_dv<T: DeepView>(v: &mut Vec<T>, x: T)
    ensures
        final (v).deep_view() == old(v).deep_view().push(x.deep_view()),
{
    let ghost pre = v.deep_view();
    let ghost pv = v@;
    let ghost xv = x.deep_view();
    v.push(x);
    proof {
        assert forall|k: int| 0 <= k < pre.len() implies v.deep_view()[k] == pre[k] by {
            assert(v@[k] == pv[k]);
            assert(pre[k] == pv[k].deep_view());
        }
        assert(v@[pre.len() as int].deep_view() == xv);
        assert(v.deep_view() =~= pre.push(xv));
    }
}

/// A vector of characters abstracts, through `deep_view`, to the same
/// sequence as through `view`.
pub broadcast proof fn lemma_char_vec_deep_view(v: Vec<char>)
    ensures
        #[trigger] v.deep_view() == v@,
{
    assert(v.deep_view() =~= v@);
}

/// The input split at newline characters; the separators belong to no line,
/// and an input without a newline is one line.
pub open spec fn spec_split_lines(s: Seq<char>) -> Seq<Seq<char>>
    decreases s.len(),
    via spec_split_lines_decreases
{
    let i = spec_find_char(s, '\n');
    if i == -1 {
        seq![s]
    } else {
        seq![s.take(i)] + spec_split_lines(s.skip(i + 1))
    }
}

#[via_fn]
proof fn spec_split_lines_decreases(s: Seq<char>) {
    lemma_find_char_props(s, '\n');
}

/// Splitting yields at most one line more than there are characters.
pub proof fn lemma_split_lines_count(s: Seq<char>)
    ensures
        spec_split_lines(s).len() <= s.len() + 1,
    decreases s.len(),
{
    lemma_find_char_props(s, '\n');
    let i = spec_find_char(s, '\n');
    if i != -1 {
        lemma_split_lines_count(s.skip(i + 1));
    }
}

/// Splits the characters of `v` at newline characters.
pub fn split_lines(v: &Vec<char>) -> (r: Vec<Vec<char>>)
    ensures
        r.deep_view() == spec_split_lines(v@),
{
    broadcast use lemma_char_vec_deep_view;

    let mut r: Vec<Vec<char>> = Vec::new();
    let mut start: usize = 0;
    let mut j: usize = 0;
    let n = v.len();
    proof {
        assert(v@.skip(0) =~= v@);
        assert(r.deep_view() =~= Seq::<Seq<char>>::empty());
        assert(Seq::<Seq<char>>::empty() + spec_split_lines(v@) =~= spec_split_lines(v@));
    }
    while j < n
        invariant
            0 <= start <= j <= n == v@.len(),
            forall|k: int| start <= k < j ==> v@[k] != '\n',
            spec_split_lines(v@) == r.deep_view() + spec_split_lines(v@.skip(start as int)),
        decreases n - j,
    {
        if v[j] == '\n' {
            let line = sub_chars(v, start, j);
            proof {
                let t = v@.skip(start as int);
                assert forall|k: int| 0 <= k < j - start implies t[k] != '\n' by {
                    assert(t[k] == v@[k + start]);
                }
                assert(t[j - start] == v@[j as int]);
                lemma_find_char_at(t, '\n', j - start);
                assert(t.take(j - start) =~= v@.subrange(start as int, j as int));
                assert(t.skip(j - start + 1) =~= v@.skip(j + 1 as int));
            }
            let ghost pre = r.deep_view();
            let ghost pv = r@;
            let ghost lv = line@;
            r.push(line);
            proof {
                assert forall|k: int| 0 <= k < pre.len() implies r.deep_view()[k] == pre[k] by {
                    assert(r@[k] == pv[k]);
                    assert(pre[k] == pv[k].deep_view());
                }
                assert(r@[pre.len() as int].deep_view() == lv);
                assert(r.deep_view() =~= pre.push(lv));
                assert(pre.push(lv) =~= pre + seq![lv]);
                assert(r.deep_view() + spec_split_lines(v@.skip(j + 1 as int)) =~= pre + (seq![
                    v@.skip(start as int).take(j - start)] + spec_split_lines(
                    v@.skip(start as int).skip(j - start + 1),
                )));
            }
            start = j + 1;
        }
        j += 1;
    }
    let line = sub_chars(v, start, n);
    proof {
        let t = v@.skip(start as int);
        assert forall|k: int| 0 <= k < t.len() implies t[k] != '\n' by {
            assert(t[k] == v@[k + start]);
        }
        lemma_find_char_none(t, '\n');
        assert(line@ =~= t);
    }
    let ghost pre = r.deep_view();
    let ghost pv = r@;
    let ghost lv = line@;
    r.push(line);
    proof {
        assert forall|k: int| 0 <= k < pre.len() implies r.deep_view()[k] == pre[k] by {
            assert(r@[k] == pv[k]);
            assert(pre[k] == pv[k].deep_view());
        }
        assert(r@[pre.len() as int].deep_view() == lv);
        assert(r.deep_view() =~= pre.push(lv));
        assert(pre.push(lv) =~= pre + seq![lv]);
        assert(lv == v@.skip(start as int));
        assert(r.deep_view() =~= spec_split_lines(v@));
    }
    r
}

/// Lexicographic order on character sequences by code point, the order used
/// to sort project summaries by name.
pub open spec fn spec_lex_le(a: Seq<char>, b: Seq<char>) -> bool
    decreases a.len(),
{
    if a.len() == 0 {
        true
    } else if b.len() == 0 {
        false
    } else if a[0] != b[0] {
        a[0] < b[0]
    } else {
        spec_lex_le(a.drop_first(), b.drop_first())
    }
}

proof fn lemma_lex_le_skip(a: Seq<char>, b: Seq<char>, i: int)
    requires
        0 <= i <= a.len(),
        i <= b.len(),
        forall|j: int| 0 <= j < i ==> a[j] == b[j],
    ensures
        spec_lex_le(a, b) == spec_lex_le(a.skip(i), b.skip(i)),
    decreases i,
{
    if i > 0 {
        if a.len() > 0 && b.len() > 0 {
            lemma_lex_le_skip(a.drop_first(), b.drop_first(), i - 1);
            assert(a.drop_first().skip(i - 1) =~= a.skip(i));
            assert(b.drop_first().skip(i - 1) =~= b.skip(i));
        }
    } else {
        assert(a.skip(0) =~= a);
        assert(b.skip(0) =~= b);
    }
}

/// Compares two strings in the lexicographic order on their characters.
pub fn lex_le(a: &str, b: &str) -> (r: bool)
    ensures
        r == spec_lex_le(a@, b@),
{
    let na = a.unicode_len();
    let nb = b.unicode_len();
    let mut i: usize = 0;
    while i < na && i < nb
        invariant
            0 <= i <= na == a@.len(),
            i <= nb == b@.len(),
            forall|j: int| 0 <= j < i ==> a@[j] == b@[j],
        decreases na - i,
    {
        let ca = a.get_char(i);
        let cb = b.get_char(i);
        if ca != cb {
            proof {
                lemma_lex_le_skip(a@, b@, i as int);
            }
            return ca < cb;
        }
        i += 1;
    }
    proof {
        lemma_lex_le_skip(a@, b@, i as int);
    }
    na <= nb
}

} // verus!
