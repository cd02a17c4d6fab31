//! Character-level helpers shared by the rest of the library: decimal
//! rendering of integers and conversions between `str` and `Vec<char>`.

use vstd::prelude::*;

verus! {

/// The ten ASCII decimal digits, in order.
pub open spec fn digits() -> Seq<char> {
    seq!['0', '1', '2', '3', '4', '5', '6', '7', '8', '9']
}

/// The decimal rendering of `n`, most significant digit first, with no sign
/// and no leading zeros (the text that `Display` writes for an unsigned integer).
pub open spec fn decimal(n: nat) -> Seq<char>
    decreases n,
{
    if n < 10 {
        seq![digits()[n as int]]
    } else {
        decimal(n / 10).push(digits()[(n % 10) as int])
    }
}

/// `String::push`. Trusted: afterwards the string is the old one with `c`
/// appended, as the standard library documents.
#[verifier::external_body]
fn push_char(s: &mut String, c: char)
    ensures
        final(s)@ == old(s)@.push(c),
{
    s.push(c);
}

fn digit_char(d: usize) -> (c: char)
    requires
        d < 10,
    ensures
        c == digits()[d as int],
{
    match d {
        0 => '0',
        1 => '1',
        2 => '2',
        3 => '3',
        4 => '4',
        5 => '5',
        6 => '6',
        7 => '7',
        8 => '8',
        _ => '9',
    }
}

/// Appends the decimal rendering of `n` to `s`.
pub fn push_decimal(s: &mut String, n: usize)
    ensures
        final(s)@ == old(s)@ + decimal(n as nat),
    decreases n,
{
    let ghost start = s@;
    if n >= 10 {
        push_decimal(s, n / 10);
    }
    push_char(s, digit_char(n % 10));
    proof {
        if n >= 10 {
            assert(s@ =~= start + decimal(n as nat));
        } else {
            assert(s@ =~= start + decimal(n as nat));
        }
    }
}

/// The decimal rendering of `n` as a new `String`.
pub fn decimal_string(n: usize) -> (s: String)
    ensures
        s@ == decimal(n as nat),
{
    let mut s = String::new();
    push_decimal(&mut s, n);
    proof {
        assert(s@ =~= decimal(n as nat));
    }
    s
}

/// The characters of `s`, in order.
pub fn chars_of(s: &str) -> (v: Vec<char>)
    ensures
        v@ == s@,
{
    let mut v: Vec<char> = Vec::new();
    for c in it: s.chars()
        invariant
            it.seq() == s@,
            v.len() == it.index(),
            forall|i: int| 0 <= i < v.len() ==> v@[i] == it.seq()[i],
    {
        v.push(c);
    }
    assert(v@ =~= s@);
    v
}

/// A `String` holding exactly the characters `v`.
pub fn string_of(v: &Vec<char>) -> (s: String)
    ensures
        s@ == v@,
{
    let mut s = String::new();
    for i in 0..v.len()
        invariant
            s@ == v@.take(i as int),
    {
        push_char(&mut s, v[i]);
        proof {
            assert(v@.take(i + 1) =~= v@.take(i as int).push(v@[i as int]));
        }
    }
    proof {
        assert(v@.take(v@.len() as int) =~= v@);
    }
    s
}


/// Whether `c` has the Unicode `White_Space` property, as
/// `char::is_whitespace` tests: U+0009 to U+000D, U+0020, U+0085, U+00A0,
/// U+1680, U+2000 to U+200A, U+2028, U+2029, U+202F, U+205F and U+3000.
pub open spec fn is_whitespace(c: char) -> bool {
    ||| ('\u{9}' <= c && c <= '\u{D}')
    ||| c == ' '
    ||| c == '\u{85}'
    ||| c == '\u{A0}'
    ||| c == '\u{1680}'
    ||| ('\u{2000}' <= c && c <= '\u{200A}')
    ||| c == '\u{2028}'
    ||| c == '\u{2029}'
    ||| c == '\u{202F}'
    ||| c == '\u{205F}'
    ||| c == '\u{3000}'
}

/// Whether `c` is whitespace (has the Unicode `White_Space` property).
pub fn char_is_whitespace(c: char) -> (b: bool)
    ensures
        b == is_whitespace(c),
{
    ('\u{9}' <= c && c <= '\u{D}') || c == ' ' || c == '\u{85}' || c == '\u{A0}' || c
        == '\u{1680}' || ('\u{2000}' <= c && c <= '\u{200A}') || c == '\u{2028}' || c
        == '\u{2029}' || c == '\u{202F}' || c == '\u{205F}' || c == '\u{3000}'
}

/// `s` without its leading whitespace.
pub open spec fn trim_start(s: Seq<char>) -> Seq<char>
    decreases s.len(),
{
    if s.len() > 0 && is_whitespace(s[0]) {
        trim_start(s.drop_first())
    } else {
        s
    }
}

/// `s` without its trailing whitespace.
pub open spec fn trim_end(s: Seq<char>) -> Seq<char>
    decreases s.len(),
{
    if s.len() > 0 && is_whitespace(s.last()) {
        trim_end(s.drop_last())
    } else {
        s
    }
}

/// `s` without leading and trailing whitespace (`str::trim`).
pub open spec fn trim(s: Seq<char>) -> Seq<char> {
    trim_end(trim_start(s))
}

/// `s` with every trailing copy of the non-empty `pat` removed, one after
/// another (`str::trim_end_matches` with a string pattern).
pub open spec fn trim_end_matches(s: Seq<char>, pat: Seq<char>) -> Seq<char>
    decreases s.len(),
{
    if pat.len() > 0 && pat.len() <= s.len() && s.subrange(s.len() - pat.len(), s.len() as int)
        == pat {
        trim_end_matches(s.take(s.len() - pat.len()), pat)
    } else {
        s
    }
}

/// `v[from..to]` as a new vector.
pub fn sub_chars(v: &Vec<char>, from: usize, to: usize) -> (r: Vec<char>)
    requires
        from <= to <= v.len(),
    ensures
        r@ == v@.subrange(from as int, to as int),
{
    let mut r: Vec<char> = Vec::new();
    let mut i = from;
    while i < to
        invariant
            from <= i <= to <= v.len(),
            r@ == v@.subrange(from as int, i as int),
        decreases to - i,
    {
        r.push(v[i]);
        i = i + 1;
        assert(r@ =~= v@.subrange(from as int, i as int));
    }
    r
}

/// Whether `p` is a prefix of `v`.
pub fn starts_with(v: &Vec<char>, p: &Vec<char>) -> (b: bool)
    ensures
        b == p@.is_prefix_of(v@),
{
    if p.len() > v.len() {
        return false;
    }
    let mut i: usize = 0;
    while i < p.len()
        invariant
            p.len() <= v.len(),
            i <= p.len(),
            forall|j: int| 0 <= j < i ==> p@[j] == v@[j],
        decreases p.len() - i,
    {
        if p[i] != v[i] {
            return false;
        }
        i = i + 1;
    }
    assert(p@ =~= v@.take(p@.len() as int));
    true
}

/// Whether `p` is a suffix of `v`.
pub fn ends_with(v: &Vec<char>, p: &Vec<char>) -> (b: bool)
    ensures
        b == (p@.len() <= v@.len() && v@.subrange(v@.len() - p@.len(), v@.len() as int) == p@),
{
    if p.len() > v.len() {
        return false;
    }
    let off = v.len() - p.len();
    let mut i: usize = 0;
    while i < p.len()
        invariant
            p.len() <= v.len(),
            off == v.len() - p.len(),
            i <= p.len(),
            forall|j: int| 0 <= j < i ==> p@[j] == v@[off + j],
        decreases p.len() - i,
    {
        if p[i] != v[off + i] {
            assert(v@.subrange(off as int, v@.len() as int)[i as int] != p@[i as int]);
            return false;
        }
        i = i + 1;
    }
    assert(v@.subrange(off as int, v@.len() as int) =~= p@);
    true
}

/// `v` without leading and trailing whitespace.
pub fn trim_chars(v: &Vec<char>) -> (r: Vec<char>)
    ensures
        r@ == trim(v@),
{
    let mut start: usize = 0;
    assert(v@.subrange(0, v@.len() as int) =~= v@);
    while start < v.len() && char_is_whitespace(v[start])
        invariant
            start <= v.len(),
            trim_start(v@) == trim_start(v@.subrange(start as int, v@.len() as int)),
        decreases v.len() - start,
    {
        assert(v@.subrange(start as int, v@.len() as int).drop_first() =~= v@.subrange(
            start + 1,
            v@.len() as int,
        ));
        start = start + 1;
    }
    let ghost front = v@.subrange(start as int, v@.len() as int);
    assert(trim_start(v@) == front);
    let mut end: usize = v.len();
    while end > start && char_is_whitespace(v[end - 1])
        invariant
            start <= end <= v.len(),
            front == v@.subrange(start as int, v@.len() as int),
            trim_end(front) == trim_end(v@.subrange(start as int, end as int)),
        decreases end,
    {
        assert(v@.subrange(start as int, end as int).drop_last() =~= v@.subrange(
            start as int,
            end - 1,
        ));
        end = end - 1;
    }
    sub_chars(v, start, end)
}

/// `v` with every trailing copy of the non-empty `pat` removed.
pub fn trim_end_matches_chars(v: &Vec<char>, pat: &Vec<char>) -> (r: Vec<char>)
    ensures
        r@ == trim_end_matches(v@, pat@),
{
    let mut end: usize = v.len();
    let mut cur = sub_chars(v, 0, end);
    assert(cur@ =~= v@);
    while pat.len() > 0 && ends_with(&cur, pat)
        invariant
            end <= v.len(),
            cur@ == v@.take(end as int),
            trim_end_matches(v@, pat@) == trim_end_matches(cur@, pat@),
        decreases end,
    {
        end = end - pat.len();
        cur.truncate(end);
        assert(cur@ =~= v@.take(end as int));
    }
    cur
}


/// Index of the first character of `s` that is `a` or `b`; the length of `s`
/// when there is none.
pub open spec fn first_of(s: Seq<char>, a: char, b: char) -> nat
    decreases s.len(),
{
    if s.len() == 0 {
        0
    } else if s[0] == a || s[0] == b {
        0
    } else {
        1 + first_of(s.drop_first(), a, b)
    }
}

/// What `first_of` says of the characters before the index it gives.
pub proof fn lemma_first_of(s: Seq<char>, a: char, b: char)
    ensures
        first_of(s, a, b) <= s.len(),
        first_of(s, a, b) < s.len() ==> (s[first_of(s, a, b) as int] == a || s[first_of(
            s,
            a,
            b,
        ) as int] == b),
        forall|i: int| 0 <= i < first_of(s, a, b) ==> s[i] != a && s[i] != b,
    decreases s.len(),
{
    if s.len() > 0 && s[0] != a && s[0] != b {
        lemma_first_of(s.drop_first(), a, b);
        assert forall|i: int| 0 <= i < first_of(s, a, b) implies s[i] != a && s[i] != b by {
            if i > 0 {
                assert(s[i] == s.drop_first()[i - 1]);
            }
        }
    }
}

/// Index of the first `a` or `b` in `v`, or its length.
pub fn find_first_of(v: &Vec<char>, a: char, b: char) -> (i: usize)
    ensures
        i == first_of(v@, a, b),
{
    let mut i: usize = 0;
    assert(v@.skip(0) =~= v@);
    while i < v.len() && v[i] != a && v[i] != b
        invariant
            i <= v.len(),
            first_of(v@, a, b) == i + first_of(v@.skip(i as int), a, b),
        decreases v.len() - i,
    {
        assert(v@.skip(i as int).drop_first() =~= v@.skip(i + 1));
        i = i + 1;
    }
    i
}

/// Whether `c` is an ASCII decimal digit.
pub open spec fn is_digit(c: char) -> bool {
    '0' <= c && c <= '9'
}

/// The number that a string of decimal digits denotes.
pub open spec fn digits_value(s: Seq<char>) -> nat
    decreases s.len(),
{
    if s.len() == 0 {
        0
    } else {
        digits_value(s.drop_last()) * 10 + ((s.last() as u32) - ('0' as u32)) as nat
    }
}

/// `s` without one leading `+`.
pub open spec fn without_plus(s: Seq<char>) -> Seq<char> {
    if s.len() > 0 && s[0] == '+' {
        s.drop_first()
    } else {
        s
    }
}

/// Whether every character of `s` is a decimal digit.
pub open spec fn all_digits(s: Seq<char>) -> bool {
    forall|i: int| 0 <= i < s.len() ==> is_digit(#[trigger] s[i])
}

/// What `str::parse::<usize>` gives for `s`: an optional `+` followed by at
/// least one decimal digit and nothing else, denoting a value that fits.
pub open spec fn spec_parse_usize(s: Seq<char>) -> Option<usize> {
    let d = without_plus(s);
    if d.len() > 0 && all_digits(d) && digits_value(d) <= usize::MAX {
        Some(digits_value(d) as usize)
    } else {
        None
    }
}

proof fn lemma_digits_value_prefix(s: Seq<char>, i: int)
    requires
        0 <= i <= s.len(),
        forall|j: int| 0 <= j < s.len() ==> is_digit(#[trigger] s[j]),
    ensures
        digits_value(s.take(i)) <= digits_value(s),
    decreases s.len(),
{
    if i < s.len() {
        assert(s.drop_last().take(i) =~= s.take(i));
        lemma_digits_value_prefix(s.drop_last(), i);
    } else {
        assert(s.take(i) =~= s);
    }
}

/// Parses a decimal `usize` as `str::parse::<usize>` does.
pub fn parse_usize(s: &str) -> (r: Option<usize>)
    ensures
        r == spec_parse_usize(s@),
{
    let v = chars_of(s);
    let start: usize = if v.len() > 0 && v[0] == '+' {
        1
    } else {
        0
    };
    let ghost d = without_plus(v@);
    assert(d =~= v@.skip(start as int));
    if start >= v.len() {
        return None;
    }
    let mut acc: usize = 0;
    let mut i = start;
    while i < v.len()
        invariant
            start <= i <= v.len(),
            start < v.len(),
            v@ == s@,
            d == without_plus(v@),
            d == v@.skip(start as int),
            forall|j: int| start <= j < i ==> is_digit(#[trigger] v@[j]),
            acc == digits_value(d.take(i - start)),
        decreases v.len() - i,
    {
        let c = v[i];
        assert(d[i - start] == v@[i as int]);
        if !('0' <= c && c <= '9') {
            assert(!is_digit(d[i - start]));
            assert(!(forall|j: int| 0 <= j < d.len() ==> is_digit(#[trigger] d[j])));
            assert(spec_parse_usize(s@) is None);
            return None;
        }
        let digit = ((c as u32) - ('0' as u32)) as usize;
        assert(d.take(i + 1 - start).drop_last() =~= d.take(i - start));
        if acc > (usize::MAX - digit) / 10 {
            proof {
                assert(acc * 10 + digit > usize::MAX) by (nonlinear_arith)
                    requires
                        acc > (usize::MAX - digit) / 10,
                        digit <= 9,
                ;
                assert(d.take(i + 1 - start).last() == c);
                assert forall|j: int| 0 <= j < d.take(i + 1 - start).len() implies is_digit(
                    #[trigger] d.take(i + 1 - start)[j],
                ) by {
                    assert(d.take(i + 1 - start)[j] == v@[start + j]);
                }
                if forall|j: int| 0 <= j < d.len() ==> is_digit(#[trigger] d[j]) {
                    lemma_digits_value_prefix(d, i + 1 - start);
                    assert(digits_value(d) > usize::MAX);
                }
                assert(spec_parse_usize(s@) is None);
            }
            return None;
        }
        acc = acc * 10 + digit;
        i = i + 1;
    }
    assert(d.take(i - start) =~= d);
    assert forall|j: int| 0 <= j < d.len() implies is_digit(#[trigger] d[j]) by {
        assert(d[j] == v@[start + j]);
    }
    Some(acc)
}

} // verus!
