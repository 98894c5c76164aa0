//! Character-level text handling shared by the wire protocol and the
//! command-line front end: Unicode whitespace, trimming, whitespace-separated
//! words, and the decimal notation of port numbers.
use vstd::prelude::*;

verus! {

broadcast use vstd::string::group_string_axioms;

// ---------------------------------------------------------------------------
// Whitespace
// ---------------------------------------------------------------------------

/// The Unicode `White_Space` property, the notion of whitespace that `str::trim`
/// and `str::split_whitespace` use.
pub open spec fn is_white_space(c: char) -> bool {
    ||| ('\u{9}' <= c && c <= '\u{d}')
    ||| c == ' '
    ||| c == '\u{85}'
    ||| c == '\u{a0}'
    ||| c == '\u{1680}'
    ||| ('\u{2000}' <= c && c <= '\u{200a}')
    ||| c == '\u{2028}'
    ||| c == '\u{2029}'
    ||| c == '\u{202f}'
    ||| c == '\u{205f}'
    ||| c == '\u{3000}'
}

/// Whether `c` is Unicode whitespace.
pub fn is_white_space_char(c: char) -> (b: bool)
    ensures
        b == is_white_space(c),
{
    ('\u{9}' <= c && c <= '\u{d}') || c == ' ' || c == '\u{85}' || c == '\u{a0}' || c
        == '\u{1680}' || ('\u{2000}' <= c && c <= '\u{200a}') || c == '\u{2028}' || c
        == '\u{2029}' || c == '\u{202f}' || c == '\u{205f}' || c == '\u{3000}'
}

/// `s` holds no whitespace character.
pub open spec fn no_white_space(s: Seq<char>) -> bool {
    forall|i: int| 0 <= i < s.len() ==> !is_white_space(#[trigger] s[i])
}

// ---------------------------------------------------------------------------
// Strings and character vectors
// ---------------------------------------------------------------------------

/// The characters of `s`, in order.
pub fn chars_of(s: &str) -> (v: Vec<char>)
    ensures
        v@ == s@,
{
    let mut v: Vec<char> = Vec::new();
    for c in it: s.chars()
        invariant
            it.seq() == s@,
            v@ == it.seq().take(it.index() as int),
    {
        v.push(c);
    }
    v
}

/// Appends one character to a `String` (`String::push`).
#[verifier::external_body]
pub(crate) fn push_char(s: &mut String, c: char)
    ensures
        final(s)@ == old(s)@.push(c),
{
    s.push(c);
}

/// Appends the characters `v[from..to]` to `out`.
pub fn push_range(out: &mut String, v: &Vec<char>, from: usize, to: usize)
    requires
        from <= to <= v@.len(),
    ensures
        final(out)@ == old(out)@ + v@.subrange(from as int, to as int),
{
    let mut i = from;
    while i < to
        invariant
            from <= i <= to <= v@.len(),
            out@ == old(out)@ + v@.subrange(from as int, i as int),
        decreases to - i,
    {
        push_char(out, v[i]);
        assert(v@.subrange(from as int, i + 1) =~= v@.subrange(from as int, i as int).push(
            v@[i as int],
        ));
        i = i + 1;
    }
}

/// A new `String` holding `v[from..to]`.
pub fn string_of_range(v: &Vec<char>, from: usize, to: usize) -> (s: String)
    requires
        from <= to <= v@.len(),
    ensures
        s@ == v@.subrange(from as int, to as int),
{
    let mut s = String::new();
    push_range(&mut s, v, from, to);
    s
}

/// Appends the whole of `s` to `out`.
pub fn push_str(out: &mut String, s: &str)
    ensures
        final(out)@ == old(out)@ + s@,
{
    let v = chars_of(s);
    push_range(out, &v, 0, v.len());
    assert(v@.subrange(0, v@.len() as int) =~= v@);
}

/// Whether `v[from..to]` equals the characters of `lit`.
pub fn range_equals(v: &Vec<char>, from: usize, to: usize, lit: &str) -> (b: bool)
    requires
        from <= to <= v@.len(),
    ensures
        b == (v@.subrange(from as int, to as int) == lit@),
{
    let w = chars_of(lit);
    if to - from != w.len() {
        return false;
    }
    let mut i: usize = 0;
    while i < w.len()
        invariant
            from <= to <= v@.len(),
            to - from == w@.len(),
            w@ == lit@,
            i <= w@.len(),
            forall|k: int| 0 <= k < i ==> v@[from + k] == w@[k],
        decreases w@.len() - i,
    {
        if v[from + i] != w[i] {
            assert(v@.subrange(from as int, to as int)[i as int] != lit@[i as int]);
            return false;
        }
        i = i + 1;
    }
    assert(v@.subrange(from as int, to as int) =~= lit@);
    true
}

// ---------------------------------------------------------------------------
// Trimming
// ---------------------------------------------------------------------------

/// `s` without its leading whitespace.
pub open spec fn trim_start(s: Seq<char>) -> Seq<char>
    decreases s.len(),
{
    if s.len() > 0 && is_white_space(s[0]) {
        trim_start(s.drop_first())
    } else {
        s
    }
}

/// `s` without its trailing whitespace.
pub open spec fn trim_end(s: Seq<char>) -> Seq<char>
    decreases s.len(),
{
    if s.len() > 0 && is_white_space(s.last()) {
        trim_end(s.drop_last())
    } else {
        s
    }
}

/// `s` without leading and trailing whitespace, as `str::trim` gives it.
pub open spec fn trim(s: Seq<char>) -> Seq<char> {
    trim_end(trim_start(s))
}

proof fn lemma_trim_start_shape(s: Seq<char>) -> (a: int)
    ensures
        0 <= a <= s.len(),
        trim_start(s) == s.skip(a),
        forall|k: int| 0 <= k < a ==> is_white_space(#[trigger] s[k]),
        a < s.len() ==> !is_white_space(s[a]),
    decreases s.len(),
{
    if s.len() > 0 && is_white_space(s[0]) {
        let a = lemma_trim_start_shape(s.drop_first());
        assert(s.drop_first().skip(a) =~= s.skip(a + 1));
        assert forall|k: int| 0 <= k < a + 1 implies is_white_space(#[trigger] s[k]) by {
            if k > 0 {
                assert(s[k] == s.drop_first()[k - 1]);
            }
        }
        a + 1
    } else {
        assert(s.skip(0) =~= s);
        0
    }
}

proof fn lemma_trim_end_shape(s: Seq<char>) -> (b: int)
    ensures
        0 <= b <= s.len(),
        trim_end(s) == s.take(b),
        forall|k: int| b <= k < s.len() ==> is_white_space(#[trigger] s[k]),
        b > 0 ==> !is_white_space(s[b - 1]),
    decreases s.len(),
{
    if s.len() > 0 && is_white_space(s.last()) {
        let b = lemma_trim_end_shape(s.drop_last());
        assert(s.drop_last().take(b) =~= s.take(b));
        assert forall|k: int| b <= k < s.len() implies is_white_space(#[trigger] s[k]) by {
            if k < s.len() - 1 {
                assert(s[k] == s.drop_last()[k]);
            }
        }
        b
    } else {
        assert(s.take(s.len() as int) =~= s);
        s.len() as int
    }
}

/// `trim(s)` is the part `s[a..b]` of `s`: everything before `a` and from
/// `b` on is whitespace, and the part, where not empty, neither starts nor
/// ends with whitespace. (Where the part is empty, all of `s` is whitespace.)
pub proof fn lemma_trim_shape(s: Seq<char>) -> (r: (int, int))
    ensures
        0 <= r.0 <= r.1 <= s.len(),
        trim(s) == s.subrange(r.0, r.1),
        forall|k: int| 0 <= k < r.0 ==> is_white_space(#[trigger] s[k]),
        forall|k: int| r.1 <= k < s.len() ==> is_white_space(#[trigger] s[k]),
        r.0 < r.1 ==> !is_white_space(s[r.0]) && !is_white_space(s[r.1 - 1]),
        r.0 == r.1 ==> forall|k: int| 0 <= k < s.len() ==> is_white_space(#[trigger] s[k]),
{
    let a = lemma_trim_start_shape(s);
    let t = s.skip(a);
    let b = lemma_trim_end_shape(t);
    assert(t.take(b) =~= s.subrange(a, a + b));
    assert forall|k: int| a + b <= k < s.len() implies is_white_space(#[trigger] s[k]) by {
        assert(s[k] == t[k - a]);
    }
    if b > 0 {
        assert(s[a + b - 1] == t[b - 1]);
        assert(s[a] == t[0]);
        if a < s.len() {
        }
    }
    if b == 0 {
        assert forall|k: int| 0 <= k < s.len() implies is_white_space(#[trigger] s[k]) by {
            if k >= a {
                assert(s[k] == t[k - a]);
            }
        }
    }
    (a, a + b)
}

/// The bounds of the trimmed part of `v`: `v[a..b]` is `trim(v)`.
pub fn trim_bounds(v: &Vec<char>) -> (r: (usize, usize))
    ensures
        r.0 <= r.1 <= v@.len(),
        v@.subrange(r.0 as int, r.1 as int) == trim(v@),
{
    let n = v.len();
    let mut a: usize = 0;
    assert(v@.skip(0) =~= v@);
    while a < n && is_white_space_char(v[a])
        invariant
            n == v@.len(),
            a <= n,
            trim_start(v@) == trim_start(v@.skip(a as int)),
        decreases n - a,
    {
        assert(v@.skip(a as int).drop_first() =~= v@.skip(a + 1));
        a = a + 1;
    }
    assert(trim_start(v@) == v@.subrange(a as int, n as int)) by {
        assert(v@.skip(a as int) =~= v@.subrange(a as int, n as int));
    }
    let mut b: usize = n;
    while b > a && is_white_space_char(v[b - 1])
        invariant
            n == v@.len(),
            a <= b <= n,
            trim_end(v@.subrange(a as int, n as int)) == trim_end(
                v@.subrange(a as int, b as int),
            ),
        decreases b - a,
    {
        assert(v@.subrange(a as int, b as int).drop_last() =~= v@.subrange(
            a as int,
            b - 1,
        ));
        b = b - 1;
    }
    (a, b)
}

/// `s` without leading and trailing whitespace (`str::trim`).
pub fn trim_str(s: &str) -> (t: String)
    ensures
        t@ == trim(s@),
{
    let v = chars_of(s);
    let (a, b) = trim_bounds(&v);
    string_of_range(&v, a, b)
}

// ---------------------------------------------------------------------------
// Whitespace-separated words
// ---------------------------------------------------------------------------

/// The first index at or after `i` that holds no whitespace, or `s.len()`.
pub open spec fn skip_white(s: Seq<char>, i: int) -> int
    decreases s.len() - i,
{
    if i < 0 {
        skip_white(s, 0)
    } else if i < s.len() && is_white_space(s[i]) {
        skip_white(s, i + 1)
    } else if i < s.len() {
        i
    } else {
        s.len() as int
    }
}

/// The first index at or after `i` that holds whitespace, or `s.len()`.
pub open spec fn skip_word(s: Seq<char>, i: int) -> int
    decreases s.len() - i,
{
    if i < 0 {
        skip_word(s, 0)
    } else if i < s.len() && !is_white_space(s[i]) {
        skip_word(s, i + 1)
    } else if i < s.len() {
        i
    } else {
        s.len() as int
    }
}

/// The words of `s` from index `i` on: the maximal runs of characters that
/// are not whitespace, in order (`str::split_whitespace`).
pub open spec fn words_from(s: Seq<char>, i: int) -> Seq<Seq<char>>
    decreases s.len() - i,
{
    let a = skip_white(s, i);
    if 0 <= i && i <= s.len() && a < s.len() {
        let b = skip_word(s, a);
        proof {
            lemma_skip_white_bounds(s, i);
            lemma_skip_word_bounds(s, a);
        }
        if a < b {
            seq![s.subrange(a, b)].add(words_from(s, b))
        } else {
            Seq::empty()
        }
    } else {
        Seq::empty()
    }
}

/// The whitespace-separated words of `s`.
pub open spec fn words(s: Seq<char>) -> Seq<Seq<char>> {
    words_from(s, 0)
}

/// The `n`-th word of `s`, or the empty sequence where `s` has fewer words.
pub open spec fn word_or_empty(s: Seq<char>, n: int) -> Seq<char> {
    if 0 <= n < words(s).len() {
        words(s)[n]
    } else {
        Seq::empty()
    }
}

/// `skip_white` stops at the first character that is not whitespace.
pub proof fn lemma_skip_white_bounds(s: Seq<char>, i: int)
    requires
        0 <= i <= s.len(),
    ensures
        i <= skip_white(s, i) <= s.len(),
        forall|k: int| i <= k < skip_white(s, i) ==> is_white_space(#[trigger] s[k]),
        skip_white(s, i) < s.len() ==> !is_white_space(s[skip_white(s, i)]),
    decreases s.len() - i,
{
    if i < s.len() && is_white_space(s[i]) {
        lemma_skip_white_bounds(s, i + 1);
    }
}

/// `skip_word` stops at the first whitespace character.
pub proof fn lemma_skip_word_bounds(s: Seq<char>, i: int)
    requires
        0 <= i <= s.len(),
    ensures
        i <= skip_word(s, i) <= s.len(),
        forall|k: int| i <= k < skip_word(s, i) ==> !is_white_space(#[trigger] s[k]),
        skip_word(s, i) < s.len() ==> is_white_space(s[skip_word(s, i)]),
    decreases s.len() - i,
{
    if i < s.len() && !is_white_space(s[i]) {
        lemma_skip_word_bounds(s, i + 1);
    }
}

proof fn lemma_words_from_shape(s: Seq<char>, i: int)
    requires
        0 <= i <= s.len(),
    ensures
        forall|n: int| 0 <= n < words_from(s, i).len() ==> (#[trigger] words_from(s, i)[n]).len()
            > 0 && no_white_space(words_from(s, i)[n]),
        words_from(s, i).len() == 0 <==> forall|k: int| i <= k < s.len() ==> is_white_space(
            #[trigger] s[k],
        ),
    decreases s.len() - i,
{
    lemma_skip_white_bounds(s, i);
    let a = skip_white(s, i);
    if a < s.len() {
        lemma_skip_word_bounds(s, a);
        let b = skip_word(s, a);
        lemma_words_from_shape(s, b);
        let w = s.subrange(a, b);
        assert forall|k: int| 0 <= k < w.len() implies !is_white_space(#[trigger] w[k]) by {
            assert(w[k] == s[a + k]);
        }
        assert forall|n: int| 0 <= n < words_from(s, i).len() implies (#[trigger] words_from(
            s,
            i,
        )[n]).len() > 0 && no_white_space(words_from(s, i)[n]) by {
            if n > 0 {
                assert(words_from(s, i)[n] == words_from(s, b)[n - 1]);
            }
        }
        assert(!is_white_space(s[a]));
    }
}

/// The words of `s` are not empty and hold no whitespace, and `s` has no
/// word exactly where it is all whitespace.
pub proof fn lemma_words_shape(s: Seq<char>)
    ensures
        forall|n: int| 0 <= n < words(s).len() ==> (#[trigger] words(s)[n]).len() > 0
            && no_white_space(words(s)[n]),
        words(s).len() == 0 <==> forall|k: int| 0 <= k < s.len() ==> is_white_space(
            #[trigger] s[k],
        ),
{
    lemma_words_from_shape(s, 0);
}

/// The first index at or after `i` in `v` that holds no whitespace.
pub fn skip_white_at(v: &Vec<char>, i: usize) -> (r: usize)
    requires
        i <= v@.len(),
    ensures
        r == skip_white(v@, i as int),
{
    let mut k = i;
    while k < v.len() && is_white_space_char(v[k])
        invariant
            i <= k <= v@.len(),
            skip_white(v@, i as int) == skip_white(v@, k as int),
        decreases v@.len() - k,
    {
        k = k + 1;
    }
    k
}

/// The first index at or after `i` in `v` that holds whitespace.
pub fn skip_word_at(v: &Vec<char>, i: usize) -> (r: usize)
    requires
        i <= v@.len(),
    ensures
        r == skip_word(v@, i as int),
{
    let mut k = i;
    while k < v.len() && !is_white_space_char(v[k])
        invariant
            i <= k <= v@.len(),
            skip_word(v@, i as int) == skip_word(v@, k as int),
        decreases v@.len() - k,
    {
        k = k + 1;
    }
    k
}

/// The bounds of the first two words of `v`: `v[r.0..r.1]` is word 0 and
/// `v[r.2..r.3]` word 1, each empty where `v` has no such word.
pub fn first_two_words(v: &Vec<char>) -> (r: (usize, usize, usize, usize))
    ensures
        r.0 <= r.1 <= r.2 <= r.3 <= v@.len(),
        v@.subrange(r.0 as int, r.1 as int) == word_or_empty(v@, 0),
        v@.subrange(r.2 as int, r.3 as int) == word_or_empty(v@, 1),
{
    let a = skip_white_at(v, 0);
    proof {
        lemma_skip_white_bounds(v@, 0);
    }
    let b = skip_word_at(v, a);
    proof {
        lemma_skip_word_bounds(v@, a as int);
    }
    let c = skip_white_at(v, b);
    proof {
        lemma_skip_white_bounds(v@, b as int);
    }
    let d = skip_word_at(v, c);
    proof {
        lemma_skip_word_bounds(v@, c as int);
        let s = v@;
        if a < s.len() {
            assert(a < b);
            if c < s.len() {
                assert(c < d);
                assert(words_from(s, b as int) == seq![s.subrange(c as int, d as int)].add(
                    words_from(s, d as int),
                ));
            } else {
                assert(words_from(s, b as int) =~= Seq::<Seq<char>>::empty());
                assert(s.subrange(c as int, d as int) =~= Seq::<char>::empty());
            }
            assert(words(s)[0] == s.subrange(a as int, b as int));
        } else {
            assert(words(s) =~= Seq::<Seq<char>>::empty());
            assert(s.subrange(a as int, b as int) =~= Seq::<char>::empty());
            assert(s.subrange(c as int, d as int) =~= Seq::<char>::empty());
        }
    }
    (a, b, c, d)
}

// ---------------------------------------------------------------------------
// Decimal numbers
// ---------------------------------------------------------------------------

/// An ASCII decimal digit.
pub open spec fn is_digit(c: char) -> bool {
    '0' <= c && c <= '9'
}

/// The character of the decimal digit `d`.
pub open spec fn digit_char(d: int) -> char {
    (d + 48) as char
}

/// The value of the digit character `c`.
pub open spec fn digit_value(c: char) -> int {
    c as int - 48
}

/// The value of a string of decimal digits, most significant first.
pub open spec fn digits_value(s: Seq<char>) -> nat
    decreases s.len(),
{
    if s.len() == 0 {
        0
    } else {
        (digits_value(s.drop_last()) * 10 + digit_value(s.last())) as nat
    }
}

/// The decimal notation of `n`, with no leading zero (`u16::to_string`).
pub open spec fn decimal(n: nat) -> Seq<char>
    decreases n,
{
    if n < 10 {
        seq![digit_char(n as int)]
    } else {
        decimal(n / 10).push(digit_char((n % 10) as int))
    }
}

/// What `u16::from_str` gives: an optional `+`, then one or more ASCII
/// digits whose value fits in a `u16` (leading zeros allowed, no whitespace).
pub open spec fn parse_u16_spec(s: Seq<char>) -> Option<u16> {
    let d = if s.len() > 0 && s[0] == '+' {
        s.drop_first()
    } else {
        s
    };
    if d.len() > 0 {
        digits_u16(d)
    } else {
        None
    }
}

/// The value of the digit string `d` where it is all digits and fits in a `u16`.
pub open spec fn digits_u16(d: Seq<char>) -> Option<u16> {
    if (forall|i: int| 0 <= i < d.len() ==> is_digit(#[trigger] d[i])) && digits_value(d)
        <= u16::MAX {
        Some(digits_value(d) as u16)
    } else {
        None
    }
}

proof fn lemma_digits_value_monotone(s: Seq<char>, j: int, k: int)
    requires
        0 <= j <= k <= s.len(),
        forall|i: int| 0 <= i < s.len() ==> is_digit(#[trigger] s[i]),
    ensures
        digits_value(s.take(j)) <= digits_value(s.take(k)),
    decreases k - j,
{
    if j < k {
        lemma_digits_value_monotone(s, j, k - 1);
        assert(s.take(k).drop_last() =~= s.take(k - 1));
        assert(is_digit(s[k - 1]));
    }
}

/// The value of the decimal digits `v[from..to]`, where it fits in a `u16`.
fn digits_to_u16(v: &Vec<char>, from: usize, to: usize) -> (r: Option<u16>)
    requires
        from < to <= v@.len(),
    ensures
        r == digits_u16(v@.subrange(from as int, to as int)),
{
    let ghost d = v@.subrange(from as int, to as int);
    let mut acc: u32 = 0;
    let mut i = from;
    while i < to
        invariant
            from <= i <= to <= v@.len(),
            d == v@.subrange(from as int, to as int),
            forall|k: int| 0 <= k < i - from ==> is_digit(#[trigger] d[k]),
            acc == digits_value(d.take(i - from)),
            acc <= u16::MAX,
        decreases to - i,
    {
        let c = v[i];
        assert(d[i - from] == c);
        if !('0' <= c && c <= '9') {
            return None;
        }
        let dv = (c as u32) - 48;
        assert(d.take(i - from + 1).drop_last() =~= d.take(i - from));
        let next = acc * 10 + dv;
        if next > 65535 {
            proof {
                if forall|k: int| 0 <= k < d.len() ==> is_digit(#[trigger] d[k]) {
                    lemma_digits_value_monotone(d, i - from + 1, d.len() as int);
                    assert(d.take(d.len() as int) =~= d);
                }
            }
            return None;
        }
        acc = next;
        i = i + 1;
    }
    assert(d.take(d.len() as int) =~= d);
    Some(acc as u16)
}

/// `u16::from_str` on the characters `v[from..to]`.
pub fn parse_u16_range(v: &Vec<char>, from: usize, to: usize) -> (r: Option<u16>)
    requires
        from <= to <= v@.len(),
    ensures
        r == parse_u16_spec(v@.subrange(from as int, to as int)),
{
    let ghost s = v@.subrange(from as int, to as int);
    if from < to && v[from] == '+' {
        assert(s[0] == v@[from as int]);
        assert(s.drop_first() =~= v@.subrange(from + 1, to as int));
        if from + 1 == to {
            return None;
        }
        digits_to_u16(v, from + 1, to)
    } else {
        if from == to {
            return None;
        }
        assert(s[0] == v@[from as int]);
        assert(s.len() > 0 && s[0] != '+');
        digits_to_u16(v, from, to)
    }
}

/// `u16::from_str`: the number that `s` denotes, or `None`.
pub fn parse_u16(s: &str) -> (r: Option<u16>)
    ensures
        r == parse_u16_spec(s@),
{
    let v = chars_of(s);
    assert(v@.subrange(0, v@.len() as int) =~= v@);
    parse_u16_range(&v, 0, v.len())
}

/// Appends the decimal notation of `n` to `out`.
pub fn push_decimal(out: &mut String, n: u16)
    ensures
        final(out)@ == old(out)@ + decimal(n as nat),
    decreases n,
{
    if n < 10 {
        let c = digit_to_char(n);
        push_char(out, c);
        assert(old(out)@.push(c) =~= old(out)@ + seq![c]);
    } else {
        push_decimal(out, n / 10);
        let c = digit_to_char(n % 10);
        push_char(out, c);
        assert(old(out)@ + decimal((n / 10) as nat).push(c) =~= (old(out)@ + decimal(
            (n / 10) as nat,
        )).push(c));
    }
}

fn digit_to_char(d: u16) -> (c: char)
    requires
        d < 10,
    ensures
        c == digit_char(d as int),
{
    match d {
        0 => '0',
        1 => '1',
        2 => '2',
        3 => '3',
        4 => '4',
        5 => '5',
        6 => '6',
        7 => '7',
        8 => '8',
        _ => '9',
    }
}

/// The decimal notation of `n` (`u16::to_string`).
pub fn decimal_string(n: u16) -> (s: String)
    ensures
        s@ == decimal(n as nat),
{
    let mut s = String::new();
    push_decimal(&mut s, n);
    s
}

proof fn lemma_digit_char_value(d: int)
    requires
        0 <= d < 10,
    ensures
        digit_value(digit_char(d)) == d,
        is_digit(digit_char(d)),
{
    assert(((d + 48) as char) as int == d + 48);
}

/// The decimal notation of a number consists of digits, is not empty, and
/// reads back as that number.
pub proof fn lemma_decimal_digits(n: nat)
    ensures
        decimal(n).len() > 0,
        forall|i: int| 0 <= i < decimal(n).len() ==> is_digit(#[trigger] decimal(n)[i]),
        digits_value(decimal(n)) == n,
    decreases n,
{
    lemma_digit_char_value((n % 10) as int);
    let s = decimal(n);
    if n < 10 {
        assert(s.drop_last() =~= Seq::<char>::empty());
        assert(digits_value(s.drop_last()) == 0);
        assert(s.last() == digit_char(n as int));
        assert(n % 10 == n);
        assert(digits_value(s) == digit_value(digit_char(n as int)));
    } else {
        lemma_decimal_digits(n / 10);
        assert(s.drop_last() =~= decimal(n / 10));
        assert(s.last() == digit_char((n % 10) as int));
        assert((n / 10) * 10 + n % 10 == n) by (nonlinear_arith);
        assert(digits_value(s) == digits_value(decimal(n / 10)) * 10 + (n % 10));
    }
}

/// The decimal notation of a number is the shortest one: `0` is written as
/// the single digit `0`, and any other number starts with a digit other than
/// `0`. With `lemma_decimal_digits` this pins the notation down: its digits
/// read back as the number and it has no leading zero.
pub proof fn lemma_decimal_no_leading_zero(n: nat)
    ensures
        n == 0 ==> decimal(n) == seq!['0'],
        n > 0 ==> decimal(n)[0] != '0',
        n < 10 ==> decimal(n).len() == 1,
        n >= 10 ==> decimal(n).len() == decimal(n / 10).len() + 1,
    decreases n,
{
    lemma_decimal_digits(n);
    if n < 10 {
        assert((n as int + 48) as char as int == n as int + 48);
        if n == 0 {
            assert(decimal(n) =~= seq!['0']);
        }
    } else {
        lemma_decimal_no_leading_zero(n / 10);
        lemma_decimal_digits(n / 10);
        assert(decimal(n)[0] == decimal(n / 10)[0]);
    }
}

/// Reading back the decimal notation of a port gives the port again.
pub proof fn lemma_parse_decimal(n: u16)
    ensures
        parse_u16_spec(decimal(n as nat)) == Some(n),
{
    lemma_decimal_digits(n as nat);
    let d = decimal(n as nat);
    assert(is_digit(d[0]));
}

} // verus!
