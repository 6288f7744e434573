//! Character-level text helpers shared by the ledger's logic.
//!
//! Text is handled as sequences of Unicode scalar values (`char`); every
//! position and length below counts characters.

use vstd::prelude::*;

verus! {

// ---------------------------------------------------------------------------
// Specifications
// ---------------------------------------------------------------------------

/// Unicode `White_Space`, the set that `char::is_whitespace` tests.
pub open spec fn is_ws(c: char) -> bool {
    let u = c as u32;
    ||| 0x09 <= u <= 0x0D
    ||| u == 0x20
    ||| u == 0x85
    ||| u == 0xA0
    ||| u == 0x1680
    ||| 0x2000 <= u <= 0x200A
    ||| u == 0x2028
    ||| u == 0x2029
    ||| u == 0x202F
    ||| u == 0x205F
    ||| u == 0x3000
}

/// Every character of `s` is whitespace (so `s` trims to nothing).
pub open spec fn is_blank(s: Seq<char>) -> bool {
    forall|i: int| 0 <= i < s.len() ==> is_ws(#[trigger] s[i])
}

/// `s` without its leading whitespace.
pub open spec fn trim_start(s: Seq<char>) -> Seq<char>
    decreases s.len(),
{
    if s.len() > 0 && is_ws(s[0]) {
        trim_start(s.drop_first())
    } else {
        s
    }
}

/// `s` without its trailing whitespace.
pub open spec fn trim_end(s: Seq<char>) -> Seq<char>
    decreases s.len(),
{
    if s.len() > 0 && is_ws(s.last()) {
        trim_end(s.drop_last())
    } else {
        s
    }
}

/// `s` without leading and trailing whitespace (`str::trim`).
pub open spec fn trim(s: Seq<char>) -> Seq<char> {
    trim_end(trim_start(s))
}

/// ASCII upper-case letters mapped to lower case, all else unchanged.
pub open spec fn lower_char(c: char) -> char {
    if 'A' <= c <= 'Z' {
        ((c as u32) + 32) as char
    } else {
        c
    }
}

/// `str::to_ascii_lowercase`.
pub open spec fn lower(s: Seq<char>) -> Seq<char> {
    s.map_values(|c: char| lower_char(c))
}

/// `p` is a prefix of `s`.
pub open spec fn starts_with(s: Seq<char>, p: Seq<char>) -> bool {
    p.len() <= s.len() && s.subrange(0, p.len() as int) == p
}

/// `m` occurs in `s` at position `i`.
pub open spec fn occurs_at(s: Seq<char>, m: Seq<char>, i: int) -> bool {
    0 <= i && i + m.len() <= s.len() && s.subrange(i, i + m.len()) == m
}

/// The first position at or after `i` where `m` occurs in `s`.
pub open spec fn find_from(s: Seq<char>, m: Seq<char>, i: int) -> Option<int>
    decreases s.len() + 1 - i,
{
    if i < 0 || i + m.len() > s.len() {
        None
    } else if occurs_at(s, m, i) {
        Some(i)
    } else {
        find_from(s, m, i + 1)
    }
}

/// The first position where `m` occurs in `s` (`str::find`).
pub open spec fn find(s: Seq<char>, m: Seq<char>) -> Option<int> {
    find_from(s, m, 0)
}

/// A line without the carriage return that ends it, if any.
pub open spec fn strip_cr(l: Seq<char>) -> Seq<char> {
    if l.len() > 0 && l.last() == '\r' {
        l.drop_last()
    } else {
        l
    }
}

/// The lines of `s` (`str::lines`): split at each `'\n'`, a `'\r'` before
/// the `'\n'` dropped, and no empty line after a final `'\n'`.
pub open spec fn lines(s: Seq<char>) -> Seq<Seq<char>>
    decreases s.len(),
{
    if s.len() == 0 {
        Seq::empty()
    } else {
        proof {
            lemma_find_from_bounds(s, seq!['\n'], 0);
        }
        match find(s, seq!['\n']) {
            None => seq![s],
            Some(k) => seq![strip_cr(s.subrange(0, k))] + lines(s.subrange(k + 1, s.len() as int)),
        }
    }
}

/// The number of bytes that `c` takes in UTF-8.
pub open spec fn utf8_width(c: char) -> nat {
    let u = c as u32;
    if u < 0x80 {
        1
    } else if u < 0x800 {
        2
    } else if u < 0x10000 {
        3
    } else {
        4
    }
}

/// The number of bytes that `s` takes in UTF-8 (`str::len`).
pub open spec fn utf8_len(s: Seq<char>) -> nat
    decreases s.len(),
{
    if s.len() == 0 {
        0
    } else {
        utf8_len(s.drop_last()) + utf8_width(s.last())
    }
}

/// The character of a digit below sixteen, lower-case for `a`..`f`.
pub open spec fn digit_char(d: nat) -> char {
    if d < 10 {
        (48 + d) as char
    } else {
        (87 + d) as char
    }
}

/// `n` in decimal, without leading zeros.
pub open spec fn dec(n: nat) -> Seq<char>
    decreases n,
{
    if n < 10 {
        seq![digit_char(n)]
    } else {
        dec(n / 10).push(digit_char(n % 10))
    }
}

/// The `w` lowest hexadecimal digits of `n`, zero-padded.
pub open spec fn hex_fixed(n: nat, w: nat) -> Seq<char>
    decreases w,
{
    if w == 0 {
        Seq::empty()
    } else {
        hex_fixed(n / 16, (w - 1) as nat).push(digit_char(n % 16))
    }
}

/// `n` in decimal, zero-padded to at least three digits (`{:03}`).
pub open spec fn dec_pad3(n: nat) -> Seq<char> {
    if n < 10 {
        seq!['0', '0'] + dec(n)
    } else if n < 100 {
        seq!['0'] + dec(n)
    } else {
        dec(n)
    }
}

/// At most the first `max` characters of `s`.
pub open spec fn truncate_spec(s: Seq<char>, max: nat) -> Seq<char> {
    if s.len() <= max {
        s
    } else {
        s.subrange(0, max as int)
    }
}

/// The position in `s` of the character that starts at byte `b` of its
/// UTF-8 form: the `k` whose prefix `s[..k]` takes `b` bytes; none where
/// byte `b` falls inside a character or past the end.
pub open spec fn byte_index(s: Seq<char>, b: int) -> Option<int>
    decreases s.len(),
{
    if b == 0 {
        Some(0)
    } else if b < 0 || s.len() == 0 {
        None
    } else if utf8_width(s[0]) > b {
        None
    } else {
        match byte_index(s.drop_first(), b - utf8_width(s[0])) {
            Some(k) => Some(k + 1),
            None => None,
        }
    }
}

// ---------------------------------------------------------------------------
// Lemmas
// ---------------------------------------------------------------------------

/// A line-by-line walk over `lines(s)`: each step consumes one line and the
/// newline after it, so the consumed length never passes `s.len() + 1`.
pub proof fn lemma_lines_step(s: Seq<char>)
    requires
        s.len() > 0,
    ensures
        lines(s).len() > 0,
        ({
            let k = find(s, seq!['\n']);
            &&& k is None ==> lines(s) == seq![s]
            &&& k matches Some(k) ==> 0 <= k < s.len() && lines(s) == seq![strip_cr(
                s.subrange(0, k),
            )] + lines(s.subrange(k + 1, s.len() as int))
        }),
{
    lemma_find_from_bounds(s, seq!['\n'], 0);
}

/// Where `find_from` reports a match, the match lies inside `s`.
pub proof fn lemma_find_from_bounds(s: Seq<char>, m: Seq<char>, i: int)
    requires
        0 <= i,
    ensures
        find_from(s, m, i) matches Some(k) ==> i <= k && occurs_at(s, m, k) && (forall|j: int|
            i <= j < k ==> !occurs_at(s, m, j)),
        find_from(s, m, i) is None ==> forall|j: int| i <= j ==> !occurs_at(s, m, j),
    decreases s.len() + 1 - i,
{
    if i + m.len() > s.len() {
    } else if occurs_at(s, m, i) {
    } else {
        lemma_find_from_bounds(s, m, i + 1);
    }
}

/// The summed length of the first `n` lines, one more per line for the
/// newline after it.
pub open spec fn lines_span(ls: Seq<Seq<char>>, n: int) -> int
    decreases n,
{
    if n <= 0 {
        0
    } else {
        lines_span(ls, n - 1) + ls[n - 1].len() + 1
    }
}

/// The first `n` lines of `s`, each with its newline, span at most
/// `s.len() + 1` characters.
pub proof fn lemma_lines_span_bound(s: Seq<char>, n: int)
    requires
        0 <= n <= lines(s).len(),
    ensures
        lines_span(lines(s), n) <= s.len() + 1,
    decreases s.len(), n,
{
    if n == 0 {
    } else {
        lemma_lines_step(s);
        let k = find(s, seq!['\n']);
        match k {
            None => {
                assert(lines(s) == seq![s]);
                assert(lines_span(lines(s), 0) == 0);
            },
            Some(k) => {
                let rest = s.subrange(k + 1, s.len() as int);
                let ls = lines(s);
                assert(ls == seq![strip_cr(s.subrange(0, k))] + lines(rest));
                lemma_lines_span_shift(ls, lines(rest), n);
                lemma_lines_span_bound(rest, n - 1);
            },
        }
    }
}

/// Dropping the first line shifts the span by that line's length plus one.
pub proof fn lemma_lines_span_shift(ls: Seq<Seq<char>>, tail: Seq<Seq<char>>, n: int)
    requires
        ls.len() == tail.len() + 1,
        forall|j: int| 0 <= j < tail.len() ==> ls[j + 1] == tail[j],
        1 <= n <= ls.len(),
    ensures
        lines_span(ls, n) == ls[0].len() + 1 + lines_span(tail, n - 1),
    decreases n,
{
    if n == 1 {
        assert(lines_span(ls, 0) == 0);
        assert(lines_span(tail, 0) == 0);
    } else {
        lemma_lines_span_shift(ls, tail, n - 1);
    }
}

/// The summed UTF-8 length of the first `n` lines, one more byte per line
/// for the newline before it.
pub open spec fn bytes_span(ls: Seq<Seq<char>>, n: int) -> int
    decreases n,
{
    if n <= 0 {
        0
    } else {
        bytes_span(ls, n - 1) + utf8_len(ls[n - 1]) + 1
    }
}

/// Dropping the first line shifts the byte span by that line's length plus
/// one.
pub proof fn lemma_bytes_span_shift(ls: Seq<Seq<char>>, tail: Seq<Seq<char>>, n: int)
    requires
        ls.len() == tail.len() + 1,
        forall|j: int| 0 <= j < tail.len() ==> ls[j + 1] == tail[j],
        1 <= n <= ls.len(),
    ensures
        bytes_span(ls, n) == utf8_len(ls[0]) + 1 + bytes_span(tail, n - 1),
    decreases n,
{
    if n == 1 {
        assert(bytes_span(ls, 0) == 0);
        assert(bytes_span(tail, 0) == 0);
    } else {
        lemma_bytes_span_shift(ls, tail, n - 1);
    }
}

/// `trim_start` drops a prefix of whitespace and keeps the rest, which
/// starts with a character other than whitespace unless it is empty.
pub proof fn lemma_trim_start_range(s: Seq<char>) -> (a: int)
    ensures
        0 <= a <= s.len(),
        trim_start(s) == s.subrange(a, s.len() as int),
        a < s.len() ==> !is_ws(s[a]),
        forall|k: int| 0 <= k < a ==> is_ws(#[trigger] s[k]),
    decreases s.len(),
{
    if s.len() > 0 && is_ws(s[0]) {
        let a = lemma_trim_start_range(s.drop_first());
        assert(s.drop_first().subrange(a, s.drop_first().len() as int) =~= s.subrange(
            a + 1,
            s.len() as int,
        ));
        assert forall|k: int| 0 <= k < a + 1 implies is_ws(#[trigger] s[k]) by {
            if k > 0 {
                assert(s[k] == s.drop_first()[k - 1]);
            }
        }
        a + 1
    } else {
        assert(s.subrange(0, s.len() as int) =~= s);
        0
    }
}

/// `trim_end` keeps a prefix, which ends with a character other than
/// whitespace unless it is empty.
pub proof fn lemma_trim_end_range(s: Seq<char>) -> (b: int)
    ensures
        0 <= b <= s.len(),
        trim_end(s) == s.subrange(0, b),
        b > 0 ==> !is_ws(s[b - 1]),
        forall|k: int| b <= k < s.len() ==> is_ws(#[trigger] s[k]),
    decreases s.len(),
{
    if s.len() > 0 && is_ws(s.last()) {
        let b = lemma_trim_end_range(s.drop_last());
        assert(s.drop_last().subrange(0, b) =~= s.subrange(0, b));
        assert forall|k: int| b <= k < s.len() implies is_ws(#[trigger] s[k]) by {
            if k < s.len() - 1 {
                assert(s[k] == s.drop_last()[k]);
            }
        }
        b
    } else {
        assert(s.subrange(0, s.len() as int) =~= s);
        s.len() as int
    }
}

/// `trim` keeps a stretch of its text that neither starts nor ends with
/// whitespace.
pub proof fn lemma_trim_range(s: Seq<char>) -> (r: (int, int))
    ensures
        0 <= r.0 <= r.1 <= s.len(),
        trim(s) == s.subrange(r.0, r.1),
        r.0 < r.1 ==> !is_ws(s[r.0]) && !is_ws(s[r.1 - 1]),
        forall|k: int| 0 <= k < r.0 ==> is_ws(#[trigger] s[k]),
        forall|k: int| r.1 <= k < s.len() ==> is_ws(#[trigger] s[k]),
{
    let a = lemma_trim_start_range(s);
    let y = s.subrange(a, s.len() as int);
    let b = lemma_trim_end_range(y);
    assert(y.subrange(0, b) =~= s.subrange(a, a + b));
    if b > 0 {
        assert(y[0] == s[a]);
        assert(y[b - 1] == s[a + b - 1]);
    }
    assert forall|k: int| a + b <= k < s.len() implies is_ws(#[trigger] s[k]) by {
        assert(s[k] == y[k - a]);
    }
    (a, a + b)
}

/// `trim` drops whitespace only, from both ends, and keeps a stretch that
/// neither starts nor ends with it: a text trims to nothing exactly when
/// all of it is whitespace.
pub proof fn lemma_trim(s: Seq<char>)
    ensures
        exists|a: int|
            0 <= a <= a + trim(s).len() <= s.len() && #[trigger] s.subrange(a, a + trim(s).len())
                == trim(s) && (forall|k: int| 0 <= k < a ==> is_ws(#[trigger] s[k])) && (forall|k: int|
                a + trim(s).len() <= k < s.len() ==> is_ws(#[trigger] s[k])),
        trim(s).len() > 0 ==> !is_ws(trim(s)[0]) && !is_ws(trim(s).last()),
        trim(s).len() == 0 <==> is_blank(s),
{
    let (a, b) = lemma_trim_range(s);
    assert(s.subrange(a, a + trim(s).len()) == trim(s));
    if trim(s).len() > 0 {
        assert(trim(s)[0] == s[a]);
        assert(trim(s).last() == s[b - 1]);
        assert(!is_ws(s[a]));
    } else {
        assert forall|i: int| 0 <= i < s.len() implies is_ws(#[trigger] s[i]) by {
            if i >= a {
                assert(i >= b);
            }
        }
    }
}

/// The first `max` characters of a text: a prefix of it, as long as it
/// or `max`, whichever is less.
pub proof fn lemma_truncate(s: Seq<char>, max: nat)
    ensures
        truncate_spec(s, max).len() == (if s.len() <= max {
            s.len()
        } else {
            max
        }),
        truncate_spec(s, max) == s.subrange(0, truncate_spec(s, max).len() as int),
{
    if s.len() <= max {
        assert(s.subrange(0, s.len() as int) =~= s);
    }
}

/// Trimming twice trims once.
pub proof fn lemma_trim_idempotent(s: Seq<char>)
    ensures
        trim(trim(s)) == trim(s),
{
    let (a, b) = lemma_trim_range(s);
    let z = trim(s);
    if z.len() > 0 {
        assert(z[0] == s[a]);
        assert(z.last() == s[b - 1]);
        assert(trim_start(z) == z);
        assert(trim_end(z) == z);
    } else {
        assert(trim_start(z) == z);
        assert(trim_end(z) == z);
    }
}

/// Whether every character of `s` is ASCII.
pub open spec fn is_ascii_text(s: Seq<char>) -> bool {
    forall|k: int| 0 <= k < s.len() ==> (s[k] as u32) < 0x80
}

/// An ASCII text takes one byte per character.
pub proof fn lemma_utf8_len_ascii(s: Seq<char>)
    requires
        is_ascii_text(s),
    ensures
        utf8_len(s) == s.len(),
    decreases s.len(),
{
    if s.len() > 0 {
        assert(is_ascii_text(s.drop_last())) by {
            assert forall|k: int| 0 <= k < s.drop_last().len() implies (s.drop_last()[k] as u32)
                < 0x80 by {
                assert(s.drop_last()[k] == s[k]);
            }
        }
        lemma_utf8_len_ascii(s.drop_last());
        assert((s.last() as u32) < 0x80);
    }
}

/// The lines of an ASCII text are ASCII.
pub proof fn lemma_lines_ascii(s: Seq<char>)
    requires
        is_ascii_text(s),
    ensures
        forall|j: int| 0 <= j < lines(s).len() ==> is_ascii_text(#[trigger] lines(s)[j]),
    decreases s.len(),
{
    if s.len() > 0 {
        lemma_lines_step(s);
        match find(s, seq!['\n']) {
            None => {},
            Some(k) => {
                let l0 = s.subrange(0, k);
                let rest = s.subrange(k + 1, s.len() as int);
                assert(is_ascii_text(rest)) by {
                    assert forall|x: int| 0 <= x < rest.len() implies (rest[x] as u32) < 0x80 by {
                        assert(rest[x] == s[k + 1 + x]);
                    }
                }
                lemma_lines_ascii(rest);
                assert(is_ascii_text(strip_cr(l0))) by {
                    assert forall|x: int| 0 <= x < strip_cr(l0).len() implies (strip_cr(
                        l0,
                    )[x] as u32) < 0x80 by {
                        assert(strip_cr(l0)[x] == s[x]);
                    }
                }
                let ls = lines(s);
                assert forall|j: int| 0 <= j < ls.len() implies is_ascii_text(#[trigger] ls[j]) by {
                    if j > 0 {
                        assert(ls[j] == lines(rest)[j - 1]);
                    }
                }
            },
        }
    }
}

/// For ASCII lines, the byte span is the character span.
pub proof fn lemma_bytes_span_ascii(ls: Seq<Seq<char>>, n: int)
    requires
        n <= ls.len(),
        forall|j: int| 0 <= j < ls.len() ==> is_ascii_text(#[trigger] ls[j]),
    ensures
        bytes_span(ls, n) == lines_span(ls, n),
    decreases n,
{
    if n > 0 {
        lemma_bytes_span_ascii(ls, n - 1);
        lemma_utf8_len_ascii(ls[n - 1]);
    }
}

/// Spans are never negative.
pub proof fn lemma_spans_nonneg(ls: Seq<Seq<char>>, n: int)
    ensures
        lines_span(ls, n) >= 0,
        bytes_span(ls, n) >= 0,
    decreases n,
{
    if n > 0 {
        lemma_spans_nonneg(ls, n - 1);
    }
}

/// A newline takes one byte.
pub proof fn lemma_utf8_len_newline()
    ensures
        utf8_len(seq!['\n']) == 1,
{
    let s = seq!['\n'];
    assert(s.drop_last().len() == 0);
    assert(utf8_len(s.drop_last()) == 0);
    assert(s.last() == '\n');
    assert(('\n' as u32) < 0x80);
    assert(utf8_width('\n') == 1);
}

/// In a text without `'\r'`, each of the first `n` lines follows a newline:
/// the text with a newline put before it begins with those lines, each
/// after its newline, so their character span `lines_span` fits it and its
/// UTF-8 length is their byte span.
pub proof fn lemma_lines_bytes(t: Seq<char>, n: int)
    requires
        forall|k: int| 0 <= k < t.len() ==> t[k] != '\r',
        0 <= n <= lines(t).len(),
    ensures
        lines_span(lines(t), n) <= t.len() + 1,
        utf8_len((seq!['\n'] + t).subrange(0, lines_span(lines(t), n))) == bytes_span(lines(t), n),
    decreases t.len(),
{
    let ls = lines(t);
    let u = seq!['\n'] + t;
    if n == 0 {
        assert(u.subrange(0, 0).len() == 0);
    } else {
        lemma_lines_step(t);
        match find(t, seq!['\n']) {
            None => {
                assert(ls == seq![t]);
                assert(lines_span(ls, 0) == 0);
                assert(bytes_span(ls, 0) == 0);
                assert(u.subrange(0, t.len() + 1 as int) =~= u);
                lemma_utf8_len_concat(seq!['\n'], t);
                lemma_utf8_len_newline();
            },
            Some(k) => {
                let l0 = t.subrange(0, k);
                let rest = t.subrange(k + 1, t.len() as int);
                if l0.len() > 0 {
                    assert(l0.last() == t[k - 1]);
                }
                assert(strip_cr(l0) == l0);
                assert(ls == seq![l0] + lines(rest));
                lemma_lines_span_shift(ls, lines(rest), n);
                lemma_bytes_span_shift(ls, lines(rest), n);
                lemma_lines_bytes(rest, n - 1);
                let m = lines_span(lines(rest), n - 1);
                lemma_spans_nonneg(lines(rest), n - 1);
                let ur = seq!['\n'] + rest;
                assert(t[k] == '\n') by {
                    lemma_find_from_bounds(t, seq!['\n'], 0);
                    assert(t.subrange(k, k + 1)[0] == t[k]);
                }
                assert(rest.len() == t.len() - k - 1);
                assert(m <= rest.len() + 1);
                assert(ur.len() == rest.len() + 1);
                let lhs = u.subrange(0, k + 1 + m);
                let rhs = (seq!['\n'] + l0) + ur.subrange(0, m);
                assert(lhs.len() == rhs.len());
                assert forall|x: int| 0 <= x < lhs.len() implies lhs[x] == rhs[x] by {
                    if x == 0 {
                    } else if x <= k {
                        assert(lhs[x] == t[x - 1]);
                        assert(rhs[x] == l0[x - 1]);
                    } else if x == k + 1 {
                        assert(lhs[x] == t[k]);
                        assert(rhs[x] == ur[0]);
                    } else {
                        assert(lhs[x] == t[x - 1]);
                        assert(rhs[x] == ur[x - k - 1]);
                        assert(ur[x - k - 1] == rest[x - k - 2]);
                    }
                }
                assert(lhs =~= rhs);
                lemma_utf8_len_concat(seq!['\n'] + l0, ur.subrange(0, m));
                lemma_utf8_len_concat(seq!['\n'], l0);
                lemma_utf8_len_newline();
            },
        }
    }
}

// ---------------------------------------------------------------------------
// Executable helpers
// ---------------------------------------------------------------------------

/// The characters of `s`, in order.
pub fn chars_of(s: &str) -> (v: Vec<char>)
    ensures
        v@ == s@,
{
    let mut v: Vec<char> = Vec::new();
    for c in it: s.chars()
        invariant
            v@ == it.seq().take(it.index()),
            it.seq() == s@,
    {
        v.push(c);
    }
    v
}

/// The string made of the characters `v` (`String: FromIterator<char>`).
#[verifier::external_body]
pub fn string_of(v: &Vec<char>) -> (s: String)
    ensures
        s@ == v@,
{
    v.iter().collect::<String>()
}

/// `char::is_whitespace`.
pub fn is_whitespace(c: char) -> (r: bool)
    ensures
        r == is_ws(c),
{
    let u = c as u32;
    (0x09 <= u && u <= 0x0D) || u == 0x20 || u == 0x85 || u == 0xA0 || u == 0x1680 || (0x2000
        <= u && u <= 0x200A) || u == 0x2028 || u == 0x2029 || u == 0x202F || u == 0x205F || u
        == 0x3000
}

/// Whether every character of `s` is whitespace.
pub fn blank(s: &Vec<char>) -> (r: bool)
    ensures
        r == is_blank(s@),
{
    let mut i: usize = 0;
    while i < s.len()
        invariant
            i <= s.len(),
            forall|j: int| 0 <= j < i ==> is_ws(#[trigger] s@[j]),
        decreases s.len() - i,
    {
        if !is_whitespace(s[i]) {
            return false;
        }
        i = i + 1;
    }
    true
}

/// Whether every character of `s` is whitespace (`s.trim().is_empty()`).
pub fn str_blank(s: &str) -> (r: bool)
    ensures
        r == is_blank(s@),
{
    let v = chars_of(s);
    blank(&v)
}

/// The characters `s[from..to]`.
pub fn slice_chars(s: &Vec<char>, from: usize, to: usize) -> (r: Vec<char>)
    requires
        from <= to <= s.len(),
    ensures
        r@ == s@.subrange(from as int, to as int),
{
    let mut r: Vec<char> = Vec::new();
    let mut i = from;
    while i < to
        invariant
            from <= i <= to <= s.len(),
            r@ == s@.subrange(from as int, i as int),
        decreases to - i,
    {
        r.push(s[i]);
        i = i + 1;
        assert(r@ == s@.subrange(from as int, i as int));
    }
    r
}

/// `s` without leading and trailing whitespace (`str::trim`).
pub fn trim_chars(s: &Vec<char>) -> (r: Vec<char>)
    ensures
        r@ == trim(s@),
{
    let mut a: usize = 0;
    assert(s@.subrange(0, s@.len() as int) == s@);
    while a < s.len() && is_whitespace(s[a])
        invariant
            a <= s.len(),
            trim_start(s@) == trim_start(s@.subrange(a as int, s@.len() as int)),
        decreases s.len() - a,
    {
        assert(s@.subrange(a as int, s@.len() as int).drop_first() == s@.subrange(
            a + 1,
            s@.len() as int,
        ));
        a = a + 1;
    }
    let ghost front = s@.subrange(a as int, s@.len() as int);
    assert(trim_start(front) == front);
    let mut b: usize = s.len();
    while b > a && is_whitespace(s[b - 1])
        invariant
            a <= b <= s.len(),
            front == s@.subrange(a as int, s@.len() as int),
            trim_end(front) == trim_end(s@.subrange(a as int, b as int)),
        decreases b,
    {
        assert(s@.subrange(a as int, b as int).drop_last() == s@.subrange(a as int, b - 1));
        b = b - 1;
    }
    assert(trim_end(s@.subrange(a as int, b as int)) == s@.subrange(a as int, b as int));
    slice_chars(s, a, b)
}

/// `str::trim`, on a string.
pub fn trim_str(s: &str) -> (r: Vec<char>)
    ensures
        r@ == trim(s@),
{
    let v = chars_of(s);
    trim_chars(&v)
}

/// `char::to_ascii_lowercase`.
pub fn lower_ascii(c: char) -> (r: char)
    ensures
        r == lower_char(c),
{
    if 'A' <= c && c <= 'Z' {
        let b = (c as u8) + 32;
        b as char
    } else {
        c
    }
}

/// `str::to_ascii_lowercase`.
pub fn lower_chars(s: &Vec<char>) -> (r: Vec<char>)
    ensures
        r@ == lower(s@),
{
    let mut r: Vec<char> = Vec::new();
    let mut i: usize = 0;
    while i < s.len()
        invariant
            i <= s.len(),
            r@.len() == i,
            forall|j: int| 0 <= j < i ==> r@[j] == lower_char(#[trigger] s@[j]),
        decreases s.len() - i,
    {
        r.push(lower_ascii(s[i]));
        i = i + 1;
    }
    assert(r@ == lower(s@));
    r
}

/// Whether `p` is a prefix of `s`.
pub fn has_prefix(s: &Vec<char>, p: &Vec<char>) -> (r: bool)
    ensures
        r == starts_with(s@, p@),
{
    if p.len() > s.len() {
        return false;
    }
    let mut i: usize = 0;
    while i < p.len()
        invariant
            p.len() <= s.len(),
            i <= p.len(),
            forall|j: int| 0 <= j < i ==> s@[j] == p@[j],
        decreases p.len() - i,
    {
        if s[i] != p[i] {
            assert(s@.subrange(0, p.len() as int)[i as int] != p@[i as int]);
            return false;
        }
        i = i + 1;
    }
    assert(s@.subrange(0, p.len() as int) == p@);
    true
}

/// Whether `m` occurs in `s` at `i`.
fn matches_at(s: &Vec<char>, m: &Vec<char>, i: usize) -> (r: bool)
    ensures
        r == occurs_at(s@, m@, i as int),
{
    if i > s.len() || m.len() > s.len() - i {
        return false;
    }
    let mut j: usize = 0;
    while j < m.len()
        invariant
            i + m.len() <= s.len(),
            j <= m.len(),
            forall|k: int| 0 <= k < j ==> s@[i + k] == m@[k],
        decreases m.len() - j,
    {
        if s[i + j] != m[j] {
            assert(s@.subrange(i as int, i + m.len())[j as int] != m@[j as int]);
            return false;
        }
        j = j + 1;
    }
    assert(s@.subrange(i as int, i + m.len()) == m@);
    true
}

/// The first position where `m` occurs in `s` (`str::find`).
pub fn find_chars(s: &Vec<char>, m: &Vec<char>) -> (r: Option<usize>)
    ensures
        match find(s@, m@) {
            Some(k) => r matches Some(p) && p == k,
            None => r is None,
        },
{
    if m.len() == 0 {
        assert(s@.subrange(0, 0) =~= m@);
        return Some(0);
    }
    if m.len() > s.len() {
        return None;
    }
    let mut i: usize = 0;
    while i <= s.len() - m.len()
        invariant
            1 <= m.len() <= s.len(),
            i <= s.len(),
            find(s@, m@) == find_from(s@, m@, i as int),
        decreases s.len() + 1 - i,
    {
        if matches_at(s, m, i) {
            return Some(i);
        }
        i = i + 1;
    }
    None
}

/// Position of the first `'\n'` in `s`.
fn find_newline(s: &Vec<char>) -> (r: Option<usize>)
    ensures
        match find(s@, seq!['\n']) {
            Some(k) => r matches Some(p) && p == k,
            None => r is None,
        },
{
    let mut nl: Vec<char> = Vec::new();
    nl.push('\n');
    assert(nl@ == seq!['\n']);
    find_chars(s, &nl)
}

/// A line without its final carriage return.
fn strip_cr_chars(l: Vec<char>) -> (r: Vec<char>)
    ensures
        r@ == strip_cr(l@),
{
    let mut l = l;
    if l.len() > 0 && l[l.len() - 1] == '\r' {
        l.pop();
    }
    l
}

/// The lines of `s` (`str::lines`).
pub fn lines_of(s: &Vec<char>) -> (r: Vec<Vec<char>>)
    ensures
        r@.len() == lines(s@).len(),
        forall|j: int| 0 <= j < r@.len() ==> #[trigger] r@[j]@ == lines(s@)[j],
{
    let mut out: Vec<Vec<char>> = Vec::new();
    let mut rest: Vec<char> = slice_chars(s, 0, s.len());
    let ghost done: Seq<Seq<char>> = Seq::empty();
    assert(rest@ == s@);
    while rest.len() > 0
        invariant
            out@.len() == done.len(),
            forall|j: int| 0 <= j < out@.len() ==> #[trigger] out@[j]@ == done[j],
            lines(s@) == done + lines(rest@),
        decreases rest.len(),
    {
        proof {
            lemma_lines_step(rest@);
        }
        match find_newline(&rest) {
            None => {
                proof {
                    done = done.push(rest@);
                    assert(lines(s@) == done);
                }
                out.push(rest);
                rest = Vec::new();
                assert(lines(rest@) == Seq::<Seq<char>>::empty());
                assert(lines(s@) == done + lines(rest@));
            },
            Some(k) => {
                let line = strip_cr_chars(slice_chars(&rest, 0, k));
                let tail = slice_chars(&rest, k + 1, rest.len());
                proof {
                    let old_done = done;
                    done = done.push(line@);
                    assert(lines(s@) == old_done + (seq![line@] + lines(tail@)));
                    assert(old_done + (seq![line@] + lines(tail@)) == done + lines(tail@));
                }
                out.push(line);
                rest = tail;
            },
        }
    }
    assert(lines(rest@) == Seq::<Seq<char>>::empty());
    assert(done + lines(rest@) == done);
    out
}

/// The number of bytes that `c` takes in UTF-8 (`char::len_utf8`).
pub fn char_width(c: char) -> (w: usize)
    ensures
        w == utf8_width(c),
        1 <= w <= 4,
{
    let u = c as u32;
    if u < 0x80 {
        1
    } else if u < 0x800 {
        2
    } else if u < 0x10000 {
        3
    } else {
        4
    }
}

/// The number of bytes that `s[..n]` takes in UTF-8.
pub fn utf8_prefix_len(s: &Vec<char>, n: usize) -> (r: u128)
    requires
        n <= s.len(),
    ensures
        r == utf8_len(s@.subrange(0, n as int)),
        r <= 4 * n,
{
    let mut total: u128 = 0;
    let mut i: usize = 0;
    while i < n
        invariant
            i <= n <= s.len(),
            total == utf8_len(s@.subrange(0, i as int)),
            total <= 4 * i,
        decreases n - i,
    {
        assert(s@.subrange(0, i + 1).drop_last() == s@.subrange(0, i as int));
        total = total + char_width(s[i]) as u128;
        i = i + 1;
    }
    total
}

/// The position of the character that starts at byte `b` (see
/// `byte_index`).
pub fn byte_index_exec(s: &Vec<char>, b: u128) -> (r: Option<usize>)
    ensures
        match byte_index(s@, b as int) {
            Some(k) => r matches Some(p) && p == k,
            None => r is None,
        },
{
    let mut k: usize = 0;
    let mut rem: u128 = b;
    assert(s@.subrange(0, s@.len() as int) =~= s@);
    while rem > 0 && k < s.len()
        invariant
            k <= s.len(),
            byte_index(s@, b as int) == match byte_index(
                s@.subrange(k as int, s@.len() as int),
                rem as int,
            ) {
                Some(j) => Some(j + k),
                None => None,
            },
        decreases s.len() - k,
    {
        let ghost sub = s@.subrange(k as int, s@.len() as int);
        assert(sub[0] == s@[k as int]);
        assert(sub.drop_first() =~= s@.subrange(k + 1, s@.len() as int));
        let w = char_width(s[k]) as u128;
        if w > rem {
            return None;
        }
        rem = rem - w;
        k = k + 1;
    }
    if rem == 0 {
        Some(k)
    } else {
        None
    }
}

/// Whether `s` takes more than `limit` bytes in UTF-8.
pub fn utf8_len_exceeds(s: &Vec<char>, limit: usize) -> (r: bool)
    ensures
        r == (utf8_len(s@) > limit),
{
    let mut total: usize = 0;
    let mut i: usize = 0;
    while i < s.len()
        invariant
            i <= s.len(),
            total <= limit,
            total == utf8_len(s@.subrange(0, i as int)),
        decreases s.len() - i,
    {
        let w = char_width(s[i]);
        assert(s@.subrange(0, i + 1).drop_last() == s@.subrange(0, i as int));
        if w > limit - total {
            proof {
                lemma_utf8_len_prefix_mono(s@, i + 1);
            }
            return true;
        }
        total = total + w;
        i = i + 1;
    }
    assert(s@.subrange(0, s@.len() as int) == s@);
    false
}

/// The UTF-8 length of `s` counted from its first character.
pub proof fn lemma_utf8_len_front(s: Seq<char>)
    requires
        s.len() > 0,
    ensures
        utf8_len(s) == utf8_width(s[0]) + utf8_len(s.drop_first()),
    decreases s.len(),
{
    if s.len() > 1 {
        lemma_utf8_len_front(s.drop_last());
        assert(s.drop_last().drop_first() =~= s.drop_first().drop_last());
        assert(s.drop_last()[0] == s[0]);
        assert(s.drop_first().last() == s.last());
        assert(utf8_len(s.drop_first()) == utf8_len(s.drop_first().drop_last()) + utf8_width(
            s.drop_first().last(),
        ));
        assert(utf8_len(s) == utf8_len(s.drop_last()) + utf8_width(s.last()));
    } else {
        assert(s.drop_first().len() == 0);
        assert(s.drop_last().len() == 0);
        assert(utf8_len(s.drop_first()) == 0);
        assert(utf8_len(s.drop_last()) == 0);
        assert(s.last() == s[0]);
    }
}

/// A position found by `byte_index` lies in `s`, and the prefix before it
/// takes exactly the given number of bytes.
pub proof fn lemma_byte_index(s: Seq<char>, b: int)
    ensures
        byte_index(s, b) matches Some(k) ==> 0 <= k <= s.len() && utf8_len(s.subrange(0, k)) == b,
    decreases s.len(),
{
    if b == 0 {
        assert(s.subrange(0, 0).len() == 0);
    } else if b < 0 || s.len() == 0 {
    } else if utf8_width(s[0]) > b {
    } else {
        lemma_byte_index(s.drop_first(), b - utf8_width(s[0]));
        match byte_index(s.drop_first(), b - utf8_width(s[0])) {
            Some(k) => {
                let pre = s.subrange(0, k + 1);
                lemma_utf8_len_front(pre);
                assert(pre.drop_first() =~= s.drop_first().subrange(0, k));
            },
            None => {},
        }
    }
}

/// The UTF-8 length of two texts together is the sum of their lengths.
pub proof fn lemma_utf8_len_concat(a: Seq<char>, b: Seq<char>)
    ensures
        utf8_len(a + b) == utf8_len(a) + utf8_len(b),
    decreases b.len(),
{
    if b.len() == 0 {
        assert(a + b =~= a);
    } else {
        lemma_utf8_len_concat(a, b.drop_last());
        assert((a + b).drop_last() =~= a + b.drop_last());
        assert((a + b).last() == b.last());
    }
}

/// Every character takes at least one byte.
pub proof fn lemma_utf8_len_at_least(s: Seq<char>)
    ensures
        utf8_len(s) >= s.len(),
    decreases s.len(),
{
    if s.len() > 0 {
        lemma_utf8_len_at_least(s.drop_last());
    }
}

/// The byte length of a prefix leads back to the prefix's end.
pub proof fn lemma_byte_index_prefix(s: Seq<char>, p: int)
    requires
        0 <= p <= s.len(),
    ensures
        byte_index(s, utf8_len(s.subrange(0, p)) as int) == Some(p),
    decreases s.len(),
{
    if p == 0 {
        assert(s.subrange(0, 0).len() == 0);
    } else {
        let pre = s.subrange(0, p);
        lemma_utf8_len_front(pre);
        lemma_utf8_len_at_least(pre);
        assert(pre[0] == s[0]);
        assert(pre.drop_first() =~= s.drop_first().subrange(0, p - 1));
        lemma_utf8_len_at_least(pre.drop_first());
        lemma_byte_index_prefix(s.drop_first(), p - 1);
    }
}

/// The UTF-8 length of a prefix never exceeds that of the whole.
pub proof fn lemma_utf8_len_prefix_mono(s: Seq<char>, n: int)
    requires
        0 <= n <= s.len(),
    ensures
        utf8_len(s.subrange(0, n)) <= utf8_len(s),
    decreases s.len() - n,
{
    if n < s.len() {
        lemma_utf8_len_prefix_mono(s, n + 1);
        assert(s.subrange(0, n + 1).drop_last() == s.subrange(0, n));
    } else {
        assert(s.subrange(0, n) == s);
    }
}

/// The character of a digit below sixteen.
pub fn digit(d: u64) -> (c: char)
    requires
        d < 16,
    ensures
        c == digit_char(d as nat),
{
    let b = d as u8;
    if b < 10 {
        (48 + b) as char
    } else {
        (87 + b) as char
    }
}

/// `n` in decimal (`{}` for an unsigned integer).
pub fn decimal(n: u64) -> (r: Vec<char>)
    ensures
        r@ == dec(n as nat),
    decreases n,
{
    if n < 10 {
        let mut v: Vec<char> = Vec::new();
        v.push(digit(n));
        v
    } else {
        let mut v = decimal(n / 10);
        v.push(digit(n % 10));
        v
    }
}

/// `n` as sixteen lower-case hexadecimal digits (`{:016x}`).
pub fn hex16(n: u64) -> (r: Vec<char>)
    ensures
        r@ == hex_fixed(n as nat, 16),
{
    let mut digits: Vec<char> = Vec::new();
    let mut k: u64 = 0;
    let mut m: u64 = n;
    assert(pow16(0) == 1);
    while k < 16
        invariant
            k <= 16,
            digits@.len() == k,
            forall|j: int|
                0 <= j < k ==> #[trigger] digits@[j] == digit_char(
                    ((n as nat) / pow16(j as nat)) % 16,
                ),
            m as nat == (n as nat) / pow16(k as nat),
        decreases 16 - k,
    {
        digits.push(digit(m % 16));
        proof {
            lemma_div_div_16(n as nat, k as nat);
        }
        m = m / 16;
        k = k + 1;
    }
    let mut r: Vec<char> = Vec::new();
    let mut i: usize = 0;
    while i < 16
        invariant
            i <= 16,
            digits@.len() == 16,
            r@ == hex_fixed((n as nat) / pow16((16 - i) as nat), i as nat),
            forall|j: int|
                0 <= j < 16 ==> #[trigger] digits@[j] == digit_char(
                    ((n as nat) / pow16(j as nat)) % 16,
                ),
        decreases 16 - i,
    {
        proof {
            lemma_div_div_16(n as nat, (15 - i) as nat);
            assert(((n as nat) / pow16((16 - i) as nat)) == ((n as nat) / pow16(
                (15 - i) as nat,
            )) / 16);
        }
        r.push(digits[15 - i]);
        i = i + 1;
    }
    assert(pow16(0) == 1);
    r
}

/// Sixteen to the power `k`.
pub open spec fn pow16(k: nat) -> nat
    decreases k,
{
    if k == 0 {
        1
    } else {
        16 * pow16((k - 1) as nat)
    }
}

/// Dividing by sixteen once more divides by the next power of sixteen.
proof fn lemma_div_div_16(n: nat, k: nat)
    ensures
        pow16(k) > 0,
        n / pow16(k + 1) == (n / pow16(k)) / 16,
    decreases k,
{
    if k > 0 {
        lemma_div_div_16(n, (k - 1) as nat);
    }
    assert(pow16(k + 1) == 16 * pow16(k));
    vstd::arithmetic::div_mod::lemma_div_denominator(n as int, pow16(k) as int, 16);
    vstd::arithmetic::mul::lemma_mul_is_commutative(pow16(k) as int, 16);
}

/// `n` zero-padded to at least three decimal digits (`{:03}`).
pub fn decimal_pad3(n: u64) -> (r: Vec<char>)
    ensures
        r@ == dec_pad3(n as nat),
{
    let d = decimal(n);
    let mut r: Vec<char> = Vec::new();
    if n < 10 {
        r.push('0');
        r.push('0');
    } else if n < 100 {
        r.push('0');
    }
    append_chars(&mut r, &d);
    r
}

/// Appends the characters `src` to `dst`.
pub fn append_chars(dst: &mut Vec<char>, src: &Vec<char>)
    ensures
        final(dst)@ == old(dst)@ + src@,
{
    let mut i: usize = 0;
    while i < src.len()
        invariant
            i <= src.len(),
            dst@ == old(dst)@ + src@.subrange(0, i as int),
        decreases src.len() - i,
    {
        dst.push(src[i]);
        i = i + 1;
    }
    assert(src@.subrange(0, src@.len() as int) == src@);
}

/// Appends the characters of `src` to `dst`.
pub fn append_str(dst: &mut Vec<char>, src: &str)
    ensures
        final(dst)@ == old(dst)@ + src@,
{
    let v = chars_of(src);
    append_chars(dst, &v);
}

/// At most the first `max` characters of `s`.
pub fn truncate(s: &str, max: usize) -> (r: String)
    ensures
        r@ == truncate_spec(s@, max as nat),
{
    let v = chars_of(s);
    if v.len() <= max {
        string_of(&v)
    } else {
        let t = slice_chars(&v, 0, max);
        string_of(&t)
    }
}

} // verus!
