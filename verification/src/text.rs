//! Character-level text utilities shared by the parsers and renderers.
//!
//! Text is handled as sequences of `char`s. A span `[lo, hi)` of a character
//! vector stands for the corresponding slice of the string it was read from.

use vstd::prelude::*;

verus! {

// ---------------------------------------------------------------------------
// Specifications
// ---------------------------------------------------------------------------

/// Unicode `White_Space` characters (the set `char::is_whitespace` and
/// `str::trim` use).
pub open spec fn is_ws(c: char) -> bool {
    ||| c == '\t'
    ||| c == '\n'
    ||| c == '\u{B}'
    ||| c == '\u{C}'
    ||| c == '\r'
    ||| c == ' '
    ||| c == '\u{85}'
    ||| c == '\u{A0}'
    ||| c == '\u{1680}'
    ||| ('\u{2000}' <= c && c <= '\u{200A}')
    ||| c == '\u{2028}'
    ||| c == '\u{2029}'
    ||| c == '\u{202F}'
    ||| c == '\u{205F}'
    ||| c == '\u{3000}'
}

/// `s` without its leading whitespace.
pub open spec fn trim_start(s: Seq<char>) -> Seq<char>
    decreases s.len(),
{
    if s.len() > 0 && is_ws(s[0]) {
        trim_start(s.drop_first())
    } else {
        s
    }
}

/// `s` without its trailing whitespace.
pub open spec fn trim_end(s: Seq<char>) -> Seq<char>
    decreases s.len(),
{
    if s.len() > 0 && is_ws(s.last()) {
        trim_end(s.drop_last())
    } else {
        s
    }
}

/// `s` without leading and trailing whitespace (`str::trim`).
pub open spec fn trim(s: Seq<char>) -> Seq<char> {
    trim_end(trim_start(s))
}

/// Number of characters of `s` before the first `c` (all of `s` when there is none).
pub open spec fn lead_len(s: Seq<char>, c: char) -> nat
    decreases s.len(),
{
    if s.len() == 0 || s[0] == c {
        0
    } else {
        1 + lead_len(s.drop_first(), c)
    }
}

/// Index of the first `c` in `s` (`str::find` with a `char` pattern, in characters).
pub open spec fn find_char(s: Seq<char>, c: char) -> Option<int> {
    if lead_len(s, c) < s.len() {
        Some(lead_len(s, c) as int)
    } else {
        None
    }
}

/// Folds `f` over the lines of `s`, first line first. A line ends at a newline;
/// the text after the last newline is the last line (possibly empty).
pub open spec fn fold_lines<S>(st: S, s: Seq<char>, f: spec_fn(S, Seq<char>) -> S) -> S
    decreases s.len(),
{
    let k = lead_len(s, '\n');
    if k < s.len() {
        fold_lines(f(st, s.take(k as int)), s.skip(k as int + 1), f)
    } else {
        f(st, s)
    }
}

pub open spec fn starts_with(s: Seq<char>, p: Seq<char>) -> bool {
    p.len() <= s.len() && s.take(p.len() as int) == p
}

pub open spec fn ends_with(s: Seq<char>, p: Seq<char>) -> bool {
    p.len() <= s.len() && s.skip(s.len() - p.len()) == p
}

/// The lines of `s` as `str::lines` gives them: split after each newline, a
/// carriage return right before a newline dropped, and no empty line after a
/// final newline.
pub open spec fn text_lines(s: Seq<char>) -> Seq<Seq<char>>
    decreases s.len(),
{
    if s.len() == 0 {
        Seq::empty()
    } else {
        let k = lead_len(s, '\n');
        if k < s.len() {
            let l = s.take(k as int);
            let l = if l.len() > 0 && l.last() == '\r' {
                l.drop_last()
            } else {
                l
            };
            seq![l] + text_lines(s.skip(k as int + 1))
        } else {
            seq![s]
        }
    }
}

pub open spec fn string_views(v: Seq<String>) -> Seq<Seq<char>> {
    v.map_values(|x: String| x@)
}

/// `s` with every occurrence of the non-empty `p` removed, scanning from the
/// left (`str::replace(p, "")`).
pub open spec fn without_all(s: Seq<char>, p: Seq<char>) -> Seq<char>
    decreases s.len(),
{
    if s.len() == 0 || p.len() == 0 {
        s
    } else if starts_with(s, p) {
        without_all(s.skip(p.len() as int), p)
    } else {
        seq![s[0]] + without_all(s.drop_first(), p)
    }
}

/// `p` occurs in `s` at index `i`.
pub open spec fn occurs_at(s: Seq<char>, p: Seq<char>, i: int) -> bool {
    0 <= i && i + p.len() <= s.len() && s.subrange(i, i + p.len()) == p
}

pub open spec fn contains(s: Seq<char>, p: Seq<char>) -> bool {
    exists|i: int| occurs_at(s, p, i)
}

pub open spec fn is_digit(c: char) -> bool {
    '0' <= c && c <= '9'
}

pub open spec fn all_digits(s: Seq<char>) -> bool {
    forall|i: int| 0 <= i < s.len() ==> is_digit(s[i])
}

pub open spec fn digit_value(c: char) -> nat {
    (c as int - '0' as int) as nat
}

/// Value of a string of decimal digits.
pub open spec fn digits_value(s: Seq<char>) -> nat
    decreases s.len(),
{
    if s.len() == 0 {
        0
    } else {
        digits_value(s.drop_last()) * 10 + digit_value(s.last())
    }
}

/// `str::parse` for an unsigned integer type whose largest value is `max`:
/// an optional `+` followed by at least one decimal digit, in range.
pub open spec fn parse_unsigned(s: Seq<char>, max: nat) -> Option<nat> {
    let d = if s.len() > 0 && s[0] == '+' {
        s.drop_first()
    } else {
        s
    };
    if d.len() > 0 && all_digits(d) && digits_value(d) <= max {
        Some(digits_value(d))
    } else {
        None
    }
}

/// `str::parse` for a signed integer type ranging over `[-min_mag, max]`:
/// an optional sign followed by at least one decimal digit, in range.
pub open spec fn parse_signed(s: Seq<char>, min_mag: nat, max: nat) -> Option<int> {
    if s.len() > 0 && s[0] == '-' {
        let d = s.drop_first();
        if d.len() > 0 && all_digits(d) && digits_value(d) <= min_mag {
            Some(-(digits_value(d) as int))
        } else {
            None
        }
    } else {
        match parse_unsigned(s, max) {
            Some(v) => Some(v as int),
            None => None,
        }
    }
}

pub open spec fn digit_char(d: nat) -> char {
    if d == 0 {
        '0'
    } else if d == 1 {
        '1'
    } else if d == 2 {
        '2'
    } else if d == 3 {
        '3'
    } else if d == 4 {
        '4'
    } else if d == 5 {
        '5'
    } else if d == 6 {
        '6'
    } else if d == 7 {
        '7'
    } else if d == 8 {
        '8'
    } else {
        '9'
    }
}

/// Decimal representation of `n`, as `Display` writes it.
pub open spec fn decimal(n: nat) -> Seq<char>
    decreases n,
{
    if n < 10 {
        seq![digit_char(n)]
    } else {
        decimal(n / 10).push(digit_char(n % 10))
    }
}

/// Decimal representation of a signed integer, as `Display` writes it.
pub open spec fn signed_decimal(n: int) -> Seq<char> {
    if n < 0 {
        seq!['-'] + decimal((-n) as nat)
    } else {
        decimal(n as nat)
    }
}

/// Number of bytes of `c` in UTF-8.
pub open spec fn char_utf8_len(c: char) -> nat {
    if (c as u32) < 0x80 {
        1
    } else if (c as u32) < 0x800 {
        2
    } else if (c as u32) < 0x10000 {
        3
    } else {
        4
    }
}

/// Number of bytes of `s` in UTF-8 (`str::len`).
pub open spec fn utf8_len(s: Seq<char>) -> nat
    decreases s.len(),
{
    if s.len() == 0 {
        0
    } else {
        utf8_len(s.drop_last()) + char_utf8_len(s.last())
    }
}

/// Name for what `str::to_lowercase` returns: the full Unicode lowercase mapping.
pub uninterp spec fn spec_lowercase(s: Seq<char>) -> Seq<char>;

/// Name for what `str::to_uppercase` returns: the full Unicode uppercase mapping.
pub uninterp spec fn spec_uppercase(s: Seq<char>) -> Seq<char>;

// ---------------------------------------------------------------------------
// Lemmas
// ---------------------------------------------------------------------------

pub proof fn lemma_lead_len_skip(s: Seq<char>, c: char, i: int)
    requires
        0 <= i <= s.len(),
        forall|j: int| 0 <= j < i ==> s[j] != c,
    ensures
        lead_len(s, c) == i + lead_len(s.skip(i), c),
    decreases i,
{
    if i > 0 {
        lemma_lead_len_skip(s.drop_first(), c, i - 1);
        assert(s.drop_first().skip(i - 1) =~= s.skip(i));
    } else {
        assert(s.skip(0) =~= s);
    }
}

/// One step of `fold_lines`: the line `[pos, e)` of `v` ends at `e`.
pub proof fn lemma_fold_lines_step<S>(st: S, v: Seq<char>, pos: int, e: int, f: spec_fn(S, Seq<char>) -> S)
    requires
        0 <= pos <= e <= v.len(),
        e == pos + lead_len(v.subrange(pos, v.len() as int), '\n'),
    ensures
        e < v.len() ==> fold_lines(st, v.skip(pos), f) == fold_lines(
            f(st, v.subrange(pos, e)),
            v.skip(e + 1),
            f,
        ),
        e == v.len() ==> fold_lines(st, v.skip(pos), f) == f(st, v.subrange(pos, e)),
{
    let s = v.skip(pos);
    assert(s =~= v.subrange(pos, v.len() as int));
    if e < v.len() {
        assert(s.take(e - pos) =~= v.subrange(pos, e));
        assert(s.skip(e - pos + 1) =~= v.skip(e + 1));
    } else {
        assert(s =~= v.subrange(pos, e));
    }
}

pub proof fn lemma_lead_len_facts(s: Seq<char>, c: char)
    ensures
        lead_len(s, c) <= s.len(),
        lead_len(s, c) < s.len() ==> s[lead_len(s, c) as int] == c,
        forall|j: int| 0 <= j < lead_len(s, c) ==> s[j] != c,
    decreases s.len(),
{
    if s.len() > 0 && s[0] != c {
        lemma_lead_len_facts(s.drop_first(), c);
        assert forall|j: int| 0 <= j < lead_len(s, c) implies s[j] != c by {
            if j > 0 {
                assert(s[j] == s.drop_first()[j - 1]);
            }
        }
    }
}

pub proof fn lemma_digits_value_prefix(s: Seq<char>, k: int)
    requires
        0 <= k <= s.len(),
    ensures
        digits_value(s.take(k)) <= digits_value(s),
    decreases s.len(),
{
    if k < s.len() {
        lemma_digits_value_prefix(s.drop_last(), k);
        assert(s.drop_last().take(k) =~= s.take(k));
    } else {
        assert(s.take(k) =~= s);
    }
}

pub proof fn lemma_decimal_facts(n: nat)
    ensures
        decimal(n).len() > 0,
        all_digits(decimal(n)),
        digits_value(decimal(n)) == n,
        decimal(n)[0] != '+',
        decimal(n)[0] != '-',
    decreases n,
{
    if n >= 10 {
        lemma_decimal_facts(n / 10);
        let d = decimal(n / 10).push(digit_char(n % 10));
        assert(d.drop_last() =~= decimal(n / 10));
        assert(d[0] == decimal(n / 10)[0]);
        lemma_digit_char_value(n % 10);
        assert(d.last() == digit_char(n % 10));
        assert(digits_value(d) == digits_value(decimal(n / 10)) * 10 + digit_value(
            digit_char(n % 10),
        ));
        assert(decimal(n) == d);
        assert(digits_value(d) == n);
        assert((n / 10) * 10 + n % 10 == n);
        assert(all_digits(d)) by {
            assert forall|i: int| 0 <= i < d.len() implies is_digit(d[i]) by {
                if i < d.len() - 1 {
                    assert(d[i] == decimal(n / 10)[i]);
                }
            }
        }
    } else {
        lemma_digit_char_value(n);
        assert(decimal(n).drop_last() =~= Seq::<char>::empty());
        assert(digits_value(Seq::<char>::empty()) == 0);
        assert(digits_value(decimal(n).drop_last()) == 0);
        assert(decimal(n).last() == digit_char(n));
        assert(digits_value(decimal(n)) == n);
    }
}

pub proof fn lemma_digit_char_value(d: nat)
    requires
        d < 10,
    ensures
        is_digit(digit_char(d)),
        digit_value(digit_char(d)) == d,
{
}

pub proof fn lemma_parse_decimal(n: nat, max: nat)
    requires
        n <= max,
    ensures
        parse_unsigned(decimal(n), max) == Some(n),
{
    lemma_decimal_facts(n);
}

/// Neither part holds `c`, so neither does the whole.
pub proof fn lemma_concat_lacks(a: Seq<char>, b: Seq<char>, c: char)
    requires
        !a.contains(c),
        !b.contains(c),
    ensures
        !(a + b).contains(c),
{
    assert forall|i: int| 0 <= i < (a + b).len() implies (a + b)[i] != c by {
        if i < a.len() {
            assert((a + b)[i] == a[i]);
        } else {
            assert((a + b)[i] == b[i - a.len()]);
        }
    }
}

/// Before the first `c` of `a + b` lies all of `a` when `a` has no `c`.
pub proof fn lemma_lead_len_concat(a: Seq<char>, b: Seq<char>, c: char)
    requires
        !a.contains(c),
    ensures
        lead_len(a + b, c) == a.len() + lead_len(b, c),
    decreases a.len(),
{
    if a.len() == 0 {
        assert(a + b =~= b);
    } else {
        assert((a + b)[0] == a[0]);
        assert((a + b).drop_first() =~= a.drop_first() + b);
        assert forall|i: int| 0 <= i < a.drop_first().len() implies a.drop_first()[i] != c by {
            assert(a.drop_first()[i] == a[i + 1]);
        }
        lemma_lead_len_concat(a.drop_first(), b, c);
    }
}

/// A first line without a newline is folded first, then the rest.
pub proof fn lemma_fold_lines_front<S>(st: S, a: Seq<char>, b: Seq<char>, f: spec_fn(S, Seq<char>) -> S)
    requires
        !a.contains('\n'),
    ensures
        fold_lines(st, a + (seq!['\n'] + b), f) == fold_lines(f(st, a), b, f),
{
    let s = a + (seq!['\n'] + b);
    lemma_lead_len_concat(a, seq!['\n'] + b, '\n');
    assert((seq!['\n'] + b)[0] == '\n');
    assert(lead_len(seq!['\n'] + b, '\n') == 0);
    assert(s.take(a.len() as int) =~= a);
    assert(s.skip(a.len() as int + 1) =~= b);
}

/// Folding over two texts joined by a newline folds over the first, then the second.
pub proof fn lemma_fold_lines_concat<S>(st: S, a: Seq<char>, b: Seq<char>, f: spec_fn(S, Seq<char>) -> S)
    ensures
        fold_lines(st, a + (seq!['\n'] + b), f) == fold_lines(fold_lines(st, a, f), b, f),
    decreases a.len(),
{
    let k = lead_len(a, '\n') as int;
    lemma_lead_len_facts(a, '\n');
    if k < a.len() {
        let a1 = a.take(k);
        let a2 = a.skip(k + 1);
        assert forall|i: int| 0 <= i < a1.len() implies a1[i] != '\n' by {
            assert(a1[i] == a[i]);
        }
        assert(a =~= a1 + (seq!['\n'] + a2));
        assert(a + (seq!['\n'] + b) =~= a1 + (seq!['\n'] + (a2 + (seq!['\n'] + b))));
        lemma_fold_lines_front(st, a1, a2 + (seq!['\n'] + b), f);
        lemma_fold_lines_front(st, a1, a2, f);
        lemma_fold_lines_concat(f(st, a1), a2, b, f);
    } else {
        lemma_fold_lines_front(st, a, b, f);
    }
}

/// Whitespace only: nothing is left at either end.
pub proof fn lemma_trim_all_ws(s: Seq<char>)
    requires
        forall|i: int| 0 <= i < s.len() ==> is_ws(s[i]),
    ensures
        trim_start(s).len() == 0,
        trim_end(s).len() == 0,
    decreases s.len(),
{
    if s.len() > 0 {
        assert forall|i: int| 0 <= i < s.drop_first().len() implies is_ws(s.drop_first()[i]) by {
            assert(s.drop_first()[i] == s[i + 1]);
        }
        assert forall|i: int| 0 <= i < s.drop_last().len() implies is_ws(s.drop_last()[i]) by {
            assert(s.drop_last()[i] == s[i]);
        }
        lemma_trim_all_ws(s.drop_first());
        lemma_trim_all_ws(s.drop_last());
    }
}

/// `trim_end(s)` is a prefix of `s` followed by whitespace only, and it does
/// not end in whitespace.
pub proof fn lemma_trim_end_shape(s: Seq<char>)
    ensures
        trim_end(s).len() <= s.len(),
        trim_end(s) == s.take(trim_end(s).len() as int),
        forall|i: int| trim_end(s).len() <= i < s.len() ==> is_ws(s[i]),
        trim_end(s).len() > 0 ==> !is_ws(trim_end(s).last()),
    decreases s.len(),
{
    if s.len() > 0 && is_ws(s.last()) {
        lemma_trim_end_shape(s.drop_last());
        let t = trim_end(s.drop_last());
        assert(s.drop_last().take(t.len() as int) =~= s.take(t.len() as int));
        assert forall|i: int| t.len() <= i < s.len() implies is_ws(s[i]) by {
            if i < s.len() - 1 {
                assert(s[i] == s.drop_last()[i]);
            }
        }
    } else {
        assert(s.take(s.len() as int) =~= s);
    }
}

/// Trailing whitespace of a joined text comes off the second part first.
pub proof fn lemma_trim_end_concat(a: Seq<char>, b: Seq<char>)
    ensures
        trim_end(a + b) == (if trim_end(b).len() > 0 {
            a + trim_end(b)
        } else {
            trim_end(a)
        }),
    decreases b.len(),
{
    if b.len() == 0 {
        assert(a + b =~= a);
    } else {
        assert((a + b).last() == b.last());
        if is_ws(b.last()) {
            assert((a + b).drop_last() =~= a + b.drop_last());
            lemma_trim_end_concat(a, b.drop_last());
        }
    }
}

/// Leading whitespace of a joined text comes off the first part first.
pub proof fn lemma_trim_start_concat(a: Seq<char>, b: Seq<char>)
    ensures
        trim_start(a + b) == (if trim_start(a).len() > 0 {
            trim_start(a) + b
        } else {
            trim_start(b)
        }),
    decreases a.len(),
{
    if a.len() == 0 {
        assert(a + b =~= b);
    } else {
        assert((a + b)[0] == a[0]);
        if is_ws(a[0]) {
            assert((a + b).drop_first() =~= a.drop_first() + b);
            lemma_trim_start_concat(a.drop_first(), b);
        }
    }
}

/// Trimming a text after its trailing whitespace is cut gives its trim.
pub proof fn lemma_trim_after_trim_end(s: Seq<char>)
    ensures
        trim_end(trim_start(trim_end(s))) == trim(s),
{
    let t = trim_end(s);
    let r = s.skip(t.len() as int);
    lemma_trim_end_shape(s);
    assert(s =~= t + r);
    assert forall|i: int| 0 <= i < r.len() implies is_ws(r[i]) by {
        assert(r[i] == s[i + t.len()]);
    }
    lemma_trim_all_ws(r);
    lemma_trim_start_concat(t, r);
    if trim_start(t).len() > 0 {
        lemma_trim_end_concat(trim_start(t), r);
    } else {
        assert(trim_start(t) =~= Seq::<char>::empty());
    }
}

// ---------------------------------------------------------------------------
// Executable helpers
// ---------------------------------------------------------------------------

pub fn is_whitespace(c: char) -> (r: bool)
    ensures
        r == is_ws(c),
{
    c == '\t' || c == '\n' || c == '\u{B}' || c == '\u{C}' || c == '\r' || c == ' ' || c
        == '\u{85}' || c == '\u{A0}' || c == '\u{1680}' || ('\u{2000}' <= c && c <= '\u{200A}')
        || c == '\u{2028}' || c == '\u{2029}' || c == '\u{202F}' || c == '\u{205F}' || c
        == '\u{3000}'
}

/// The characters of a string slice, in order.
pub fn chars_of(s: &str) -> (v: Vec<char>)
    ensures
        v@ == s@,
{
    let mut v: Vec<char> = Vec::new();
    for c in it: s.chars()
        invariant
            v@ == it.seq().take(it.index() as int),
    {
        v.push(c);
    }
    v
}

/// A `String` holding exactly the given characters (`String::from_iter`).
#[verifier::external_body]
pub(crate) fn string_from_chars(v: &Vec<char>) -> (s: String)
    ensures
        s@ == v@,
{
    v.iter().collect()
}

/// `str::to_lowercase` applied to the span `[lo, hi)` of `v`.
#[verifier::external_body]
pub(crate) fn lowercase_span(v: &Vec<char>, lo: usize, hi: usize) -> (r: Vec<char>)
    requires
        lo <= hi <= v.len(),
    ensures
        r@ == spec_lowercase(v@.subrange(lo as int, hi as int)),
{
    let s: String = v[lo..hi].iter().collect();
    s.to_lowercase().chars().collect()
}

/// `str::to_uppercase` applied to the span `[lo, hi)` of `v`.
#[verifier::external_body]
pub(crate) fn uppercase_span(v: &Vec<char>, lo: usize, hi: usize) -> (r: Vec<char>)
    requires
        lo <= hi <= v.len(),
    ensures
        r@ == spec_uppercase(v@.subrange(lo as int, hi as int)),
{
    let s: String = v[lo..hi].iter().collect();
    s.to_uppercase().chars().collect()
}

/// The span `[lo, hi)` of `v` with surrounding whitespace removed.
pub fn trim_span(v: &Vec<char>, lo: usize, hi: usize) -> (r: (usize, usize))
    requires
        lo <= hi <= v.len(),
    ensures
        lo <= r.0 <= r.1 <= hi,
        v@.subrange(r.0 as int, r.1 as int) == trim(v@.subrange(lo as int, hi as int)),
{
    let mut a = lo;
    while a < hi && is_whitespace(v[a])
        invariant
            lo <= a <= hi,
            hi <= v.len(),
            trim_start(v@.subrange(lo as int, hi as int)) == trim_start(
                v@.subrange(a as int, hi as int),
            ),
        decreases hi - a,
    {
        assert(v@.subrange(a as int, hi as int).drop_first() =~= v@.subrange(a + 1, hi as int));
        a = a + 1;
    }
    let mut b = hi;
    while b > a && is_whitespace(v[b - 1])
        invariant
            lo <= a <= b <= hi,
            hi <= v.len(),
            trim_end(v@.subrange(a as int, hi as int)) == trim_end(v@.subrange(a as int, b as int)),
        decreases b - a,
    {
        assert(v@.subrange(a as int, b as int).drop_last() =~= v@.subrange(a as int, b - 1));
        b = b - 1;
    }
    (a, b)
}

/// Index of the first `c` in the span `[from, hi)`, or `hi` when there is none.
pub fn next_index_of(v: &Vec<char>, from: usize, hi: usize, c: char) -> (e: usize)
    requires
        from <= hi <= v.len(),
    ensures
        from <= e <= hi,
        e == from + lead_len(v@.subrange(from as int, hi as int), c),
        e < hi ==> v@[e as int] == c,
        forall|j: int| from <= j < e ==> v@[j] != c,
{
    let mut i = from;
    while i < hi && v[i] != c
        invariant
            from <= i <= hi <= v.len(),
            forall|j: int| from <= j < i ==> v@[j] != c,
        decreases hi - i,
    {
        i = i + 1;
    }
    proof {
        let s = v@.subrange(from as int, hi as int);
        lemma_lead_len_skip(s, c, i - from);
        assert(s.skip(i - from) =~= v@.subrange(i as int, hi as int));
    }
    i
}

/// Whether the span `[lo, hi)` of `v` equals `p`.
pub fn span_eq(v: &Vec<char>, lo: usize, hi: usize, p: &Vec<char>) -> (r: bool)
    requires
        lo <= hi <= v.len(),
    ensures
        r == (v@.subrange(lo as int, hi as int) == p@),
{
    if hi - lo != p.len() {
        return false;
    }
    let mut i: usize = 0;
    while i < p.len()
        invariant
            hi - lo == p.len(),
            lo <= hi <= v.len(),
            0 <= i <= p.len(),
            forall|j: int| 0 <= j < i ==> v@[lo + j] == p@[j],
        decreases p.len() - i,
    {
        if v[lo + i] != p[i] {
            assert(v@.subrange(lo as int, hi as int)[i as int] != p@[i as int]);
            return false;
        }
        i = i + 1;
    }
    assert(v@.subrange(lo as int, hi as int) =~= p@);
    true
}

/// Whether the whole of `a` equals the text `s`.
pub fn chars_eq_str(a: &Vec<char>, s: &str) -> (r: bool)
    ensures
        r == (a@ == s@),
{
    let p = chars_of(s);
    let r = span_eq(a, 0, a.len(), &p);
    assert(a@.subrange(0, a@.len() as int) =~= a@);
    r
}

/// Whether `p` occurs in `v` at index `i` (within the span ending at `hi`).
pub fn occurs_at_span(v: &Vec<char>, i: usize, hi: usize, p: &Vec<char>) -> (r: bool)
    requires
        i <= hi <= v.len(),
    ensures
        r == occurs_at(v@.subrange(i as int, hi as int), p@, 0),
{
    if p.len() > hi - i {
        return false;
    }
    let r = span_eq(v, i, i + p.len(), p);
    assert(v@.subrange(i as int, hi as int).subrange(0, p@.len() as int) =~= v@.subrange(
        i as int,
        i + p.len(),
    ));
    r
}

/// Whether the span `[lo, hi)` of `v` starts with `p`.
pub fn span_starts_with(v: &Vec<char>, lo: usize, hi: usize, p: &Vec<char>) -> (r: bool)
    requires
        lo <= hi <= v.len(),
    ensures
        r == starts_with(v@.subrange(lo as int, hi as int), p@),
{
    if p.len() > hi - lo {
        return false;
    }
    let r = span_eq(v, lo, lo + p.len(), p);
    assert(v@.subrange(lo as int, hi as int).take(p@.len() as int) =~= v@.subrange(
        lo as int,
        lo + p.len(),
    ));
    r
}

/// Whether the span `[lo, hi)` of `v` ends with `p`.
pub fn span_ends_with(v: &Vec<char>, lo: usize, hi: usize, p: &Vec<char>) -> (r: bool)
    requires
        lo <= hi <= v.len(),
    ensures
        r == ends_with(v@.subrange(lo as int, hi as int), p@),
{
    if p.len() > hi - lo {
        return false;
    }
    let r = span_eq(v, hi - p.len(), hi, p);
    assert(v@.subrange(lo as int, hi as int).skip((hi - lo) - p@.len()) =~= v@.subrange(
        hi - p.len(),
        hi as int,
    ));
    r
}

/// Whether `p` occurs anywhere in the span `[lo, hi)` of `v`.
pub fn span_contains(v: &Vec<char>, lo: usize, hi: usize, p: &Vec<char>) -> (r: bool)
    requires
        lo <= hi <= v.len(),
    ensures
        r == contains(v@.subrange(lo as int, hi as int), p@),
{
    let ghost s = v@.subrange(lo as int, hi as int);
    if p.len() > hi - lo {
        return false;
    }
    let last = hi - p.len();
    let mut i = lo;
    loop
        invariant
            lo <= i <= last,
            last + p@.len() == hi,
            hi <= v.len(),
            s == v@.subrange(lo as int, hi as int),
            forall|j: int| 0 <= j < i - lo ==> !occurs_at(s, p@, j),
        decreases last - i,
    {
        let found = occurs_at_span(v, i, hi, p);
        assert(found == occurs_at(s, p@, i - lo)) by {
            if i - lo + p@.len() <= s.len() {
                assert(s.subrange(i - lo, i - lo + p@.len()) =~= v@.subrange(
                    i as int,
                    hi as int,
                ).subrange(0, p@.len() as int));
            }
        }
        if found {
            return true;
        }
        if i == last {
            assert forall|j: int| !occurs_at(s, p@, j) by {
                if 0 <= j && j + p@.len() <= s.len() {
                    assert(j <= i - lo);
                }
            }
            return false;
        }
        i = i + 1;
    }
}

/// Whether the text `s` contains `p`.
pub fn str_contains(s: &Vec<char>, p: &str) -> (r: bool)
    ensures
        r == contains(s@, p@),
{
    let pc = chars_of(p);
    let r = span_contains(s, 0, s.len(), &pc);
    assert(s@.subrange(0, s@.len() as int) =~= s@);
    r
}

/// The lines of `s` (`str::lines`).
pub fn text_lines_of(s: &str) -> (r: Vec<String>)
    ensures
        string_views(r@) == text_lines(s@),
{
    let v = chars_of(s);
    let n = v.len();
    let mut r: Vec<String> = Vec::new();
    let mut pos: usize = 0;
    assert(v@.skip(0) =~= v@);
    while pos < n
        invariant
            n == v@.len(),
            pos <= n,
            text_lines(v@) == string_views(r@) + text_lines(v@.skip(pos as int)),
        decreases n - pos,
    {
        let ghost rest = v@.skip(pos as int);
        let e = next_index_of(&v, pos, n, '\n');
        assert(v@.subrange(pos as int, n as int) =~= rest);
        let mut end = e;
        if e < n && e > pos && v[e - 1] == '\r' {
            end = e - 1;
        }
        let line = span_string(&v, pos, end);
        let ghost before = r@;
        r.push(line);
        assert(string_views(r@) =~= string_views(before).push(line@));
        if e == n {
            assert(rest.len() > 0);
            assert(line@ =~= rest);
            assert(text_lines(rest) == seq![rest]);
            assert(v@.skip(n as int) =~= Seq::<char>::empty());
            assert(text_lines(v@.skip(n as int)) =~= Seq::<Seq<char>>::empty());
            assert(string_views(r@) + text_lines(v@.skip(n as int)) =~= string_views(before) + text_lines(rest));
            pos = n;
        } else {
            let ghost k = (e - pos) as int;
            assert(rest.take(k) =~= v@.subrange(pos as int, e as int));
            if end < e {
                assert(rest.take(k).drop_last() =~= line@);
            } else {
                assert(rest.take(k) =~= line@);
            }
            assert(rest.skip(k + 1) =~= v@.skip(e + 1));
            assert(text_lines(rest) == seq![line@] + text_lines(v@.skip(e + 1)));
            assert(string_views(r@) + text_lines(v@.skip(e + 1)) =~= string_views(before) + text_lines(rest));
            pos = e + 1;
        }
    }
    assert(v@.skip(n as int) =~= Seq::<char>::empty());
    assert(string_views(r@) + Seq::<Seq<char>>::empty() =~= string_views(r@));
    r
}

/// The text `s` with every occurrence of `p` removed (`str::replace(p, "")`).
pub fn remove_all(s: &str, p: &str) -> (r: String)
    ensures
        r@ == without_all(s@, p@),
{
    let v = chars_of(s);
    let pc = chars_of(p);
    let n = v.len();
    let mut out: Vec<char> = Vec::new();
    if pc.len() == 0 {
        return string_from_chars(&v);
    }
    let mut i: usize = 0;
    assert(v@.skip(0) =~= v@);
    while i < n
        invariant
            n == v@.len(),
            pc@ == p@,
            pc@.len() > 0,
            i <= n,
            without_all(v@, p@) == out@ + without_all(v@.skip(i as int), p@),
        decreases n - i,
    {
        let ghost rest = v@.skip(i as int);
        if span_starts_with(&v, i, n, &pc) {
            assert(v@.subrange(i as int, n as int) =~= rest);
            assert(rest.skip(pc@.len() as int) =~= v@.skip(i + pc@.len()));
            i = i + pc.len();
        } else {
            assert(v@.subrange(i as int, n as int) =~= rest);
            assert(rest.drop_first() =~= v@.skip(i + 1));
            assert(out@.push(v@[i as int]) + without_all(rest.drop_first(), p@) =~= out@ + (seq![rest[0]] + without_all(rest.drop_first(), p@)));
            out.push(v[i]);
            i = i + 1;
        }
    }
    assert(v@.skip(i as int) =~= Seq::<char>::empty());
    assert(out@ + Seq::<char>::empty() =~= out@);
    string_from_chars(&out)
}

/// The characters of the span `[lo, hi)` of `v`.
pub fn copy_span(v: &Vec<char>, lo: usize, hi: usize) -> (r: Vec<char>)
    requires
        lo <= hi <= v.len(),
    ensures
        r@ == v@.subrange(lo as int, hi as int),
{
    let mut r: Vec<char> = Vec::new();
    let mut i = lo;
    while i < hi
        invariant
            lo <= i <= hi <= v.len(),
            r@ == v@.subrange(lo as int, i as int),
        decreases hi - i,
    {
        r.push(v[i]);
        assert(r@ =~= v@.subrange(lo as int, i + 1));
        i = i + 1;
    }
    r
}

/// A `String` holding the span `[lo, hi)` of `v`.
pub fn span_string(v: &Vec<char>, lo: usize, hi: usize) -> (r: String)
    requires
        lo <= hi <= v.len(),
    ensures
        r@ == v@.subrange(lo as int, hi as int),
{
    let c = copy_span(v, lo, hi);
    string_from_chars(&c)
}

/// Appends all characters of `s` to `out`.
pub fn push_str(out: &mut Vec<char>, s: &str)
    ensures
        final(out)@ == old(out)@ + s@,
{
    let c = chars_of(s);
    push_chars(out, &c);
}

/// Appends all characters of `c` to `out`.
pub fn push_chars(out: &mut Vec<char>, c: &Vec<char>)
    ensures
        final(out)@ == old(out)@ + c@,
{
    let ghost start = out@;
    let mut i: usize = 0;
    while i < c.len()
        invariant
            0 <= i <= c.len(),
            out@ == start + c@.take(i as int),
        decreases c.len() - i,
    {
        out.push(c[i]);
        assert(c@.take(i + 1) =~= c@.take(i as int).push(c@[i as int]));
        i = i + 1;
    }
    assert(c@.take(c@.len() as int) =~= c@);
}

/// The decimal digit character for `d`.
pub fn digit_to_char(d: u64) -> (c: char)
    requires
        d < 10,
    ensures
        c == digit_char(d as nat),
{
    if d == 0 {
        '0'
    } else if d == 1 {
        '1'
    } else if d == 2 {
        '2'
    } else if d == 3 {
        '3'
    } else if d == 4 {
        '4'
    } else if d == 5 {
        '5'
    } else if d == 6 {
        '6'
    } else if d == 7 {
        '7'
    } else if d == 8 {
        '8'
    } else {
        '9'
    }
}

/// Appends the decimal representation of `n` to `out`.
pub fn push_decimal(out: &mut Vec<char>, n: u64)
    ensures
        final(out)@ == old(out)@ + decimal(n as nat),
    decreases n,
{
    if n >= 10 {
        push_decimal(out, n / 10);
    }
    out.push(digit_to_char(n % 10));
    proof {
        if n >= 10 {
            assert(decimal(n as nat) == decimal((n / 10) as nat).push(digit_char((n % 10) as nat)));
        }
    }
    assert(out@ =~= old(out)@ + decimal(n as nat));
}

/// Appends the decimal representation of the signed `n` to `out`.
pub fn push_signed_decimal(out: &mut Vec<char>, n: i64)
    ensures
        final(out)@ == old(out)@ + signed_decimal(n as int),
{
    if n < 0 {
        out.push('-');
        let mag: u64 = (0i128 - n as i128) as u64;
        push_decimal(out, mag);
        assert(out@ =~= old(out)@ + signed_decimal(n as int));
    } else {
        push_decimal(out, n as u64);
    }
}

/// Decimal digits of the span `[lo, hi)` (no sign), if all are digits and the
/// value is at most `max`.
pub fn parse_digits_span(v: &Vec<char>, lo: usize, hi: usize, max: u64) -> (r: Option<u64>)
    requires
        lo <= hi <= v.len(),
    ensures
        ({
            let d = v@.subrange(lo as int, hi as int);
            match r {
                Some(x) => d.len() > 0 && all_digits(d) && digits_value(d) <= max && x
                    == digits_value(d),
                None => !(d.len() > 0 && all_digits(d) && digits_value(d) <= max),
            }
        }),
{
    let ghost d = v@.subrange(lo as int, hi as int);
    if lo == hi {
        return None;
    }
    let mut acc: u128 = 0;
    let mut i = lo;
    while i < hi
        invariant
            lo <= i <= hi <= v.len(),
            d == v@.subrange(lo as int, hi as int),
            acc == digits_value(v@.subrange(lo as int, i as int)),
            acc <= max,
            all_digits(v@.subrange(lo as int, i as int)),
        decreases hi - i,
    {
        let c = v[i];
        if !('0' <= c && c <= '9') {
            assert(!all_digits(d)) by {
                assert(d[i - lo] == c);
            }
            return None;
        }
        let dv: u128 = (c as u32 - '0' as u32) as u128;
        let next = acc * 10 + dv;
        proof {
            let t = v@.subrange(lo as int, i + 1);
            assert(t.drop_last() =~= v@.subrange(lo as int, i as int));
            assert(digits_value(t) == acc * 10 + dv);
            assert(t =~= d.take(i + 1 - lo));
        }
        if next > max as u128 {
            proof {
                if all_digits(d) {
                    lemma_digits_value_prefix(d, i + 1 - lo);
                }
            }
            return None;
        }
        acc = next;
        i = i + 1;
        assert(all_digits(v@.subrange(lo as int, i as int))) by {
            assert forall|j: int| 0 <= j < i - lo implies is_digit(
                v@.subrange(lo as int, i as int)[j],
            ) by {
                if j < i - 1 - lo {
                    assert(v@.subrange(lo as int, i as int)[j] == v@.subrange(
                        lo as int,
                        i - 1,
                    )[j]);
                }
            }
        }
    }
    Some(acc as u64)
}

/// `str::parse` of the span `[lo, hi)` as an unsigned integer of at most `max`.
pub fn parse_unsigned_span(v: &Vec<char>, lo: usize, hi: usize, max: u64) -> (r: Option<u64>)
    requires
        lo <= hi <= v.len(),
    ensures
        match r {
            Some(x) => parse_unsigned(v@.subrange(lo as int, hi as int), max as nat) == Some(
                x as nat,
            ),
            None => parse_unsigned(v@.subrange(lo as int, hi as int), max as nat) is None,
        },
{
    let ghost s = v@.subrange(lo as int, hi as int);
    if lo < hi && v[lo] == '+' {
        assert(s.drop_first() =~= v@.subrange(lo + 1, hi as int));
        parse_digits_span(v, lo + 1, hi, max)
    } else {
        parse_digits_span(v, lo, hi, max)
    }
}

/// `str::parse` of the span `[lo, hi)` as a signed integer in `[-min_mag, max]`.
pub fn parse_signed_span(v: &Vec<char>, lo: usize, hi: usize, min_mag: u64, max: u64) -> (r:
    Option<i128>)
    requires
        lo <= hi <= v.len(),
    ensures
        match r {
            Some(x) => parse_signed(v@.subrange(lo as int, hi as int), min_mag as nat, max as nat)
                == Some(x as int),
            None => parse_signed(
                v@.subrange(lo as int, hi as int),
                min_mag as nat,
                max as nat,
            ) is None,
        },
{
    let ghost s = v@.subrange(lo as int, hi as int);
    if lo < hi && v[lo] == '-' {
        assert(s.drop_first() =~= v@.subrange(lo + 1, hi as int));
        match parse_digits_span(v, lo + 1, hi, min_mag) {
            Some(m) => Some(0i128 - m as i128),
            None => None,
        }
    } else {
        match parse_unsigned_span(v, lo, hi, max) {
            Some(m) => Some(m as i128),
            None => None,
        }
    }
}

/// Number of bytes of the span `[lo, hi)` in UTF-8.
pub fn utf8_len_span(v: &Vec<char>, lo: usize, hi: usize) -> (n: u128)
    requires
        lo <= hi <= v.len(),
    ensures
        n == utf8_len(v@.subrange(lo as int, hi as int)),
{
    let mut n: u128 = 0;
    let mut i = lo;
    while i < hi
        invariant
            lo <= i <= hi <= v.len(),
            n == utf8_len(v@.subrange(lo as int, i as int)),
            n <= 4 * (i - lo),
        decreases hi - i,
    {
        let c = v[i];
        let k: u128 = if (c as u32) < 0x80 {
            1
        } else if (c as u32) < 0x800 {
            2
        } else if (c as u32) < 0x10000 {
            3
        } else {
            4
        };
        assert(v@.subrange(lo as int, i + 1).drop_last() =~= v@.subrange(lo as int, i as int));
        n = n + k;
        i = i + 1;
    }
    n
}

} // verus!
