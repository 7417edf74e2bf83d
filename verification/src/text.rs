//! Character sequences: the string operations the sources rely on, each
//! stated as a spec function over `Seq<char>` and implemented on `Vec<char>`.
use vstd::prelude::*;

verus! {

// ---------------------------------------------------------------------------
// Specifications
// ---------------------------------------------------------------------------

/// Unicode `White_Space`, the set that `char::is_whitespace` tests.
pub open spec fn is_whitespace(c: char) -> bool {
    ||| '\u{9}' <= c <= '\u{D}'
    ||| c == ' '
    ||| c == '\u{85}'
    ||| c == '\u{A0}'
    ||| c == '\u{1680}'
    ||| '\u{2000}' <= c <= '\u{200A}'
    ||| c == '\u{2028}'
    ||| c == '\u{2029}'
    ||| c == '\u{202F}'
    ||| c == '\u{205F}'
    ||| c == '\u{3000}'
}

/// An ASCII decimal digit.
pub open spec fn is_digit(c: char) -> bool {
    '0' <= c <= '9'
}

/// `s` without its leading white space.
pub open spec fn trim_start(s: Seq<char>) -> Seq<char>
    decreases s.len(),
{
    if s.len() > 0 && is_whitespace(s[0]) {
        trim_start(s.drop_first())
    } else {
        s
    }
}

/// `s` without its trailing white space.
pub open spec fn trim_end(s: Seq<char>) -> Seq<char>
    decreases s.len(),
{
    if s.len() > 0 && is_whitespace(s.last()) {
        trim_end(s.drop_last())
    } else {
        s
    }
}

/// `s` without white space at either end (`str::trim`).
pub open spec fn trim(s: Seq<char>) -> Seq<char> {
    trim_end(trim_start(s))
}

/// `s` without the copies of `c` at its end (`str::trim_end_matches` with a char).
pub open spec fn trim_end_char(s: Seq<char>, c: char) -> Seq<char>
    decreases s.len(),
{
    if s.len() > 0 && s.last() == c {
        trim_end_char(s.drop_last(), c)
    } else {
        s
    }
}

/// What follows the last `c` in `s`, or all of `s` where `c` does not occur
/// (the first item of `str::rsplit(c)`).
pub open spec fn after_last(s: Seq<char>, c: char) -> Seq<char>
    decreases s.len(),
{
    if s.len() == 0 {
        s
    } else if s.last() == c {
        Seq::empty()
    } else {
        after_last(s.drop_last(), c).push(s.last())
    }
}

/// What precedes the first `c` in `s`, or all of `s` where `c` does not occur
/// (the first item of `str::split(c)`).
pub open spec fn before_first(s: Seq<char>, c: char) -> Seq<char>
    decreases s.len(),
{
    if s.len() == 0 {
        s
    } else if s[0] == c {
        Seq::empty()
    } else {
        seq![s[0]] + before_first(s.drop_first(), c)
    }
}

/// `p` occurs in `s` starting at index `i`.
pub open spec fn occurs_at(s: Seq<char>, p: Seq<char>, i: int) -> bool {
    0 <= i && i + p.len() <= s.len() && s.subrange(i, i + p.len()) == p
}

/// `p` occurs somewhere in `s`.
pub open spec fn contains(s: Seq<char>, p: Seq<char>) -> bool {
    exists|i: int| occurs_at(s, p, i)
}

/// `s` begins with `p`.
pub open spec fn starts_with(s: Seq<char>, p: Seq<char>) -> bool {
    occurs_at(s, p, 0)
}

/// Every occurrence of the non-empty pattern `p` in `s`, taken from the left
/// without overlap, replaced by `r` (`str::replace`).
pub open spec fn replace_all(s: Seq<char>, p: Seq<char>, r: Seq<char>) -> Seq<char>
    decreases s.len(),
{
    if s.len() == 0 {
        s
    } else if p.len() > 0 && occurs_at(s, p, 0) {
        r + replace_all(s.skip(p.len() as int), p, r)
    } else {
        seq![s[0]] + replace_all(s.drop_first(), p, r)
    }
}

/// The characters at which the sources cut a text into words.
pub enum Separator {
    /// White space or a comma.
    WhitespaceOrComma,
    /// A space or a comma.
    SpaceOrComma,
    /// Anything but an ASCII digit or a dot.
    NotNumeral,
}

pub open spec fn is_separator(k: Separator, c: char) -> bool {
    match k {
        Separator::WhitespaceOrComma => is_whitespace(c) || c == ',',
        Separator::SpaceOrComma => c == ' ' || c == ',',
        Separator::NotNumeral => !(is_digit(c) || c == '.'),
    }
}

/// The words of `s` read from the left, with `cur` the word being read and
/// `acc` the words already finished.
pub open spec fn words_from(
    s: Seq<char>,
    cur: Seq<char>,
    acc: Seq<Seq<char>>,
    k: Separator,
) -> Seq<Seq<char>>
    decreases s.len(),
{
    if s.len() == 0 {
        if cur.len() > 0 {
            acc.push(cur)
        } else {
            acc
        }
    } else if is_separator(k, s[0]) {
        words_from(s.drop_first(), Seq::empty(), if cur.len() > 0 { acc.push(cur) } else { acc }, k)
    } else {
        words_from(s.drop_first(), cur.push(s[0]), acc, k)
    }
}

/// The non-empty pieces of `s` between separators, in order
/// (`str::split` by a predicate, empty pieces dropped).
pub open spec fn words(s: Seq<char>, k: Separator) -> Seq<Seq<char>> {
    words_from(s, Seq::empty(), Seq::empty(), k)
}

/// A text that `f32::from_str` accepts among those made of digits and dots:
/// digits with at most one dot and at least one digit.
pub open spec fn is_decimal_numeral(t: Seq<char>) -> bool {
    &&& forall|i: int| 0 <= i < t.len() ==> is_digit(#[trigger] t[i]) || t[i] == '.'
    &&& forall|i: int, j: int|
        0 <= i < t.len() && 0 <= j < t.len() && t[i] == '.' && t[j] == '.' ==> i == j
    &&& exists|i: int| 0 <= i < t.len() && is_digit(#[trigger] t[i])
}

/// The digit character of `d`, for `0 <= d < 10`.
pub open spec fn digit_char(d: int) -> char {
    (d + 48) as char
}

/// The decimal writing of a natural number, without leading zeros.
pub open spec fn nat_decimal(n: nat) -> Seq<char>
    decreases n,
{
    if n < 10 {
        seq![digit_char(n as int)]
    } else {
        nat_decimal(n / 10).push(digit_char((n % 10) as int))
    }
}

/// The decimal writing of an integer, as `Display` writes it.
pub open spec fn int_decimal(n: int) -> Seq<char> {
    if n < 0 {
        seq!['-'] + nat_decimal((-n) as nat)
    } else {
        nat_decimal(n as nat)
    }
}

/// Lowercase text as `str::to_lowercase` gives it (Unicode lowercase mapping).
pub uninterp spec fn lowercase(s: Seq<char>) -> Seq<char>;

// ---------------------------------------------------------------------------
// Facts about the specifications
// ---------------------------------------------------------------------------

/// What follows the last `c` holds no `c`.
pub proof fn lemma_after_last_free(s: Seq<char>, c: char)
    ensures
        !after_last(s, c).contains(c),
    decreases s.len(),
{
    if s.len() > 0 && s.last() != c {
        lemma_after_last_free(s.drop_last(), c);
        let r = after_last(s.drop_last(), c);
        assert forall|i: int| 0 <= i < r.push(s.last()).len() implies r.push(s.last())[i] != c by {
            if i < r.len() {
                assert(r.push(s.last())[i] == r[i]);
            }
        }
    }
}

/// After a text ending in `c`, a piece without `c` is what follows the last `c`.
pub proof fn lemma_after_last_concat(a: Seq<char>, b: Seq<char>, c: char)
    requires
        a.len() > 0,
        a.last() == c,
        !b.contains(c),
    ensures
        after_last(a + b, c) == b,
    decreases b.len(),
{
    if b.len() == 0 {
        assert(a + b == a);
    } else {
        assert((a + b).last() == b.last());
        assert((a + b).drop_last() == a + b.drop_last());
        assert(!b.drop_last().contains(c)) by {
            assert forall|i: int| 0 <= i < b.drop_last().len() implies b.drop_last()[i] != c by {
                assert(b.drop_last()[i] == b[i]);
            }
        }
        lemma_after_last_concat(a, b.drop_last(), c);
        assert(b.drop_last().push(b.last()) == b);
    }
}

/// `p` occurs in `a + p + b`.
pub proof fn lemma_contains_middle(a: Seq<char>, p: Seq<char>, b: Seq<char>)
    ensures
        contains(a + p + b, p),
{
    assert((a + p + b).subrange(a.len() as int, (a.len() + p.len()) as int) == p);
    assert(occurs_at(a + p + b, p, a.len() as int));
}

/// Where `c` does not occur, all of `s` precedes the first `c`.
pub proof fn lemma_before_first_free(s: Seq<char>, c: char)
    requires
        !s.contains(c),
    ensures
        before_first(s, c) == s,
    decreases s.len(),
{
    if s.len() > 0 {
        assert(!s.drop_first().contains(c)) by {
            assert forall|i: int| 0 <= i < s.drop_first().len() implies s.drop_first()[i] != c by {
                assert(s.drop_first()[i] == s[i + 1]);
            }
        }
        lemma_before_first_free(s.drop_first(), c);
        assert(seq![s[0]] + s.drop_first() == s);
    }
}

/// Where `a` holds no `c` and `b` begins with `c`, `a` precedes the first
/// `c` of `a + b`.
pub proof fn lemma_before_first_concat(a: Seq<char>, b: Seq<char>, c: char)
    requires
        !a.contains(c),
        b.len() > 0,
        b[0] == c,
    ensures
        before_first(a + b, c) == a,
    decreases a.len(),
{
    if a.len() == 0 {
        assert(a + b == b);
    } else {
        assert((a + b)[0] == a[0]);
        assert((a + b).drop_first() == a.drop_first() + b);
        assert(!a.drop_first().contains(c)) by {
            assert forall|i: int| 0 <= i < a.drop_first().len() implies a.drop_first()[i] != c by {
                assert(a.drop_first()[i] == a[i + 1]);
            }
        }
        lemma_before_first_concat(a.drop_first(), b, c);
        assert(seq![a[0]] + a.drop_first() == a);
    }
}

/// One `c` put after a text that does not end in `c` is all that is trimmed.
pub proof fn lemma_trim_end_char_one(a: Seq<char>, c: char)
    requires
        a.len() > 0,
        a.last() != c,
    ensures
        trim_end_char(a.push(c), c) == a,
{
    assert(a.push(c).drop_last() == a);
    assert(trim_end_char(a, c) == a);
}

/// `c` occurs in neither `a` nor `b`, so not in `a + b`.
pub proof fn lemma_concat_free(a: Seq<char>, b: Seq<char>, c: char)
    requires
        !a.contains(c),
        !b.contains(c),
    ensures
        !(a + b).contains(c),
{
    assert forall|i: int| 0 <= i < (a + b).len() implies (a + b)[i] != c by {
        if i < a.len() {
            assert((a + b)[i] == a[i]);
        } else {
            assert((a + b)[i] == b[i - a.len()]);
        }
    }
}

/// Reading words up to and including a separator, then reading on, is
/// reading the whole text.
pub proof fn lemma_words_from_split(
    s: Seq<char>,
    t: Seq<char>,
    cur: Seq<char>,
    acc: Seq<Seq<char>>,
    k: Separator,
)
    requires
        s.len() > 0,
        is_separator(k, s.last()),
    ensures
        words_from(s + t, cur, acc, k) == words_from(t, Seq::empty(), words_from(s, cur, acc, k), k),
    decreases s.len(),
{
    assert((s + t)[0] == s[0]);
    assert((s + t).drop_first() == s.drop_first() + t);
    let cur2 = if is_separator(k, s[0]) { Seq::<char>::empty() } else { cur.push(s[0]) };
    let acc2 = if is_separator(k, s[0]) {
        if cur.len() > 0 { acc.push(cur) } else { acc }
    } else {
        acc
    };
    assert(words_from(s + t, cur, acc, k) == words_from(s.drop_first() + t, cur2, acc2, k));
    assert(words_from(s, cur, acc, k) == words_from(s.drop_first(), cur2, acc2, k));
    if s.len() == 1 {
        assert(s.drop_first() + t == t);
        assert(is_separator(k, s[0]));
        assert(s.drop_first().len() == 0);
        assert(words_from(s.drop_first(), cur2, acc2, k) == acc2);
    } else {
        assert(s.drop_first().last() == s.last());
        lemma_words_from_split(s.drop_first(), t, cur2, acc2, k);
    }
}

/// A text without separators, read after the word begun so far, ends that
/// word.
pub proof fn lemma_words_from_word(t: Seq<char>, cur: Seq<char>, acc: Seq<Seq<char>>, k: Separator)
    requires
        forall|i: int| 0 <= i < t.len() ==> !is_separator(k, #[trigger] t[i]),
        (cur + t).len() > 0,
    ensures
        words_from(t, cur, acc, k) == acc.push(cur + t),
    decreases t.len(),
{
    if t.len() == 0 {
        assert(cur + t == cur);
    } else {
        assert(!is_separator(k, t[0]));
        assert forall|i: int| 0 <= i < t.drop_first().len() implies !is_separator(k, #[trigger] t.drop_first()[i]) by {
            assert(t.drop_first()[i] == t[i + 1]);
        }
        lemma_words_from_word(t.drop_first(), cur.push(t[0]), acc, k);
        assert(cur.push(t[0]) + t.drop_first() == cur + t);
    }
}

proof fn lemma_trim_start_shape(s: Seq<char>)
    ensures
        trim_start(s).len() == 0 || !is_whitespace(trim_start(s)[0]),
        exists|a: int| 0 <= a <= s.len() && trim_start(s) == s.skip(a),
    decreases s.len(),
{
    if s.len() > 0 && is_whitespace(s[0]) {
        lemma_trim_start_shape(s.drop_first());
        let a = choose|a: int| 0 <= a <= s.drop_first().len() && trim_start(s.drop_first()) == s.drop_first().skip(a);
        assert(s.drop_first().skip(a) == s.skip(a + 1));
    } else {
        assert(s.skip(0) == s);
    }
}

proof fn lemma_trim_end_shape(s: Seq<char>)
    ensures
        trim_end(s).len() == 0 || !is_whitespace(trim_end(s).last()),
        exists|b: int| 0 <= b <= s.len() && trim_end(s) == s.take(b),
    decreases s.len(),
{
    if s.len() > 0 && is_whitespace(s.last()) {
        lemma_trim_end_shape(s.drop_last());
        let b = choose|b: int| 0 <= b <= s.drop_last().len() && trim_end(s.drop_last()) == s.drop_last().take(b);
        assert(s.drop_last().take(b) == s.take(b));
    } else {
        assert(s.take(s.len() as int) == s);
    }
}

/// Trimming a trimmed text changes nothing.
pub proof fn lemma_trim_idempotent(s: Seq<char>)
    ensures
        trim(trim(s)) == trim(s),
{
    let u = trim_start(s);
    let r = trim_end(u);
    lemma_trim_start_shape(s);
    lemma_trim_end_shape(u);
    let b = choose|b: int| 0 <= b <= u.len() && r == u.take(b);
    if r.len() > 0 {
        assert(r[0] == u[0]);
        assert(!is_whitespace(r[0]));
        assert(trim_start(r) == r);
        assert(!is_whitespace(r.last()));
        assert(trim_end(r) == r);
    } else {
        assert(trim_start(r) == r);
        assert(trim_end(r) == r);
    }
}

/// The value of a digit character.
pub open spec fn digit_value(c: char) -> int {
    c as int - '0' as int
}

/// The value of a text of decimal digits.
pub open spec fn decimal_value(s: Seq<char>) -> int
    decreases s.len(),
{
    if s.len() == 0 {
        0
    } else {
        decimal_value(s.drop_last()) * 10 + digit_value(s.last())
    }
}

/// Law: the decimal writing of `n` is made of digits, reads back as `n`, and
/// has no leading zero.
pub proof fn law_nat_decimal(n: nat)
    ensures
        nat_decimal(n).len() > 0,
        forall|i: int| 0 <= i < nat_decimal(n).len() ==> is_digit(#[trigger] nat_decimal(n)[i]),
        decimal_value(nat_decimal(n)) == n,
        nat_decimal(n).len() > 1 ==> nat_decimal(n)[0] != '0',
    decreases n,
{
    let d = (n % 10) as int;
    assert(digit_char(d) as int == d + 48);
    if n >= 10 {
        law_nat_decimal(n / 10);
        let prev = nat_decimal(n / 10);
        let r = prev.push(digit_char(d));
        assert(r.drop_last() == prev);
        assert(r.last() == digit_char(d));
        assert(digit_value(digit_char(d)) == d);
        assert(decimal_value(r) == decimal_value(prev) * 10 + d);
        assert((n / 10) * 10 + n % 10 == n);
        assert forall|i: int| 0 <= i < r.len() implies is_digit(#[trigger] r[i]) by {
            if i < prev.len() {
                assert(r[i] == prev[i]);
            }
        }
        assert(r[0] == prev[0]);
        let m = (n / 10) as int;
        if m < 10 {
            assert(prev == seq![digit_char(m)]);
            assert(digit_char(m) as int == m + 48);
        } else {
            law_nat_decimal((n / 100) as nat);
            assert((m / 10) as nat == (n / 100) as nat);
            assert(prev.len() > 1);
        }
    } else {
        assert(seq![digit_char(d)].drop_last() =~= Seq::<char>::empty());
        assert(digit_value(digit_char(d)) == d);
        assert(decimal_value(seq![digit_char(d)]) == decimal_value(Seq::<char>::empty()) * 10 + d);
    }
}

// ---------------------------------------------------------------------------
// Trusted conversions of std
// ---------------------------------------------------------------------------

/// Calls `String::from_iter` on the characters of `v`; the result holds
/// exactly those characters in order.
#[verifier::external_body]
pub(crate) fn string_of(v: &Vec<char>) -> (r: String)
    ensures
        r@ == v@,
{
    String::from_iter(v.iter())
}

/// Calls `str::to_lowercase`; its result is named `lowercase`.
#[verifier::external_body]
fn str_to_lowercase(s: &str) -> (r: String)
    ensures
        r@ == lowercase(s@),
{
    s.to_lowercase()
}

// ---------------------------------------------------------------------------
// Implementations
// ---------------------------------------------------------------------------

/// The characters of `s`, in order.
pub fn chars_of(s: &str) -> (r: Vec<char>)
    ensures
        r@ == s@,
{
    let mut r: Vec<char> = Vec::new();
    for c in it: s.chars()
        invariant
            r@ == it.seq().take(it.index() as int),
            it.seq() == s@,
    {
        r.push(c);
    }
    r
}

/// Appends the characters of `s` to `out`.
pub fn push_str(out: &mut Vec<char>, s: &str)
    ensures
        final(out)@ == old(out)@ + s@,
{
    let ghost start = out@;
    for c in it: s.chars()
        invariant
            out@ == start + it.seq().take(it.index() as int),
            it.seq() == s@,
    {
        out.push(c);
        proof {
            assert(it.seq().take(it.index() + 1) == it.seq().take(it.index() as int).push(c));
        }
    }
    proof {
        assert(s@.take(s@.len() as int) == s@);
    }
}

/// Appends the characters of `v` to `out`.
pub fn push_all(out: &mut Vec<char>, v: &Vec<char>)
    ensures
        final(out)@ == old(out)@ + v@,
{
    let ghost start = out@;
    let mut i: usize = 0;
    while i < v.len()
        invariant
            i <= v.len(),
            out@ == start + v@.take(i as int),
        decreases v.len() - i,
    {
        out.push(v[i]);
        i = i + 1;
        proof {
            assert(v@.take(i as int) == v@.take(i - 1).push(v@[i - 1]));
        }
    }
    proof {
        assert(v@.take(v@.len() as int) == v@);
    }
}

/// The lowercase form of `v`.
pub fn lowercase_chars(v: &Vec<char>) -> (r: Vec<char>)
    ensures
        r@ == lowercase(v@),
{
    let s = string_of(v);
    let l = str_to_lowercase(s.as_str());
    chars_of(l.as_str())
}

/// The characters of `v` from `lo` up to `hi`.
pub fn slice_of(v: &Vec<char>, lo: usize, hi: usize) -> (r: Vec<char>)
    requires
        lo <= hi <= v.len(),
    ensures
        r@ == v@.subrange(lo as int, hi as int),
{
    let mut r: Vec<char> = Vec::new();
    let mut i: usize = lo;
    while i < hi
        invariant
            lo <= i <= hi <= v.len(),
            r@ == v@.subrange(lo as int, i as int),
        decreases hi - i,
    {
        r.push(v[i]);
        i = i + 1;
        proof {
            assert(v@.subrange(lo as int, i as int) == v@.subrange(lo as int, i - 1).push(v@[i - 1]));
        }
    }
    r
}

/// `char::is_whitespace`.
pub fn is_whitespace_char(c: char) -> (b: bool)
    ensures
        b == is_whitespace(c),
{
    ('\u{9}' <= c && c <= '\u{D}') || c == ' ' || c == '\u{85}' || c == '\u{A0}' || c == '\u{1680}'
        || ('\u{2000}' <= c && c <= '\u{200A}') || c == '\u{2028}' || c == '\u{2029}' || c == '\u{202F}'
        || c == '\u{205F}' || c == '\u{3000}'
}

/// `char::is_ascii_digit`.
pub fn is_digit_char(c: char) -> (b: bool)
    ensures
        b == is_digit(c),
{
    '0' <= c && c <= '9'
}

proof fn lemma_trim_start_skip(s: Seq<char>, i: int)
    requires
        0 <= i < s.len(),
        is_whitespace(s[i]),
    ensures
        trim_start(s.skip(i)) == trim_start(s.skip(i + 1)),
{
    assert(s.skip(i).drop_first() == s.skip(i + 1));
}

proof fn lemma_trim_end_sub(s: Seq<char>, lo: int, hi: int)
    requires
        0 <= lo < hi <= s.len(),
        is_whitespace(s[hi - 1]),
    ensures
        trim_end(s.subrange(lo, hi)) == trim_end(s.subrange(lo, hi - 1)),
{
    assert(s.subrange(lo, hi).drop_last() == s.subrange(lo, hi - 1));
}

/// `s` without white space at either end.
pub fn trim_chars(s: &Vec<char>) -> (r: Vec<char>)
    ensures
        r@ == trim(s@),
{
    let n = s.len();
    let mut i: usize = 0;
    proof {
        assert(s@.skip(0) == s@);
    }
    while i < n && is_whitespace_char(s[i])
        invariant
            i <= n == s.len(),
            trim_start(s@.skip(i as int)) == trim_start(s@),
        decreases n - i,
    {
        proof {
            lemma_trim_start_skip(s@, i as int);
        }
        i = i + 1;
    }
    proof {
        assert(s@.skip(0) == s@);
        assert(trim_start(s@) == s@.subrange(i as int, n as int));
    }
    let mut j: usize = n;
    while j > i && is_whitespace_char(s[j - 1])
        invariant
            i <= j <= n == s.len(),
            trim_start(s@) == s@.subrange(i as int, n as int),
            trim_end(s@.subrange(i as int, j as int)) == trim(s@),
        decreases j,
    {
        proof {
            lemma_trim_end_sub(s@, i as int, j as int);
        }
        j = j - 1;
    }
    slice_of(s, i, j)
}

proof fn lemma_trim_end_char_sub(s: Seq<char>, c: char, j: int)
    requires
        0 < j <= s.len(),
        s[j - 1] == c,
    ensures
        trim_end_char(s.take(j), c) == trim_end_char(s.take(j - 1), c),
{
    assert(s.take(j).drop_last() == s.take(j - 1));
}

/// `s` without the copies of `c` at its end.
pub fn trim_end_char_chars(s: &Vec<char>, c: char) -> (r: Vec<char>)
    ensures
        r@ == trim_end_char(s@, c),
{
    let mut j: usize = s.len();
    proof {
        assert(s@.take(j as int) == s@);
    }
    while j > 0 && s[j - 1] == c
        invariant
            j <= s.len(),
            trim_end_char(s@.take(j as int), c) == trim_end_char(s@, c),
        decreases j,
    {
        proof {
            lemma_trim_end_char_sub(s@, c, j as int);
        }
        j = j - 1;
    }
    slice_of(s, 0, j)
}

proof fn lemma_after_last_step(s: Seq<char>, c: char, j: int)
    requires
        0 < j <= s.len(),
        s[j - 1] != c,
    ensures
        after_last(s.take(j), c) == after_last(s.take(j - 1), c).push(s[j - 1]),
{
    assert(s.take(j).drop_last() == s.take(j - 1));
}

/// What follows the last `c` in `s`, or all of `s`.
pub fn after_last_chars(s: &Vec<char>, c: char) -> (r: Vec<char>)
    ensures
        r@ == after_last(s@, c),
{
    let n = s.len();
    let mut j: usize = n;
    proof {
        assert(s@.take(n as int) == s@);
        assert(s@.subrange(n as int, n as int) == Seq::<char>::empty());
    }
    while j > 0 && s[j - 1] != c
        invariant
            j <= n == s.len(),
            after_last(s@, c) == after_last(s@.take(j as int), c) + s@.subrange(j as int, n as int),
        decreases j,
    {
        proof {
            lemma_after_last_step(s@, c, j as int);
            assert(s@.subrange(j - 1, n as int) == seq![s@[j - 1]] + s@.subrange(j as int, n as int));
            assert(after_last(s@.take(j - 1), c).push(s@[j - 1]) + s@.subrange(j as int, n as int)
                == after_last(s@.take(j - 1), c) + s@.subrange(j - 1, n as int));
        }
        j = j - 1;
    }
    proof {
        if j == 0 {
            assert(s@.take(0) == Seq::<char>::empty());
        } else {
            assert(s@.take(j as int).last() == c);
        }
        assert(after_last(s@.take(j as int), c) == Seq::<char>::empty());
        assert(Seq::<char>::empty() + s@.subrange(j as int, n as int) == s@.subrange(j as int, n as int));
    }
    slice_of(s, j, n)
}

proof fn lemma_before_first_step(s: Seq<char>, c: char, i: int)
    requires
        0 <= i < s.len(),
        s[i] != c,
    ensures
        before_first(s.skip(i), c) == seq![s[i]] + before_first(s.skip(i + 1), c),
{
    assert(s.skip(i).drop_first() == s.skip(i + 1));
}

/// What precedes the first `c` in `s`, or all of `s`.
pub fn before_first_chars(s: &Vec<char>, c: char) -> (r: Vec<char>)
    ensures
        r@ == before_first(s@, c),
{
    let n = s.len();
    let mut i: usize = 0;
    proof {
        assert(s@.skip(0) == s@);
        assert(s@.take(0) + s@ == s@);
    }
    while i < n && s[i] != c
        invariant
            i <= n == s.len(),
            before_first(s@, c) == s@.take(i as int) + before_first(s@.skip(i as int), c),
        decreases n - i,
    {
        proof {
            lemma_before_first_step(s@, c, i as int);
            assert(s@.take(i + 1) == s@.take(i as int) + seq![s@[i as int]]);
        }
        i = i + 1;
    }
    proof {
        assert(before_first(s@.skip(i as int), c) == Seq::<char>::empty());
        assert(s@.take(i as int) + Seq::<char>::empty() == s@.take(i as int));
    }
    slice_of(s, 0, i)
}

/// Whether `a` and `b` are the same text.
pub fn equal_chars(a: &Vec<char>, b: &Vec<char>) -> (r: bool)
    ensures
        r == (a@ == b@),
{
    if a.len() != b.len() {
        return false;
    }
    let mut i: usize = 0;
    while i < a.len()
        invariant
            i <= a@.len() == b@.len(),
            forall|k: int| 0 <= k < i ==> a@[k] == b@[k],
        decreases a.len() - i,
    {
        if a[i] != b[i] {
            return false;
        }
        i = i + 1;
    }
    proof {
        assert(a@ =~= b@);
    }
    true
}

/// Whether `a` is the text `b`.
pub fn equal_str(a: &Vec<char>, b: &str) -> (r: bool)
    ensures
        r == (a@ == b@),
{
    let bv = chars_of(b);
    equal_chars(a, &bv)
}

/// Whether `p` occurs in `s` at index `i`.
pub fn occurs_at_chars(s: &Vec<char>, p: &Vec<char>, i: usize) -> (b: bool)
    ensures
        b == occurs_at(s@, p@, i as int),
{
    if i > s.len() || p.len() > s.len() - i {
        return false;
    }
    let mut k: usize = 0;
    while k < p.len()
        invariant
            i + p.len() <= s.len(),
            k <= p.len(),
            forall|m: int| 0 <= m < k ==> s@[i + m] == p@[m],
        decreases p.len() - k,
    {
        if s[i + k] != p[k] {
            proof {
                assert(s@.subrange(i as int, i + p.len())[k as int] != p@[k as int]);
            }
            return false;
        }
        k = k + 1;
    }
    proof {
        assert(s@.subrange(i as int, i + p.len()) == p@);
    }
    true
}

/// Whether `p` occurs in `s`.
pub fn contains_chars(s: &Vec<char>, p: &Vec<char>) -> (b: bool)
    ensures
        b == contains(s@, p@),
{
    if p.len() > s.len() {
        proof {
            assert forall|i: int| !occurs_at(s@, p@, i) by {}
        }
        return false;
    }
    let last = s.len() - p.len();
    let mut i: usize = 0;
    while i < last
        invariant
            last == s.len() - p.len(),
            i <= last,
            forall|m: int| 0 <= m < i ==> !occurs_at(s@, p@, m),
        decreases last - i,
    {
        if occurs_at_chars(s, p, i) {
            return true;
        }
        i = i + 1;
    }
    if occurs_at_chars(s, p, last) {
        return true;
    }
    proof {
        assert forall|m: int| !occurs_at(s@, p@, m) by {
            if 0 <= m < i {
            }
        }
    }
    false
}

/// Whether the text `p` occurs in `s`.
pub fn contains_str(s: &Vec<char>, p: &str) -> (b: bool)
    ensures
        b == contains(s@, p@),
{
    let pv = chars_of(p);
    contains_chars(s, &pv)
}

/// Whether `s` begins with the text `p`.
pub fn starts_with_str(s: &Vec<char>, p: &str) -> (b: bool)
    ensures
        b == starts_with(s@, p@),
{
    let pv = chars_of(p);
    occurs_at_chars(s, &pv, 0)
}

proof fn lemma_replace_match(s: Seq<char>, p: Seq<char>, r: Seq<char>, i: int)
    requires
        0 <= i < s.len(),
        p.len() > 0,
        occurs_at(s, p, i),
    ensures
        replace_all(s.skip(i), p, r) == r + replace_all(s.skip(i + p.len()), p, r),
{
    assert(s.skip(i).subrange(0, p.len() as int) == s.subrange(i, i + p.len()));
    assert(s.skip(i).skip(p.len() as int) == s.skip(i + p.len()));
}

proof fn lemma_replace_no_match(s: Seq<char>, p: Seq<char>, r: Seq<char>, i: int)
    requires
        0 <= i < s.len(),
        !occurs_at(s, p, i),
    ensures
        replace_all(s.skip(i), p, r) == seq![s[i]] + replace_all(s.skip(i + 1), p, r),
{
    if p.len() > 0 && occurs_at(s.skip(i), p, 0) {
        assert(s.skip(i).subrange(0, p.len() as int) == s.subrange(i, i + p.len()));
    }
    assert(s.skip(i).drop_first() == s.skip(i + 1));
}

/// `s` with every occurrence of `p` replaced by `r`, from the left.
pub fn replace_chars(s: &Vec<char>, p: &Vec<char>, r: &Vec<char>) -> (out: Vec<char>)
    requires
        p.len() > 0,
    ensures
        out@ == replace_all(s@, p@, r@),
{
    let n = s.len();
    let mut out: Vec<char> = Vec::new();
    let mut i: usize = 0;
    proof {
        assert(s@.skip(0) == s@);
    }
    while i < n
        invariant
            i <= n == s.len(),
            p.len() > 0,
            out@ + replace_all(s@.skip(i as int), p@, r@) == replace_all(s@, p@, r@),
        decreases n - i,
    {
        if occurs_at_chars(s, p, i) {
            proof {
                lemma_replace_match(s@, p@, r@, i as int);
                assert(out@ + (r@ + replace_all(s@.skip(i + p.len()), p@, r@))
                    == (out@ + r@) + replace_all(s@.skip(i + p.len()), p@, r@));
            }
            push_all(&mut out, r);
            i = i + p.len();
        } else {
            proof {
                lemma_replace_no_match(s@, p@, r@, i as int);
                assert(out@ + (seq![s@[i as int]] + replace_all(s@.skip(i + 1), p@, r@))
                    == out@.push(s@[i as int]) + replace_all(s@.skip(i + 1), p@, r@));
            }
            out.push(s[i]);
            i = i + 1;
        }
    }
    proof {
        assert(s@.skip(n as int) == Seq::<char>::empty());
        assert(out@ + Seq::<char>::empty() == out@);
    }
    out
}

/// `s` with every occurrence of the text `p` replaced by the text `r`.
pub fn replace_str(s: &Vec<char>, p: &str, r: &str) -> (out: Vec<char>)
    requires
        p@.len() > 0,
    ensures
        out@ == replace_all(s@, p@, r@),
{
    let pv = chars_of(p);
    let rv = chars_of(r);
    replace_chars(s, &pv, &rv)
}

/// Whether `c` separates words for `k`.
pub fn separates(k: &Separator, c: char) -> (b: bool)
    ensures
        b == is_separator(*k, c),
{
    match k {
        Separator::WhitespaceOrComma => is_whitespace_char(c) || c == ',',
        Separator::SpaceOrComma => c == ' ' || c == ',',
        Separator::NotNumeral => !(is_digit_char(c) || c == '.'),
    }
}

/// The views of a vector of character vectors.
pub open spec fn views(ws: Seq<Vec<char>>) -> Seq<Seq<char>> {
    ws.map_values(|w: Vec<char>| w@)
}

proof fn lemma_views_push(ws: Seq<Vec<char>>, w: Vec<char>)
    ensures
        views(ws.push(w)) == views(ws).push(w@),
{
    assert(views(ws.push(w)) =~= views(ws).push(w@));
}

/// The non-empty pieces of `s` between separators of kind `k`.
pub fn words_of(s: &Vec<char>, k: Separator) -> (r: Vec<Vec<char>>)
    ensures
        views(r@) == words(s@, k),
{
    let n = s.len();
    let mut acc: Vec<Vec<char>> = Vec::new();
    let mut cur: Vec<char> = Vec::new();
    proof {
        assert(s@.skip(0) == s@);
        assert(views(acc@) =~= Seq::<Seq<char>>::empty());
    }
    let mut i: usize = 0;
    while i < n
        invariant
            i <= n == s.len(),
            words_from(s@.skip(i as int), cur@, views(acc@), k) == words(s@, k),
        decreases n - i,
    {
        let c = s[i];
        proof {
            assert(s@.skip(i as int).drop_first() == s@.skip(i + 1));
            assert(s@.skip(i as int)[0] == c);
        }
        if separates(&k, c) {
            if cur.len() > 0 {
                proof {
                    lemma_views_push(acc@, cur);
                }
                acc.push(cur);
            }
            cur = Vec::new();
        } else {
            cur.push(c);
        }
        i = i + 1;
    }
    proof {
        assert(s@.skip(n as int).len() == 0);
    }
    if cur.len() > 0 {
        proof {
            lemma_views_push(acc@, cur);
        }
        acc.push(cur);
    }
    acc
}

/// Whether `t` is a decimal numeral that `f32::from_str` accepts.
pub fn is_decimal_numeral_chars(t: &Vec<char>) -> (b: bool)
    ensures
        b == is_decimal_numeral(t@),
{
    let n = t.len();
    let mut dot: Option<usize> = None;
    let mut digit: Option<usize> = None;
    let mut i: usize = 0;
    while i < n
        invariant
            i <= n == t.len(),
            forall|m: int| 0 <= m < i ==> is_digit(#[trigger] t@[m]) || t@[m] == '.',
            match dot {
                Some(d) => d < i && t@[d as int] == '.' && forall|m: int|
                    0 <= m < i && t@[m] == '.' ==> m == d,
                None => forall|m: int| 0 <= m < i ==> t@[m] != '.',
            },
            match digit {
                Some(d) => d < i && is_digit(t@[d as int]),
                None => forall|m: int| 0 <= m < i ==> !is_digit(#[trigger] t@[m]),
            },
        decreases n - i,
    {
        let c = t[i];
        if is_digit_char(c) {
            digit = Some(i);
        } else if c == '.' {
            if dot.is_some() {
                proof {
                    let d = dot.unwrap();
                    assert(t@[d as int] == '.' && t@[i as int] == '.' && d != i);
                }
                return false;
            }
            dot = Some(i);
        } else {
            proof {
                assert(!(is_digit(t@[i as int]) || t@[i as int] == '.'));
            }
            return false;
        }
        i = i + 1;
    }
    match digit {
        Some(d) => {
            proof {
                assert(is_digit(t@[d as int]));
            }
            true
        },
        None => false,
    }
}

/// The digit character of `d`.
pub fn digit_of(d: u64) -> (c: char)
    requires
        d < 10,
    ensures
        c == digit_char(d as int),
{
    let b: u8 = (d as u8) + 48;
    b as char
}

/// Appends the decimal writing of `n` to `out`.
pub fn push_nat_decimal(out: &mut Vec<char>, n: u64)
    ensures
        final(out)@ == old(out)@ + nat_decimal(n as nat),
    decreases n,
{
    if n >= 10 {
        push_nat_decimal(out, n / 10);
    }
    let c = digit_of(n % 10);
    out.push(c);
}

/// Appends the decimal writing of `n` to `out`, as `Display` writes it.
pub fn push_int_decimal(out: &mut Vec<char>, n: i32)
    ensures
        final(out)@ == old(out)@ + int_decimal(n as int),
{
    if n < 0 {
        out.push('-');
        let m: i64 = -(n as i64);
        push_nat_decimal(out, m as u64);
    } else {
        push_nat_decimal(out, n as u64);
    }
}

} // verus!
