//! Pieces shared by the sources: optional texts, slugs taken from URLs,
//! chapter-number tokens and filtering maps over sequences.
use vstd::prelude::*;
use crate::model::text_of;
use crate::text::{
    is_digit, is_separator, lemma_words_from_split, lemma_words_from_word, words_from,
    contains, lemma_after_last_concat, lemma_concat_free, lemma_contains_middle, lemma_trim_end_char_one,
    before_first, lemma_before_first_free,
    after_last, after_last_chars, chars_of, is_decimal_numeral, is_decimal_numeral_chars,
    trim_end_char, trim_end_char_chars, views, words, words_of, Separator,
};

verus! {

/// The text of an optional string, empty where there is none
/// (`unwrap_or_default`).
pub open spec fn text_or_empty(o: Option<String>) -> Seq<char> {
    match o {
        Some(s) => s@,
        None => Seq::empty(),
    }
}

/// The first of two optional strings that is present (`Option::or`).
pub open spec fn first_present(a: Option<String>, b: Option<String>) -> Option<Seq<char>> {
    match a {
        Some(s) => Some(s@),
        None => text_of(b),
    }
}

/// The characters of an optional string, none where there is none.
pub fn text_or_empty_of(o: &Option<String>) -> (r: Vec<char>)
    ensures
        r@ == text_or_empty(*o),
{
    match o {
        Some(s) => chars_of(s.as_str()),
        None => Vec::new(),
    }
}

/// A copy of an optional string.
pub fn copy_opt(o: &Option<String>) -> (r: Option<String>)
    ensures
        text_of(r) == text_of(*o),
{
    match o {
        Some(s) => Some(s.clone()),
        None => None,
    }
}

/// The first of two optional strings that is present.
pub fn first_present_of(a: &Option<String>, b: &Option<String>) -> (r: Option<String>)
    ensures
        text_of(r) == first_present(*a, *b),
{
    match a {
        Some(s) => Some(s.clone()),
        None => copy_opt(b),
    }
}

/// The last path segment of a URL, trailing slashes ignored
/// (`url.trim_end_matches('/').rsplit('/').next()`).
pub open spec fn path_slug(u: Seq<char>) -> Seq<char> {
    after_last(trim_end_char(u, '/'), '/')
}

/// The last path segment of a URL, trailing slashes ignored.
pub fn path_slug_of(u: &Vec<char>) -> (r: Vec<char>)
    ensures
        r@ == path_slug(u@),
{
    let t = trim_end_char_chars(u, '/');
    after_last_chars(&t, '/')
}

/// The slug of a manga to update: its key where it has one, else the last
/// segment of its URL, else nothing.
pub open spec fn manga_slug(key: Seq<char>, url: Option<String>) -> Seq<char> {
    if key.len() > 0 {
        key
    } else {
        match url {
            Some(u) => path_slug(u@),
            None => Seq::empty(),
        }
    }
}

/// The slug of a manga to update.
pub fn manga_slug_of(key: &str, url: &Option<String>) -> (r: Vec<char>)
    ensures
        r@ == manga_slug(key@, *url),
{
    let k = chars_of(key);
    if k.len() > 0 {
        k
    } else {
        match url {
            Some(u) => {
                let uv = chars_of(u.as_str());
                path_slug_of(&uv)
            },
            None => Vec::new(),
        }
    }
}

/// The manga page `base/manga/slug/` of a WordPress site.
pub open spec fn wp_manga_url(base: Seq<char>, slug: Seq<char>) -> Seq<char> {
    base + "/manga/"@ + slug + "/"@
}

/// The parts of a manga page `base/manga/slug/` for a slug without `/` or
/// `?` on a site whose address has no `?`: it holds no `?`, names a manga,
/// and its last segment, trailing slash ignored, is the slug.
pub proof fn lemma_wp_manga_url(base: Seq<char>, slug: Seq<char>)
    requires
        !base.contains('?'),
        slug.len() > 0,
        !slug.contains('/'),
        !slug.contains('?'),
    ensures
        !wp_manga_url(base, slug).contains('?'),
        before_first(wp_manga_url(base, slug), '?') == wp_manga_url(base, slug),
        trim_end_char(wp_manga_url(base, slug), '/') == (base + "/manga/"@) + slug,
        after_last((base + "/manga/"@) + slug, '/') == slug,
        path_slug(wp_manga_url(base, slug)) == slug,
        contains(wp_manga_url(base, slug), "/manga/"@),
{
    reveal_strlit("/manga/");
    reveal_strlit("/");
    let pre = base + "/manga/"@;
    assert(!"/manga/"@.contains('?'));
    lemma_concat_free(base, "/manga/"@, '?');
    lemma_concat_free(pre, slug, '?');
    assert(!"/"@.contains('?'));
    lemma_concat_free(pre + slug, "/"@, '?');
    lemma_before_first_free(wp_manga_url(base, slug), '?');
    assert(wp_manga_url(base, slug) == (pre + slug).push('/'));
    assert((pre + slug).last() == slug.last());
    lemma_trim_end_char_one(pre + slug, '/');
    assert(pre.last() == '/');
    lemma_after_last_concat(pre, slug, '/');
    assert(wp_manga_url(base, slug) == base + "/manga/"@ + (slug + "/"@));
    lemma_contains_middle(base, "/manga/"@, slug + "/"@);
}

/// The last word of `ws` that is a decimal numeral.
pub open spec fn last_numeral(ws: Seq<Seq<char>>) -> Option<Seq<char>>
    decreases ws.len(),
{
    if ws.len() == 0 {
        None
    } else if is_decimal_numeral(ws.last()) {
        Some(ws.last())
    } else {
        last_numeral(ws.drop_last())
    }
}

/// The chapter number written in `s`: of the runs of digits and dots in
/// `s`, the last one that reads as a number.
pub open spec fn numeral_token(s: Seq<char>) -> Option<Seq<char>> {
    last_numeral(words(s, Separator::NotNumeral))
}

/// Law: a chapter number at the end of a title is the number read. For a
/// decimal numeral `n` (digits with at most one dot), after a text that is
/// empty or ends in a character other than a digit or a dot (such as
/// "Capítulo "), the number read from the whole is `n`.
pub proof fn law_numeral_token_at_end(p: Seq<char>, n: Seq<char>)
    requires
        is_decimal_numeral(n),
        p.len() == 0 || !(is_digit(p.last()) || p.last() == '.'),
    ensures
        numeral_token(p + n) == Some(n),
{
    let k = Separator::NotNumeral;
    assert forall|i: int| 0 <= i < n.len() implies !is_separator(k, #[trigger] n[i]) by {}
    let e = Seq::<char>::empty();
    assert(e + n == n);
    if p.len() == 0 {
        assert(p + n == n);
        lemma_words_from_word(n, e, Seq::empty(), k);
        assert(words(p + n, k) == Seq::<Seq<char>>::empty().push(n));
    } else {
        lemma_words_from_split(p, n, e, Seq::empty(), k);
        lemma_words_from_word(n, e, words_from(p, e, Seq::empty(), k), k);
    }
    assert(words(p + n, k).last() == n);
}

proof fn lemma_last_numeral_is_numeral(ws: Seq<Seq<char>>)
    ensures
        last_numeral(ws) matches Some(t) ==> is_decimal_numeral(t),
    decreases ws.len(),
{
    if ws.len() > 0 && !is_decimal_numeral(ws.last()) {
        lemma_last_numeral_is_numeral(ws.drop_last());
    }
}

proof fn lemma_last_numeral_step(ws: Seq<Seq<char>>, i: int)
    requires
        0 <= i < ws.len(),
    ensures
        last_numeral(ws.take(i + 1)) == if is_decimal_numeral(ws[i]) {
            Some(ws[i])
        } else {
            last_numeral(ws.take(i))
        },
{
    assert(ws.take(i + 1).drop_last() == ws.take(i));
}

/// The chapter number token of `s`; where there is one, `f32::from_str`
/// reads it.
pub fn numeral_token_of(s: &Vec<char>) -> (r: Option<Vec<char>>)
    ensures
        match r {
            Some(t) => numeral_token(s@) == Some(t@),
            None => numeral_token(s@) is None,
        },
        numeral_token(s@) matches Some(t) ==> is_decimal_numeral(t),
{
    let ws = words_of(s, Separator::NotNumeral);
    let ghost w = views(ws@);
    let mut last: Option<usize> = None;
    let mut i: usize = 0;
    proof {
        assert(w.take(0) == Seq::<Seq<char>>::empty());
    }
    while i < ws.len()
        invariant
            i <= ws@.len() == w.len(),
            w == views(ws@),
            match last {
                Some(k) => k < i && last_numeral(w.take(i as int)) == Some(w[k as int]),
                None => last_numeral(w.take(i as int)) is None,
            },
        decreases ws.len() - i,
    {
        proof {
            lemma_last_numeral_step(w, i as int);
            assert(w[i as int] == ws@[i as int]@);
        }
        if is_decimal_numeral_chars(&ws[i]) {
            last = Some(i);
        }
        i = i + 1;
    }
    proof {
        assert(w.take(w.len() as int) == w);
        lemma_last_numeral_is_numeral(w);
    }
    match last {
        Some(k) => {
            let t = crate::text::slice_of(&ws[k], 0, ws[k].len());
            proof {
                assert(ws@[k as int]@.subrange(0, ws@[k as int]@.len() as int) == ws@[k as int]@);
            }
            Some(t)
        },
        None => None,
    }
}

/// The items that `f` keeps, each mapped, in order.
pub open spec fn filter_map<A, B>(s: Seq<A>, f: spec_fn(A) -> Option<B>) -> Seq<B>
    decreases s.len(),
{
    if s.len() == 0 {
        Seq::empty()
    } else {
        match f(s.last()) {
            Some(b) => filter_map(s.drop_last(), f).push(b),
            None => filter_map(s.drop_last(), f),
        }
    }
}

/// One more item of `s` taken into a filtering map.
pub proof fn lemma_filter_map_step<A, B>(s: Seq<A>, f: spec_fn(A) -> Option<B>, i: int)
    requires
        0 <= i < s.len(),
    ensures
        filter_map(s.take(i + 1), f) == match f(s[i]) {
            Some(b) => filter_map(s.take(i), f).push(b),
            None => filter_map(s.take(i), f),
        },
{
    assert(s.take(i + 1).drop_last() == s.take(i));
}


/// Each item of a filtering map is what `f` makes of some item of `s`, and
/// every item of `s` that `f` keeps is there.
#[verifier::spinoff_prover]
pub proof fn lemma_filter_map_sources<A, B>(s: Seq<A>, f: spec_fn(A) -> Option<B>)
    ensures
        forall|i: int|
            0 <= i < filter_map(s, f).len() ==> exists|j: int|
                0 <= j < s.len() && f(s[j]) == Some(#[trigger] filter_map(s, f)[i]),
        forall|j: int|
            0 <= j < s.len() && (#[trigger] f(s[j])) is Some ==> exists|i: int|
                0 <= i < filter_map(s, f).len() && f(s[j]) == Some(filter_map(s, f)[i]),
    decreases s.len(),
{
    if s.len() > 0 {
        let r = s.drop_last();
        lemma_filter_map_sources(r, f);
        let prev = filter_map(r, f);
        let fm = filter_map(s, f);
        assert forall|i: int| 0 <= i < fm.len() implies exists|j: int|
            0 <= j < s.len() && f(s[j]) == Some(#[trigger] fm[i]) by {
            if i < prev.len() {
                assert(fm[i] == prev[i]);
                let j = choose|j: int| 0 <= j < r.len() && f(r[j]) == Some(prev[i]);
                assert(s[j] == r[j]);
            } else {
                assert(f(s[s.len() - 1]) == Some(fm[i]));
            }
        }
        assert forall|j: int| 0 <= j < s.len() && (#[trigger] f(s[j])) is Some implies exists|i: int|
            0 <= i < fm.len() && f(s[j]) == Some(fm[i]) by {
            if j < r.len() {
                assert(s[j] == r[j]);
                assert(f(r[j]) is Some);
                let i = choose|i: int| 0 <= i < prev.len() && f(r[j]) == Some(prev[i]);
                assert(fm[i] == prev[i]);
            } else {
                assert(fm[prev.len() as int] == f(s[j])->0);
            }
        }
    }
}

} // verus!
