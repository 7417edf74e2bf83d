//! Portuguese dates: the texts that NinjaComics and Tsundoku hand to the
//! date parser for a chapter's release date.
use vstd::prelude::*;
use crate::model::{query_views, text_of, DateFormat, DateQuery};
use crate::text::{
    digit_char,
    chars_of, contains, contains_str, lowercase, lowercase_chars, push_all, push_str,
    replace_all, replace_str, string_of, trim, trim_chars, views, words, words_of, Separator,
};

verus! {

/// The Portuguese name of month `i` (`0` is January).
pub open spec fn month_name(i: int) -> Seq<char> {
    if i == 0 {
        "janeiro"@
    } else if i == 1 {
        "fevereiro"@
    } else if i == 2 {
        "março"@
    } else if i == 3 {
        "abril"@
    } else if i == 4 {
        "maio"@
    } else if i == 5 {
        "junho"@
    } else if i == 6 {
        "julho"@
    } else if i == 7 {
        "agosto"@
    } else if i == 8 {
        "setembro"@
    } else if i == 9 {
        "outubro"@
    } else if i == 10 {
        "novembro"@
    } else {
        "dezembro"@
    }
}

/// The two-digit number of month `i` (`0` is January).
pub open spec fn month_number(i: int) -> Seq<char> {
    if i == 0 {
        "01"@
    } else if i == 1 {
        "02"@
    } else if i == 2 {
        "03"@
    } else if i == 3 {
        "04"@
    } else if i == 4 {
        "05"@
    } else if i == 5 {
        "06"@
    } else if i == 6 {
        "07"@
    } else if i == 7 {
        "08"@
    } else if i == 8 {
        "09"@
    } else if i == 9 {
        "10"@
    } else if i == 10 {
        "11"@
    } else {
        "12"@
    }
}

/// The two-digit decimal writing of `n`, for `0 <= n < 100`.
pub open spec fn two_digits(n: int) -> Seq<char> {
    seq![digit_char(n / 10), digit_char(n % 10)]
}

/// Law: month `i` (January being `0`) is written as the two digits of
/// `i + 1`.
pub proof fn law_month_numbers(i: int)
    requires
        0 <= i < 12,
    ensures
        month_number(i) == two_digits(i + 1),
{
    reveal_strlit("01");
    reveal_strlit("02");
    reveal_strlit("03");
    reveal_strlit("04");
    reveal_strlit("05");
    reveal_strlit("06");
    reveal_strlit("07");
    reveal_strlit("08");
    reveal_strlit("09");
    reveal_strlit("10");
    reveal_strlit("11");
    reveal_strlit("12");
    assert(month_number(i) =~= two_digits(i + 1));
}

/// Law: the months, in calendar order, are named janeiro, fevereiro, março,
/// abril, maio, junho, julho, agosto, setembro, outubro, novembro, dezembro.
pub proof fn law_month_names()
    ensures
        month_name(0) == "janeiro"@ && month_name(1) == "fevereiro"@ && month_name(2) == "março"@,
        month_name(3) == "abril"@ && month_name(4) == "maio"@ && month_name(5) == "junho"@,
        month_name(6) == "julho"@ && month_name(7) == "agosto"@ && month_name(8) == "setembro"@,
        month_name(9) == "outubro"@ && month_name(10) == "novembro"@ && month_name(11) == "dezembro"@,
{
}

/// The name and the number of month `i`.
pub fn month(i: usize) -> (r: (&'static str, &'static str))
    requires
        i < 12,
    ensures
        r.0@ == month_name(i as int),
        r.1@ == month_number(i as int),
        r.1@ == two_digits(i + 1),
        r.0@.len() > 0,
{
    proof {
        law_month_numbers(i as int);
        reveal_strlit("janeiro");
        reveal_strlit("fevereiro");
        reveal_strlit("março");
        reveal_strlit("abril");
        reveal_strlit("maio");
        reveal_strlit("junho");
        reveal_strlit("julho");
        reveal_strlit("agosto");
        reveal_strlit("setembro");
        reveal_strlit("outubro");
        reveal_strlit("novembro");
        reveal_strlit("dezembro");
    }
    if i == 0 {
        ("janeiro", "01")
    } else if i == 1 {
        ("fevereiro", "02")
    } else if i == 2 {
        ("março", "03")
    } else if i == 3 {
        ("abril", "04")
    } else if i == 4 {
        ("maio", "05")
    } else if i == 5 {
        ("junho", "06")
    } else if i == 6 {
        ("julho", "07")
    } else if i == 7 {
        ("agosto", "08")
    } else if i == 8 {
        ("setembro", "09")
    } else if i == 9 {
        ("outubro", "10")
    } else if i == 10 {
        ("novembro", "11")
    } else {
        ("dezembro", "12")
    }
}

/// `year-month-day` from the words `[day, _, year, ..]` and a month number.
pub open spec fn iso_date(parts: Seq<Seq<char>>, num: Seq<char>) -> Seq<char> {
    parts[2] + "-"@ + num + "-"@ + parts[0]
}

/// Builds `year-month-day` from the words `[day, _, year, ..]`.
fn iso_date_of(parts: &Vec<Vec<char>>, num: &str) -> (r: Vec<char>)
    requires
        parts@.len() >= 3,
    ensures
        r@ == iso_date(views(parts@), num@),
{
    let mut r: Vec<char> = Vec::new();
    push_all(&mut r, &parts[2]);
    push_str(&mut r, "-");
    push_str(&mut r, num);
    push_str(&mut r, "-");
    push_all(&mut r, &parts[0]);
    proof {
        assert(views(parts@)[2] == parts@[2]@);
        assert(views(parts@)[0] == parts@[0]@);
    }
    r
}

// ---------------------------------------------------------------------------
// NinjaComics
// ---------------------------------------------------------------------------

/// The trimmed, lowercased text speaks of a relative date ("dias", "semanas",
/// "meses", "anos") or is empty: NinjaComics gives no date for it.
pub open spec fn ninja_relative(t: Seq<char>) -> bool {
    ||| t.len() == 0
    ||| contains(t, "dia"@)
    ||| contains(t, "semana"@)
    ||| contains(t, "mês"@)
    ||| contains(t, "mes"@)
    ||| contains(t, "ano"@)
}

/// `t` with month `i` written as its number and the words "de" taken out.
pub open spec fn ninja_cleaned(t: Seq<char>, i: int) -> Seq<char> {
    replace_all(replace_all(replace_all(t, month_name(i), month_number(i)), "de "@, ""@), "de"@, ""@)
}

/// The ISO date that month `i` gives for `t`, if `t` names it and holds at
/// least three words once cleaned.
pub open spec fn ninja_month_date(t: Seq<char>, i: int) -> Option<Seq<char>> {
    if contains(t, month_name(i)) {
        let parts = words(ninja_cleaned(t, i), Separator::WhitespaceOrComma);
        if parts.len() >= 3 {
            Some(iso_date(parts, month_number(i)))
        } else {
            None
        }
    } else {
        None
    }
}

/// The ISO dates that months `i..12` give for `t`, in month order.
pub open spec fn ninja_month_dates(t: Seq<char>, i: int) -> Seq<(Seq<char>, DateFormat)>
    decreases 12 - i,
{
    if i >= 12 {
        Seq::empty()
    } else {
        match ninja_month_date(t, i) {
            Some(d) => seq![(d, DateFormat::IsoDate)] + ninja_month_dates(t, i + 1),
            None => ninja_month_dates(t, i + 1),
        }
    }
}

/// The date queries NinjaComics tries for a trimmed, lowercased date text,
/// in order: none for an empty or relative date; else the ISO date of each
/// month the text names, then the text itself as `MMMM d, yyyy`.
pub open spec fn ninja_lowered_date_queries(t: Seq<char>) -> Seq<(Seq<char>, DateFormat)> {
    if ninja_relative(t) {
        Seq::empty()
    } else {
        ninja_month_dates(t, 0).push((t, DateFormat::MonthDayYear))
    }
}

/// The date queries NinjaComics tries for a release-date text: those of the
/// text trimmed and lowercased.
pub open spec fn ninja_date_queries(s: Seq<char>) -> Seq<(Seq<char>, DateFormat)> {
    ninja_lowered_date_queries(lowercase(trim(s)))
}

proof fn lemma_query_views_push(qs: Seq<DateQuery>, q: DateQuery)
    ensures
        query_views(qs.push(q)) == query_views(qs).push(q@),
{
    assert(query_views(qs.push(q)) =~= query_views(qs).push(q@));
}

/// The date queries for a NinjaComics release-date text.
pub fn ninja_date_queries_of(date_text: &str) -> (r: Vec<DateQuery>)
    ensures
        query_views(r@) == ninja_date_queries(date_text@),
{
    let raw = chars_of(date_text);
    let trimmed = trim_chars(&raw);
    let t = lowercase_chars(&trimmed);
    ninja_lowered_date_queries_of(string_of(&t).as_str())
}

/// The date queries for a trimmed, lowercased NinjaComics date text.
pub fn ninja_lowered_date_queries_of(lowered: &str) -> (r: Vec<DateQuery>)
    ensures
        query_views(r@) == ninja_lowered_date_queries(lowered@),
{
    let t = chars_of(lowered);
    let mut r: Vec<DateQuery> = Vec::new();
    if t.len() == 0 || contains_str(&t, "dia") || contains_str(&t, "semana") || contains_str(&t, "mês")
        || contains_str(&t, "mes") || contains_str(&t, "ano") {
        proof {
            assert(query_views(r@) =~= Seq::<(Seq<char>, DateFormat)>::empty());
        }
        return r;
    }
    proof {
        assert(query_views(r@) =~= Seq::<(Seq<char>, DateFormat)>::empty());
    }
    let mut i: usize = 0;
    while i < 12
        invariant
            i <= 12,
            query_views(r@) + ninja_month_dates(t@, i as int) == ninja_month_dates(t@, 0),
        decreases 12 - i,
    {
        let (name, num) = month(i);
        if contains_str(&t, name) {
            let a = replace_str(&t, name, num);
            proof {
                reveal_strlit("de ");
                reveal_strlit("de");
            }
            let b = replace_str(&a, "de ", "");
            let cleaned = replace_str(&b, "de", "");
            let parts = words_of(&cleaned, Separator::WhitespaceOrComma);
            if parts.len() >= 3 {
                let d = iso_date_of(&parts, num);
                let q = DateQuery { text: string_of(&d), format: DateFormat::IsoDate };
                proof {
                    lemma_query_views_push(r@, q);
                    assert(query_views(r@).push(q@) + ninja_month_dates(t@, i + 1)
                        == query_views(r@) + ninja_month_dates(t@, i as int));
                }
                r.push(q);
            }
        }
        i = i + 1;
    }
    let q = DateQuery { text: string_of(&t), format: DateFormat::MonthDayYear };
    proof {
        lemma_query_views_push(r@, q);
        assert(query_views(r@) + Seq::<(Seq<char>, DateFormat)>::empty() == query_views(r@));
    }
    r.push(q);
    r
}

// ---------------------------------------------------------------------------
// Tsundoku
// ---------------------------------------------------------------------------

/// The ISO date that the first month from `i` on gives for the lowercase
/// text `l`: the first month that `l` names and whose numbered form of `l`
/// holds at least three words.
pub open spec fn tsundoku_month_date(l: Seq<char>, i: int) -> Option<Seq<char>>
    decreases 12 - i,
{
    if i >= 12 {
        None
    } else if contains(l, month_name(i)) && words(
        replace_all(l, month_name(i), month_number(i)),
        Separator::SpaceOrComma,
    ).len() >= 3 {
        Some(
            iso_date(
                words(replace_all(l, month_name(i), month_number(i)), Separator::SpaceOrComma),
                month_number(i),
            ),
        )
    } else {
        tsundoku_month_date(l, i + 1)
    }
}

/// The one date query Tsundoku makes for a release-date text: none for an
/// empty text; the ISO date of the first month that fits; else the trimmed
/// text as `MMMM d, yyyy`.
pub open spec fn tsundoku_date_query(s: Seq<char>) -> Option<(Seq<char>, DateFormat)> {
    let t = trim(s);
    if t.len() == 0 {
        None
    } else {
        match tsundoku_month_date(lowercase(t), 0) {
            Some(d) => Some((d, DateFormat::IsoDate)),
            None => Some((t, DateFormat::MonthDayYear)),
        }
    }
}

/// The date query for a Tsundoku release-date text.
pub fn tsundoku_date_query_of(date_text: &str) -> (r: Option<DateQuery>)
    ensures
        match r {
            Some(q) => tsundoku_date_query(date_text@) == Some(q@),
            None => tsundoku_date_query(date_text@) is None,
        },
{
    let raw = chars_of(date_text);
    let t = trim_chars(&raw);
    if t.len() == 0 {
        return None;
    }
    let lower = lowercase_chars(&t);
    match tsundoku_month_date_of(string_of(&lower).as_str()) {
        Some(d) => Some(DateQuery { text: d, format: DateFormat::IsoDate }),
        None => Some(DateQuery { text: string_of(&t), format: DateFormat::MonthDayYear }),
    }
}

/// The ISO date that the first fitting month gives for a lowercase date
/// text, if any.
pub fn tsundoku_month_date_of(lowered: &str) -> (r: Option<String>)
    ensures
        text_of(r) == tsundoku_month_date(lowered@, 0),
{
    let lower = chars_of(lowered);
    let mut i: usize = 0;
    while i < 12
        invariant
            i <= 12,
            lower@ == lowered@,
            tsundoku_month_date(lower@, i as int) == tsundoku_month_date(lower@, 0),
        decreases 12 - i,
    {
        let (name, num) = month(i);
        if contains_str(&lower, name) {
            let normalized = replace_str(&lower, name, num);
            let parts = words_of(&normalized, Separator::SpaceOrComma);
            if parts.len() >= 3 {
                let d = iso_date_of(&parts, num);
                proof {
                    assert(views(parts@).len() == parts@.len());
                    assert(tsundoku_month_date(lower@, i as int) == Some(d@));
                }
                return Some(string_of(&d));
            }
        }
        i = i + 1;
    }
    None
}


/// An ISO date `year-MM-day` whose month field is the two digits of `m`.
pub open spec fn has_month_field(d: Seq<char>, m: int) -> bool {
    exists|y: Seq<char>, day: Seq<char>| d == y + "-"@ + two_digits(m) + "-"@ + day
}

proof fn lemma_iso_date_field(parts: Seq<Seq<char>>, i: int)
    requires
        0 <= i < 12,
    ensures
        has_month_field(iso_date(parts, month_number(i)), i + 1),
{
    law_month_numbers(i);
    let y = parts[2];
    let day = parts[0];
    assert(iso_date(parts, month_number(i)) == y + "-"@ + two_digits(i + 1) + "-"@ + day);
}

proof fn lemma_ninja_month_dates_fields(t: Seq<char>, i: int)
    requires
        0 <= i,
    ensures
        forall|k: int|
            0 <= k < ninja_month_dates(t, i).len() ==> {
                let q = #[trigger] ninja_month_dates(t, i)[k];
                &&& q.1 == DateFormat::IsoDate
                &&& exists|m: int|
                    i <= m < 12 && contains(t, month_name(m)) && has_month_field(q.0, m + 1)
            },
    decreases 12 - i,
{
    if i < 12 {
        lemma_ninja_month_dates_fields(t, i + 1);
        let rest = ninja_month_dates(t, i + 1);
        match ninja_month_date(t, i) {
            Some(d) => {
                let parts = words(ninja_cleaned(t, i), Separator::WhitespaceOrComma);
                lemma_iso_date_field(parts, i);
                let all = seq![(d, DateFormat::IsoDate)] + rest;
                assert forall|k: int| 0 <= k < all.len() implies {
                    let q = #[trigger] all[k];
                    &&& q.1 == DateFormat::IsoDate
                    &&& exists|m: int|
                        i <= m < 12 && contains(t, month_name(m)) && has_month_field(q.0, m + 1)
                } by {
                    if k == 0 {
                        assert(all[k] == (d, DateFormat::IsoDate));
                    } else {
                        assert(all[k] == rest[k - 1]);
                        let q = rest[k - 1];
                        let m = choose|m: int|
                            i + 1 <= m < 12 && contains(t, month_name(m)) && has_month_field(q.0, m + 1);
                    }
                }
            },
            None => {
                assert forall|k: int| 0 <= k < rest.len() implies {
                    let q = #[trigger] rest[k];
                    &&& q.1 == DateFormat::IsoDate
                    &&& exists|m: int|
                        i <= m < 12 && contains(t, month_name(m)) && has_month_field(q.0, m + 1)
                } by {
                    let q = rest[k];
                    let m = choose|m: int|
                        i + 1 <= m < 12 && contains(t, month_name(m)) && has_month_field(q.0, m + 1);
                }
            },
        }
    }
}

/// Law: every NinjaComics date query but the last is an ISO date whose
/// month field is the number (1 for January) of a month that the trimmed,
/// lowercased text names; the last is that text itself, read as
/// `MMMM d, yyyy`.
pub proof fn law_ninja_date_months(s: Seq<char>)
    ensures
        ({
            let qs = ninja_date_queries(s);
            let t = lowercase(trim(s));
            &&& qs.len() > 0 ==> qs.last() == (t, DateFormat::MonthDayYear)
            &&& forall|k: int|
                0 <= k < qs.len() - 1 ==> {
                    &&& (#[trigger] qs[k]).1 == DateFormat::IsoDate
                    &&& exists|m: int|
                        0 <= m < 12 && contains(t, month_name(m)) && has_month_field(qs[k].0, m + 1)
                }
        }),
{
    let t = lowercase(trim(s));
    lemma_ninja_month_dates_fields(t, 0);
    let qs = ninja_date_queries(s);
    if !ninja_relative(t) {
        let md = ninja_month_dates(t, 0);
        assert forall|k: int| 0 <= k < qs.len() - 1 implies {
            &&& (#[trigger] qs[k]).1 == DateFormat::IsoDate
            &&& exists|m: int|
                0 <= m < 12 && contains(t, month_name(m)) && has_month_field(qs[k].0, m + 1)
        } by {
            assert(qs[k] == md[k]);
        }
    }
}

proof fn lemma_tsundoku_month_date_field(l: Seq<char>, i: int)
    requires
        0 <= i,
    ensures
        tsundoku_month_date(l, i) matches Some(d) ==> exists|m: int|
            i <= m < 12 && contains(l, month_name(m)) && has_month_field(d, m + 1),
    decreases 12 - i,
{
    if i < 12 {
        lemma_tsundoku_month_date_field(l, i + 1);
        let parts = words(replace_all(l, month_name(i), month_number(i)), Separator::SpaceOrComma);
        lemma_iso_date_field(parts, i);
    }
}

/// Law: where Tsundoku reads a release date as an ISO date, its month field
/// is the number (1 for January) of a month that the lowercased text names;
/// otherwise it reads the trimmed text itself as `MMMM d, yyyy`.
pub proof fn law_tsundoku_date_month(s: Seq<char>)
    ensures
        tsundoku_date_query(s) matches Some(q) ==> (q.1 == DateFormat::IsoDate && exists|m: int|
            0 <= m < 12 && contains(lowercase(trim(s)), month_name(m)) && has_month_field(q.0, m + 1))
            || q == (trim(s), DateFormat::MonthDayYear),
{
    lemma_tsundoku_month_date_field(lowercase(trim(s)), 0);
}


/// Law: NinjaComics tries no date for a blank text or for a relative one
/// (its trimmed, lowercased form speaks of "dia", "semana", "mês", "mes" or
/// "ano"); for any other text it tries at least the text itself.
pub proof fn law_ninja_relative_dates(s: Seq<char>)
    ensures
        ({
            let t = lowercase(trim(s));
            &&& (t.len() == 0 || contains(t, "dia"@) || contains(t, "semana"@) || contains(t, "mês"@) || contains(
                t,
                "mes"@,
            ) || contains(t, "ano"@)) <==> ninja_date_queries(s).len() == 0
        }),
{
}

} // verus!
