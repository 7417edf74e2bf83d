//! Tsundoku (tsundoku.com.br), a WordPress MangaReader site with manga,
//! manhwa, manhua and novels: listings, search, manga pages, chapters and
//! reader pages (images, or the text of a novel).
use vstd::prelude::*;
use crate::common::{
    filter_map, lemma_filter_map_sources, lemma_filter_map_step, lemma_wp_manga_url, wp_manga_url, manga_slug, manga_slug_of, numeral_token, numeral_token_of,
    path_slug, path_slug_of, text_or_empty, text_or_empty_of, copy_opt,
};
use crate::dates::{tsundoku_date_query, tsundoku_date_query_of};
use crate::model::{
    chapter_views, entry_views, opt_texts, page_views, query_views, text_of, texts, ChapterRecord,
    ChapterView, DateQuery, EntryView, MangaEntry, MangaRecord, MangaStatus, PageRecord, PageView,
    SourceError,
};
use crate::sort::{sort_values_by_key, sorted_values};
use crate::text::{
    after_last, after_last_chars, before_first, before_first_chars, chars_of, contains, contains_str,
    equal_str, lemma_before_first_concat, lemma_trim_idempotent, lemma_after_last_free, lowercase, lowercase_chars,
    push_all, push_str, string_of, trim, trim_chars, trim_end_char, trim_end_char_chars,
};

verus! {

/// The web site.
pub const BASE_URL: &'static str = "https://tsundoku.com.br";

// ---------------------------------------------------------------------------
// Listings and search
// ---------------------------------------------------------------------------

/// The search page for a query.
pub open spec fn spec_search_url(q: Seq<char>) -> Seq<char> {
    BASE_URL@ + "/?s="@ + q
}

/// The search page to fetch: none without a query, whose result is then an
/// empty page.
pub fn search_url(query: Option<String>) -> (r: Option<String>)
    ensures
        text_of(r) == match query {
            Some(q) => Some(spec_search_url(q@)),
            None => None,
        },
{
    match &query {
        Some(q) => {
            let mut out: Vec<char> = Vec::new();
            push_str(&mut out, BASE_URL);
            push_str(&mut out, "/?s=");
            push_str(&mut out, q.as_str());
            Some(string_of(&out))
        },
        None => None,
    }
}

/// The category of listing `i`: its identifier and its path.
pub open spec fn spec_category(i: int) -> (Seq<char>, Seq<char>) {
    if i == 0 {
        ("mangas"@, "/mangas/"@)
    } else if i == 1 {
        ("novels"@, "/novels/"@)
    } else if i == 2 {
        ("manhwas"@, "/manhwas/"@)
    } else {
        ("manhuas"@, "/manhuas/"@)
    }
}

/// The path of the first category from `i` on with identifier `id`, or
/// `/mangas/` where there is none.
pub open spec fn spec_category_path(id: Seq<char>, i: int) -> Seq<char>
    decreases 4 - i,
{
    if i >= 4 {
        "/mangas/"@
    } else if spec_category(i).0 == id {
        spec_category(i).1
    } else {
        spec_category_path(id, i + 1)
    }
}

/// The pages of the four categories, in order.
pub open spec fn spec_category_urls() -> Seq<Seq<char>> {
    Seq::new(4, |i: int| BASE_URL@ + spec_category(i).1)
}

/// The pages a listing reads: all four categories for "todos", else the
/// category named (the manga one by default).
pub open spec fn spec_listing_urls(id: Seq<char>) -> Seq<Seq<char>> {
    if id == "todos"@ {
        spec_category_urls()
    } else {
        seq![BASE_URL@ + spec_category_path(id, 0)]
    }
}

/// Law: a category listing reads its own page, the site's `/<id>/`;
/// "todos" reads the four category pages in order; any other listing reads
/// the manga page.
pub proof fn law_listing_urls(id: Seq<char>)
    ensures
        (id == "mangas"@ || id == "novels"@ || id == "manhwas"@ || id == "manhuas"@) ==> spec_listing_urls(id)
            == seq![BASE_URL@ + "/"@ + id + "/"@],
        id == "todos"@ ==> spec_listing_urls(id) == seq![
            BASE_URL@ + "/mangas/"@,
            BASE_URL@ + "/novels/"@,
            BASE_URL@ + "/manhwas/"@,
            BASE_URL@ + "/manhuas/"@,
        ],
        !(id == "mangas"@ || id == "novels"@ || id == "manhwas"@ || id == "manhuas"@ || id == "todos"@)
            ==> spec_listing_urls(id) == seq![BASE_URL@ + "/mangas/"@],
{
    reveal_strlit("mangas");
    reveal_strlit("novels");
    reveal_strlit("manhwas");
    reveal_strlit("manhuas");
    reveal_strlit("todos");
    reveal_strlit("/");
    reveal_strlit("/mangas/");
    reveal_strlit("/novels/");
    reveal_strlit("/manhwas/");
    reveal_strlit("/manhuas/");
    assert("/"@ + "mangas"@ + "/"@ =~= "/mangas/"@);
    assert("/"@ + "novels"@ + "/"@ =~= "/novels/"@);
    assert("/"@ + "manhwas"@ + "/"@ =~= "/manhwas/"@);
    assert("/"@ + "manhuas"@ + "/"@ =~= "/manhuas/"@);
    assert(BASE_URL@ + "/"@ + id + "/"@ == BASE_URL@ + ("/"@ + id + "/"@));
    if id == "todos"@ {
        assert(spec_category_urls() =~= seq![
            BASE_URL@ + "/mangas/"@,
            BASE_URL@ + "/novels/"@,
            BASE_URL@ + "/manhwas/"@,
            BASE_URL@ + "/manhuas/"@,
        ]);
    } else {
        let p4 = spec_category_path(id, 4);
        let p3 = spec_category_path(id, 3);
        let p2 = spec_category_path(id, 2);
        let p1 = spec_category_path(id, 1);
        let p0 = spec_category_path(id, 0);
        assert(p4 == "/mangas/"@);
        assert(p3 == if "manhuas"@ == id { "/manhuas/"@ } else { p4 });
        assert(p2 == if "manhwas"@ == id { "/manhwas/"@ } else { p3 });
        assert(p1 == if "novels"@ == id { "/novels/"@ } else { p2 });
        assert(p0 == if "mangas"@ == id { "/mangas/"@ } else { p1 });
    }
}

fn category(i: usize) -> (r: (&'static str, &'static str))
    requires
        i < 4,
    ensures
        r.0@ == spec_category(i as int).0,
        r.1@ == spec_category(i as int).1,
{
    if i == 0 {
        ("mangas", "/mangas/")
    } else if i == 1 {
        ("novels", "/novels/")
    } else if i == 2 {
        ("manhwas", "/manhwas/")
    } else {
        ("manhuas", "/manhuas/")
    }
}

fn url_under_base(path: &str) -> (r: String)
    ensures
        r@ == BASE_URL@ + path@,
{
    let mut out: Vec<char> = Vec::new();
    push_str(&mut out, BASE_URL);
    push_str(&mut out, path);
    string_of(&out)
}

/// The pages to fetch for a listing, in order.
pub fn listing_urls(listing_id: &str) -> (r: Vec<String>)
    ensures
        texts(r@) == spec_listing_urls(listing_id@),
{
    let id = chars_of(listing_id);
    let mut out: Vec<String> = Vec::new();
    if equal_str(&id, "todos") {
        let mut i: usize = 0;
        while i < 4
            invariant
                i <= 4,
                texts(out@) == spec_category_urls().take(i as int),
            decreases 4 - i,
        {
            let (_, path) = category(i);
            let u = url_under_base(path);
            let ghost before = out@;
            out.push(u);
            i = i + 1;
            proof {
                assert(texts(before.push(u)) =~= texts(before).push(u@));
                assert(spec_category_urls().take(i as int) =~= spec_category_urls().take(i - 1).push(
                    BASE_URL@ + spec_category(i - 1).1,
                ));
            }
        }
        proof {
            assert(spec_category_urls().take(4) =~= spec_category_urls());
        }
    } else {
        let mut path: &'static str = "/mangas/";
        let mut found = false;
        let mut i: usize = 0;
        while i < 4 && !found
            invariant
                i <= 4,
                found ==> path@ == spec_category_path(id@, 0),
                !found ==> spec_category_path(id@, i as int) == spec_category_path(id@, 0),
                id@ == listing_id@,
                !found ==> path@ == "/mangas/"@,
            decreases 4 - i,
        {
            let (name, p) = category(i);
            if equal_str(&id, name) {
                path = p;
                found = true;
            }
            i = i + 1;
        }
        let u = url_under_base(path);
        out.push(u);
        proof {
            assert(texts(out@) =~= seq![u@]);
        }
    }
    out
}

/// A card of a listing (`.listupd .bs`): the `href` of its link, the text
/// of its title, the `src` of its image and the texts of its type label and
/// of its status.
pub struct ListCard {
    pub href: Option<String>,
    pub title: Option<String>,
    pub cover: Option<String>,
    pub kind: Option<String>,
    pub status: Option<String>,
}

/// The page of the manga with slug `slug`.
pub open spec fn spec_manga_url(slug: Seq<char>) -> Seq<char> {
    wp_manga_url(BASE_URL@, slug)
}

/// The page of a manga of a given type: its page with the type as query.
pub open spec fn spec_typed_url(page: Seq<char>, kind: Seq<char>) -> Seq<char> {
    page + "?type="@ + kind
}

/// The entry a card gives: none without a link or a slug; else keyed by the
/// link's last segment, its URL carrying its type where it has one.
pub open spec fn spec_card_entry(c: ListCard) -> Option<EntryView> {
    let url = text_or_empty(c.href);
    let slug = path_slug(url);
    let kind = trim(text_or_empty(c.kind));
    if url.len() == 0 || slug.len() == 0 {
        None
    } else {
        Some(
            EntryView {
                key: slug,
                title: text_or_empty(c.title),
                cover: text_of(c.cover),
                url: Some(
                    if kind.len() > 0 {
                        spec_typed_url(spec_manga_url(slug), kind)
                    } else {
                        spec_manga_url(slug)
                    },
                ),
                status: if contains(trim(text_or_empty(c.status)), "Completed"@) {
                    MangaStatus::Completed
                } else {
                    MangaStatus::Ongoing
                },
            },
        )
    }
}

/// The entries of a listing or search page, in card order.
pub open spec fn spec_list_entries(cards: Seq<ListCard>) -> Seq<EntryView> {
    filter_map(cards, |c: ListCard| spec_card_entry(c))
}

fn manga_url_of(slug: &Vec<char>) -> (r: Vec<char>)
    ensures
        r@ == spec_manga_url(slug@),
{
    let mut out: Vec<char> = Vec::new();
    push_str(&mut out, BASE_URL);
    push_str(&mut out, "/manga/");
    push_all(&mut out, slug);
    push_str(&mut out, "/");
    out
}

fn card_entry(c: &ListCard) -> (r: Option<MangaEntry>)
    ensures
        match r {
            Some(e) => spec_card_entry(*c) == Some(e@),
            None => spec_card_entry(*c) is None,
        },
{
    let url = text_or_empty_of(&c.href);
    if url.len() == 0 {
        return None;
    }
    let slug = path_slug_of(&url);
    if slug.len() == 0 {
        return None;
    }
    let title = text_or_empty_of(&c.title);
    let k = text_or_empty_of(&c.kind);
    let kind = trim_chars(&k);
    let st = text_or_empty_of(&c.status);
    let st = trim_chars(&st);
    let status = if contains_str(&st, "Completed") {
        MangaStatus::Completed
    } else {
        MangaStatus::Ongoing
    };
    let mut page = manga_url_of(&slug);
    if kind.len() > 0 {
        push_str(&mut page, "?type=");
        push_all(&mut page, &kind);
    }
    Some(
        MangaEntry {
            key: string_of(&slug),
            title: string_of(&title),
            cover: copy_opt(&c.cover),
            url: Some(string_of(&page)),
            status: status,
        },
    )
}

proof fn lemma_entry_views_push(es: Seq<MangaEntry>, e: MangaEntry)
    ensures
        entry_views(es.push(e)) == entry_views(es).push(e@),
{
    assert(entry_views(es.push(e)) =~= entry_views(es).push(e@));
}

/// The entries of a listing or search page.
pub fn list_entries(cards: Vec<ListCard>) -> (r: Vec<MangaEntry>)
    ensures
        entry_views(r@) == spec_list_entries(cards@),
{
    let mut entries: Vec<MangaEntry> = Vec::new();
    let mut i: usize = 0;
    proof {
        assert(entry_views(entries@) =~= Seq::<EntryView>::empty());
    }
    while i < cards.len()
        invariant
            i <= cards@.len(),
            entry_views(entries@) == filter_map(cards@.take(i as int), |c: ListCard| spec_card_entry(c)),
        decreases cards.len() - i,
    {
        proof {
            lemma_filter_map_step(cards@, |c: ListCard| spec_card_entry(c), i as int);
        }
        match card_entry(&cards[i]) {
            Some(e) => {
                proof {
                    lemma_entry_views_push(entries@, e);
                }
                entries.push(e);
            },
            None => {},
        }
        i = i + 1;
    }
    proof {
        assert(cards@.take(cards@.len() as int) == cards@);
    }
    entries
}

/// The entries of pages read one after the other.
pub open spec fn spec_concat(pages: Seq<Seq<EntryView>>) -> Seq<EntryView>
    decreases pages.len(),
{
    if pages.len() == 0 {
        Seq::empty()
    } else {
        spec_concat(pages.drop_last()) + pages.last()
    }
}

/// Whether some entry of `es` has key `key`.
pub open spec fn has_key(es: Seq<EntryView>, key: Seq<char>) -> bool {
    exists|k: int| 0 <= k < es.len() && (#[trigger] es[k]).key == key
}

/// The entries with the first occurrence of each key kept, in order.
pub open spec fn spec_unique_by_key(es: Seq<EntryView>) -> Seq<EntryView>
    decreases es.len(),
{
    if es.len() == 0 {
        Seq::empty()
    } else {
        let d = spec_unique_by_key(es.drop_last());
        if has_key(d, es.last().key) {
            d
        } else {
            d.push(es.last())
        }
    }
}

/// The entries of a listing from the pages read: for "todos", those of all
/// the category pages with each key kept once (its first entry); else the
/// entries of the pages as they are.
pub open spec fn spec_listing_entries(id: Seq<char>, pages: Seq<Seq<EntryView>>) -> Seq<EntryView> {
    if id == "todos"@ {
        spec_unique_by_key(spec_concat(pages))
    } else {
        spec_concat(pages)
    }
}

fn has_key_of(es: &Vec<MangaEntry>, key: &String) -> (r: bool)
    ensures
        r == has_key(entry_views(es@), key@),
{
    let mut i: usize = 0;
    while i < es.len()
        invariant
            i <= es@.len(),
            forall|k: int| 0 <= k < i ==> es@[k].key@ != key@,
        decreases es.len() - i,
    {
        if es[i].key == *key {
            proof {
                assert(entry_views(es@)[i as int].key == key@);
            }
            return true;
        }
        i = i + 1;
    }
    proof {
        assert forall|k: int| 0 <= k < entry_views(es@).len() implies (#[trigger] entry_views(es@)[k]).key != key@ by {
            assert(entry_views(es@)[k] == es@[k]@);
        }
    }
    false
}

/// The entries of a listing from the pages read, in order.
pub fn listing_entries(listing_id: &str, pages: Vec<Vec<MangaEntry>>) -> (r: Vec<MangaEntry>)
    ensures
        entry_views(r@) == spec_listing_entries(
            listing_id@,
            pages@.map_values(|p: Vec<MangaEntry>| entry_views(p@)),
        ),
{
    let id = chars_of(listing_id);
    let unique = equal_str(&id, "todos");
    let ghost pv = pages@.map_values(|p: Vec<MangaEntry>| entry_views(p@));
    let mut out: Vec<MangaEntry> = Vec::new();
    proof {
        assert(entry_views(out@) =~= Seq::<EntryView>::empty());
        assert(pv.take(0) =~= Seq::<Seq<EntryView>>::empty());
    }
    for page in it: pages.into_iter()
        invariant
            pv == it.seq().map_values(|p: Vec<MangaEntry>| entry_views(p@)),
            unique == (listing_id@ == "todos"@),
            unique ==> entry_views(out@) == spec_unique_by_key(spec_concat(pv.take(it.index() as int))),
            !unique ==> entry_views(out@) == spec_concat(pv.take(it.index() as int)),
    {
        let ghost j = it.index() as int;
        let ghost done = spec_concat(pv.take(j));
        let ghost pe = entry_views(page@);
        proof {
            assert(pv[j] == pe);
            assert(pv.take(j + 1).drop_last() == pv.take(j));
        }
        for e in jt: page.into_iter()
            invariant
                pe == entry_views(jt.seq()),
                unique ==> entry_views(out@) == spec_unique_by_key(done + pe.take(jt.index() as int)),
                !unique ==> entry_views(out@) == done + pe.take(jt.index() as int),
        {
            let ghost k = jt.index() as int;
            proof {
                assert(pe[k] == e@);
                assert((done + pe.take(k + 1)).drop_last() == done + pe.take(k));
                assert((done + pe.take(k + 1)).last() == e@);
            }
            if unique {
                if !has_key_of(&out, &e.key) {
                    proof {
                        lemma_entry_views_push(out@, e);
                    }
                    out.push(e);
                }
            } else {
                proof {
                    lemma_entry_views_push(out@, e);
                    assert(done + pe.take(k + 1) =~= (done + pe.take(k)).push(e@));
                }
                out.push(e);
            }
        }
        proof {
            assert(pe.take(pe.len() as int) == pe);
        }
    }
    proof {
        assert(pv.take(pv.len() as int) == pv);
    }
    out
}

// ---------------------------------------------------------------------------
// Manga page
// ---------------------------------------------------------------------------

/// The page of a manga to update: from its key, or else from the last
/// segment of its URL; an error where neither gives a slug.
pub open spec fn spec_manga_page_url(key: Seq<char>, url: Option<String>) -> Result<Seq<char>, SourceError> {
    let slug = manga_slug(key, url);
    if slug.len() == 0 {
        Err(SourceError::InvalidMangaSlug)
    } else {
        Ok(spec_manga_url(slug))
    }
}

/// The page to fetch to update a manga with this key and URL.
pub fn manga_page_url(key: &str, url: &Option<String>) -> (r: Result<String, SourceError>)
    ensures
        match r {
            Ok(u) => spec_manga_page_url(key@, *url) == Ok::<Seq<char>, SourceError>(u@),
            Err(e) => spec_manga_page_url(key@, *url) == Err::<Seq<char>, SourceError>(e),
        },
{
    let slug = manga_slug_of(key, url);
    if slug.len() == 0 {
        Err(SourceError::InvalidMangaSlug)
    } else {
        let u = manga_url_of(&slug);
        Ok(string_of(&u))
    }
}

/// An information item (`.tsinfo .imptdt`): its whole text, the text of its
/// `i` (the status) and of its link (the type).
pub struct InfoItem {
    pub text: Option<String>,
    pub status: Option<String>,
    pub kind: Option<String>,
}

/// What the manga page shows: the title, the `src` of the cover, the
/// description, the information items and the genre links' texts.
pub struct MangaDetails {
    pub title: Option<String>,
    pub cover: Option<String>,
    pub description: Option<String>,
    pub info: Vec<InfoItem>,
    pub genres: Vec<Option<String>>,
}

/// The status that a lowercase status text names.
pub open spec fn spec_status_of(s: Seq<char>) -> MangaStatus {
    if contains(s, "ongoing"@) {
        MangaStatus::Ongoing
    } else if contains(s, "completed"@) {
        MangaStatus::Completed
    } else {
        MangaStatus::Unknown
    }
}

/// The status and the type after one more information item: a "Status"
/// item with a value sets the status, else a "Tipo" item with a link sets
/// the type.
pub open spec fn spec_info_step(state: (MangaStatus, Seq<char>), item: InfoItem) -> (MangaStatus, Seq<char>) {
    let label = text_or_empty(item.text);
    if contains(label, "Status"@) {
        match item.status {
            Some(s) => (spec_status_of(lowercase(s@)), state.1),
            None => state,
        }
    } else if contains(label, "Tipo"@) {
        match item.kind {
            Some(k) => (state.0, k@),
            None => state,
        }
    } else {
        state
    }
}

/// The status and the type after reading the items in order.
pub open spec fn spec_info_after(items: Seq<InfoItem>, start: (MangaStatus, Seq<char>)) -> (MangaStatus, Seq<char>)
    decreases items.len(),
{
    if items.len() == 0 {
        start
    } else {
        spec_info_step(spec_info_after(items.drop_last(), start), items.last())
    }
}

/// The genre names present, in order.
pub open spec fn spec_genre_names(genres: Seq<Option<String>>) -> Seq<Seq<char>> {
    filter_map(genres, |g: Option<String>| text_of(g))
}

fn status_of(s: &String) -> (r: MangaStatus)
    ensures
        r == spec_status_of(lowercase(s@)),
{
    let v = chars_of(s.as_str());
    let l = lowercase_chars(&v);
    status_named(string_of(&l).as_str())
}

/// The status that a lowercase status text names.
pub fn status_named(lowered: &str) -> (r: MangaStatus)
    ensures
        r == spec_status_of(lowered@),
{
    let l = chars_of(lowered);
    if contains_str(&l, "ongoing") {
        MangaStatus::Ongoing
    } else if contains_str(&l, "completed") {
        MangaStatus::Completed
    } else {
        MangaStatus::Unknown
    }
}

/// Fills in a manga from its page fetched at `page_url`: the title, cover
/// and description that the page shows, the status of the last status item,
/// the genres where there are any, and, where the page names a type, the
/// page with that type as URL; what the page lacks stays as it was.
pub fn apply_details(manga: &mut MangaRecord, details: MangaDetails, page_url: &str)
    ensures
        final(manga).key == old(manga).key,
        final(manga).title@ == match details.title {
            Some(t) => t@,
            None => old(manga).title@,
        },
        text_of(final(manga).cover) == match details.cover {
            Some(c) => Some(c@),
            None => text_of(old(manga).cover),
        },
        text_of(final(manga).description) == match details.description {
            Some(d) => Some(d@),
            None => text_of(old(manga).description),
        },
        final(manga).status == spec_info_after(details.info@, (old(manga).status, Seq::empty())).0,
        text_of(final(manga).url) == if spec_info_after(details.info@, (old(manga).status, Seq::empty())).1.len() > 0 {
            Some(spec_typed_url(page_url@, spec_info_after(details.info@, (old(manga).status, Seq::empty())).1))
        } else {
            text_of(old(manga).url)
        },
        opt_texts(final(manga).tags) == if spec_genre_names(details.genres@).len() > 0 {
            Some(spec_genre_names(details.genres@))
        } else {
            opt_texts(old(manga).tags)
        },
{
    match &details.title {
        Some(t) => {
            manga.title = t.clone();
        },
        None => {},
    }
    match &details.cover {
        Some(c) => {
            manga.cover = Some(c.clone());
        },
        None => {},
    }
    match &details.description {
        Some(d) => {
            manga.description = Some(d.clone());
        },
        None => {},
    }
    let ghost start = (manga.status, Seq::<char>::empty());
    let ghost mid = *manga;
    let mut kind: Vec<char> = Vec::new();
    let mut i: usize = 0;
    while i < details.info.len()
        invariant
            i <= details.info@.len(),
            manga.key == mid.key,
            manga.url == mid.url,
            manga.title == mid.title,
            manga.cover == mid.cover,
            manga.description == mid.description,
            manga.tags == mid.tags,
            (manga.status, kind@) == spec_info_after(details.info@.take(i as int), start),
        decreases details.info.len() - i,
    {
        proof {
            assert(details.info@.take(i + 1).drop_last() == details.info@.take(i as int));
        }
        let item = &details.info[i];
        let label = text_or_empty_of(&item.text);
        if contains_str(&label, "Status") {
            match &item.status {
                Some(s) => {
                    manga.status = status_of(s);
                },
                None => {},
            }
        } else if contains_str(&label, "Tipo") {
            match &item.kind {
                Some(k) => {
                    kind = chars_of(k.as_str());
                },
                None => {},
            }
        }
        i = i + 1;
    }
    proof {
        assert(details.info@.take(details.info@.len() as int) == details.info@);
    }
    let mut names: Vec<String> = Vec::new();
    let mut g: usize = 0;
    proof {
        assert(texts(names@) =~= Seq::<Seq<char>>::empty());
    }
    while g < details.genres.len()
        invariant
            g <= details.genres@.len(),
            texts(names@) == filter_map(details.genres@.take(g as int), |x: Option<String>| text_of(x)),
        decreases details.genres.len() - g,
    {
        proof {
            lemma_filter_map_step(details.genres@, |x: Option<String>| text_of(x), g as int);
        }
        match &details.genres[g] {
            Some(n) => {
                let c = n.clone();
                let ghost before = names@;
                names.push(c);
                proof {
                    assert(texts(before.push(c)) =~= texts(before).push(c@));
                }
            },
            None => {},
        }
        g = g + 1;
    }
    proof {
        assert(details.genres@.take(details.genres@.len() as int) == details.genres@);
    }
    if names.len() > 0 {
        manga.tags = Some(names);
    }
    if kind.len() > 0 {
        let mut u = chars_of(page_url);
        push_str(&mut u, "?type=");
        push_all(&mut u, &kind);
        manga.url = Some(string_of(&u));
    }
}

// ---------------------------------------------------------------------------
// Chapters
// ---------------------------------------------------------------------------

/// The chapter number written in a chapter title: none for a blank title,
/// else the last number in it.
pub open spec fn spec_chapter_number(text: Seq<char>) -> Option<Seq<char>> {
    if trim(text).len() == 0 {
        None
    } else {
        numeral_token(trim(text))
    }
}

/// The chapter number written in a chapter title, as text that
/// `f32::from_str` reads.
pub fn parse_chapter_number(num_text: &str) -> (r: Option<String>)
    ensures
        text_of(r) == spec_chapter_number(num_text@),
        spec_chapter_number(num_text@) matches Some(t) ==> crate::text::is_decimal_numeral(t),
{
    let raw = chars_of(num_text);
    let t = trim_chars(&raw);
    if t.len() == 0 {
        return None;
    }
    match numeral_token_of(&t) {
        Some(n) => Some(string_of(&n)),
        None => None,
    }
}

/// A chapter item (`#chapterlist ul li`): the `href` of its link, the text
/// of its `span.chapternum` and of its `span.chapterdate`.
pub struct ChapterItem {
    pub href: Option<String>,
    pub number: Option<String>,
    pub date: Option<String>,
}

/// The date queries of a release-date text: its one query, if any.
pub open spec fn spec_date_queries(date: Seq<char>) -> Seq<(Seq<char>, crate::model::DateFormat)> {
    match tsundoku_date_query(date) {
        Some(q) => seq![q],
        None => Seq::empty(),
    }
}

/// The chapter an item gives: none without a link or a number text; else
/// keyed by its link, titled by its trimmed number text and dated by its
/// date text.
pub open spec fn spec_chapter(item: ChapterItem) -> Option<ChapterView> {
    let href = text_or_empty(item.href);
    let title = trim(text_or_empty(item.number));
    if href.len() == 0 || title.len() == 0 {
        None
    } else {
        Some(
            ChapterView {
                key: href,
                title: Some(title),
                number: spec_chapter_number(title),
                date: spec_date_queries(text_or_empty(item.date)),
            },
        )
    }
}

/// The chapters of a manga page, in page order.
pub open spec fn spec_chapters(items: Seq<ChapterItem>) -> Seq<ChapterView> {
    filter_map(items, |c: ChapterItem| spec_chapter(c))
}

fn chapter_of(item: &ChapterItem) -> (r: Option<ChapterRecord>)
    ensures
        match r {
            Some(c) => spec_chapter(*item) == Some(c@),
            None => spec_chapter(*item) is None,
        },
{
    let href = text_or_empty_of(&item.href);
    if href.len() == 0 {
        return None;
    }
    let n = text_or_empty_of(&item.number);
    let title = trim_chars(&n);
    if title.len() == 0 {
        return None;
    }
    let title_s = string_of(&title);
    let date_text = text_or_empty_of(&item.date);
    let mut date: Vec<DateQuery> = Vec::new();
    match tsundoku_date_query_of(string_of(&date_text).as_str()) {
        Some(q) => {
            date.push(q);
        },
        None => {},
    }
    proof {
        assert(query_views(date@) =~= spec_date_queries(date_text@));
    }
    let number = parse_chapter_number(title_s.as_str());
    Some(ChapterRecord { key: string_of(&href), title: Some(title_s), number: number, date: date })
}

proof fn lemma_chapter_views_push(cs: Seq<ChapterRecord>, c: ChapterRecord)
    ensures
        chapter_views(cs.push(c)) == chapter_views(cs).push(c@),
{
    assert(chapter_views(cs.push(c)) =~= chapter_views(cs).push(c@));
}

/// The chapters of a manga page, in page order; their numbers are read by
/// the caller, which then orders them with `order_chapters`.
pub fn chapter_records(items: Vec<ChapterItem>) -> (r: Vec<ChapterRecord>)
    ensures
        chapter_views(r@) == spec_chapters(items@),
{
    let mut out: Vec<ChapterRecord> = Vec::new();
    let mut i: usize = 0;
    proof {
        assert(chapter_views(out@) =~= Seq::<ChapterView>::empty());
    }
    while i < items.len()
        invariant
            i <= items@.len(),
            chapter_views(out@) == filter_map(items@.take(i as int), |c: ChapterItem| spec_chapter(c)),
        decreases items.len() - i,
    {
        proof {
            lemma_filter_map_step(items@, |c: ChapterItem| spec_chapter(c), i as int);
        }
        match chapter_of(&items[i]) {
            Some(c) => {
                proof {
                    lemma_chapter_views_push(out@, c);
                }
                out.push(c);
            },
            None => {},
        }
        i = i + 1;
    }
    proof {
        assert(items@.take(items@.len() as int) == items@);
    }
    out
}

/// Orders chapters by number, lowest first; chapters with equal numbers
/// keep their page order. Each chapter comes with a key that orders as its
/// number does.
pub fn order_chapters(keyed: Vec<(i64, ChapterRecord)>) -> (r: Vec<ChapterRecord>)
    ensures
        sorted_values(r@, keyed@, false),
{
    sort_values_by_key(keyed, false)
}

// ---------------------------------------------------------------------------
// Reader pages
// ---------------------------------------------------------------------------

/// A reader image that shows a page: an address that is not the reader's
/// placeholder (`readerarea.svg`), and, for a novel, no "apoiar" banner.
pub open spec fn spec_page_image(src: Option<String>, novel: bool) -> Option<PageView> {
    match src {
        Some(s) => if s@.len() > 0 && !contains(s@, "readerarea.svg"@) && (!novel || !contains(s@, "apoiar"@)) {
            Some(PageView::Url(s@))
        } else {
            None
        },
        None => None,
    }
}

/// The image pages of a chapter, in order.
pub open spec fn spec_image_list(images: Seq<Option<String>>, novel: bool) -> Seq<PageView> {
    filter_map(images, |s: Option<String>| spec_page_image(s, novel))
}

/// The pages of a comic chapter: its images; an error where there is none.
pub open spec fn spec_image_pages(images: Seq<Option<String>>) -> Result<Seq<PageView>, SourceError> {
    if spec_image_list(images, false).len() == 0 {
        Err(SourceError::NoImagesFound)
    } else {
        Ok(spec_image_list(images, false))
    }
}

/// The pages of a novel chapter: its images where it has some, else its
/// trimmed text as one page where there is text, else an error.
pub open spec fn spec_novel_pages(images: Seq<Option<String>>, content: Option<String>) -> Result<Seq<PageView>, SourceError> {
    if spec_image_list(images, true).len() > 0 {
        Ok(spec_image_list(images, true))
    } else {
        match content {
            Some(c) => if trim(c@).len() > 0 {
                Ok(seq![PageView::Text(trim(c@))])
            } else {
                Err(SourceError::NoNovelContentFound)
            },
            None => Err(SourceError::NoNovelContentFound),
        }
    }
}

/// A manga is a novel where its URL carries the novel type.
pub open spec fn spec_is_novel(url: Option<String>) -> bool {
    match url {
        Some(u) => contains(u@, "?type=Novel"@),
        None => false,
    }
}

/// The pages of a chapter of a manga with URL `manga_url`: novel pages for a
/// novel, image pages else.
pub open spec fn spec_page_list(manga_url: Option<String>, images: Seq<Option<String>>, content: Option<String>) -> Result<Seq<PageView>, SourceError> {
    if spec_is_novel(manga_url) {
        spec_novel_pages(images, content)
    } else {
        spec_image_pages(images)
    }
}

proof fn lemma_page_views_push(ps: Seq<PageRecord>, p: PageRecord)
    ensures
        page_views(ps.push(p)) == page_views(ps).push(p@),
{
    assert(page_views(ps.push(p)) =~= page_views(ps).push(p@));
}

fn image_list(images: &Vec<Option<String>>, novel: bool) -> (r: Vec<PageRecord>)
    ensures
        page_views(r@) == spec_image_list(images@, novel),
{
    let mut pages: Vec<PageRecord> = Vec::new();
    let mut i: usize = 0;
    proof {
        assert(page_views(pages@) =~= Seq::<PageView>::empty());
    }
    while i < images.len()
        invariant
            i <= images@.len(),
            page_views(pages@) == filter_map(images@.take(i as int), |s: Option<String>| spec_page_image(s, novel)),
        decreases images.len() - i,
    {
        proof {
            lemma_filter_map_step(images@, |s: Option<String>| spec_page_image(s, novel), i as int);
        }
        match &images[i] {
            Some(s) => {
                let v = chars_of(s.as_str());
                if v.len() > 0 && !contains_str(&v, "readerarea.svg") && (!novel || !contains_str(&v, "apoiar")) {
                    let p = PageRecord::Url(s.clone());
                    proof {
                        lemma_page_views_push(pages@, p);
                    }
                    pages.push(p);
                }
            },
            None => {},
        }
        i = i + 1;
    }
    proof {
        assert(images@.take(images@.len() as int) == images@);
    }
    pages
}

/// Whether the manga with this URL is a novel.
pub fn is_novel(manga_url: &Option<String>) -> (r: bool)
    ensures
        r == spec_is_novel(*manga_url),
{
    match manga_url {
        Some(u) => {
            let v = chars_of(u.as_str());
            contains_str(&v, "?type=Novel")
        },
        None => false,
    }
}

/// The pages of a comic chapter.
pub fn image_pages(images: &Vec<Option<String>>) -> (r: Result<Vec<PageRecord>, SourceError>)
    ensures
        match r {
            Ok(ps) => spec_image_pages(images@) == Ok::<Seq<PageView>, SourceError>(page_views(ps@)),
            Err(e) => spec_image_pages(images@) == Err::<Seq<PageView>, SourceError>(e),
        },
{
    let pages = image_list(images, false);
    if pages.len() == 0 {
        Err(SourceError::NoImagesFound)
    } else {
        Ok(pages)
    }
}

/// The pages of a novel chapter.
pub fn novel_pages(images: &Vec<Option<String>>, content: &Option<String>) -> (r: Result<Vec<PageRecord>, SourceError>)
    ensures
        match r {
            Ok(ps) => spec_novel_pages(images@, *content) == Ok::<Seq<PageView>, SourceError>(page_views(ps@)),
            Err(e) => spec_novel_pages(images@, *content) == Err::<Seq<PageView>, SourceError>(e),
        },
{
    let pages = image_list(images, true);
    if pages.len() > 0 {
        return Ok(pages);
    }
    match content {
        Some(c) => {
            let v = chars_of(c.as_str());
            let t = trim_chars(&v);
            if t.len() > 0 {
                let mut out: Vec<PageRecord> = Vec::new();
                out.push(PageRecord::Text(string_of(&t)));
                proof {
                    assert(page_views(out@) =~= seq![PageView::Text(t@)]);
                }
                Ok(out)
            } else {
                Err(SourceError::NoNovelContentFound)
            }
        },
        None => Err(SourceError::NoNovelContentFound),
    }
}

/// The pages of a chapter of the manga with URL `manga_url`.
pub fn page_list(manga_url: &Option<String>, images: &Vec<Option<String>>, content: &Option<String>) -> (r: Result<Vec<PageRecord>, SourceError>)
    ensures
        match r {
            Ok(ps) => spec_page_list(*manga_url, images@, *content) == Ok::<Seq<PageView>, SourceError>(page_views(ps@)),
            Err(e) => spec_page_list(*manga_url, images@, *content) == Err::<Seq<PageView>, SourceError>(e),
        },
{
    if is_novel(manga_url) {
        novel_pages(images, content)
    } else {
        image_pages(images)
    }
}

// ---------------------------------------------------------------------------
// Deep links
// ---------------------------------------------------------------------------

/// The manga a link opens: for a manga link, the last segment of its path
/// (query and trailing slashes left out), where there is one.
pub open spec fn spec_deep_link(url: Seq<char>) -> Option<Seq<char>> {
    if contains(url, "/manga/"@) {
        let key = after_last(trim_end_char(before_first(url, '?'), '/'), '/');
        if key.len() > 0 {
            Some(key)
        } else {
            None
        }
    } else {
        None
    }
}

/// The manga a link opens.
pub fn deep_link(url: &str) -> (r: Option<String>)
    ensures
        text_of(r) == spec_deep_link(url@),
{
    let u = chars_of(url);
    if contains_str(&u, "/manga/") {
        let path = before_first_chars(&u, '?');
        let clean = trim_end_char_chars(&path, '/');
        let key = after_last_chars(&clean, '/');
        if key.len() > 0 {
            return Some(string_of(&key));
        }
    }
    None
}


/// Law: a manga page leads back to its slug. For a non-empty slug without
/// `/` or `?`, resolving the slug of a manga known only by its page gives
/// the slug, and the page, with or without a type, opens the manga of that
/// slug as a deep link.
pub proof fn law_manga_url_round_trip(slug: Seq<char>, kind: Seq<char>)
    requires
        slug.len() > 0,
        !slug.contains('/'),
        !slug.contains('?'),
    ensures
        path_slug(spec_manga_url(slug)) == slug,
        spec_deep_link(spec_manga_url(slug)) == Some(slug),
        spec_deep_link(spec_typed_url(spec_manga_url(slug), kind)) == Some(slug),
{
    reveal_strlit("https://tsundoku.com.br");
    reveal_strlit("?type=");
    lemma_wp_manga_url(BASE_URL@, slug);
    let u = spec_manga_url(slug);
    let rest = "?type="@ + kind;
    assert(spec_typed_url(u, kind) == u + rest);
    assert(rest[0] == '?');
    lemma_before_first_concat(u, rest, '?');
    let p = "/manga/"@;
    let i = choose|i: int| crate::text::occurs_at(u, p, i);
    assert(crate::text::occurs_at(u, p, i));
    assert((u + rest).subrange(i, i + p.len()) =~= u.subrange(i, i + p.len()));
    assert(crate::text::occurs_at(u + rest, p, i));
}

/// Law: every entry of a listing has a non-empty key without `/`, and its
/// URL is the manga page of that key, with the type as query where it has
/// one.
#[verifier::spinoff_prover]
pub proof fn law_list_entries_shape(cards: Seq<ListCard>)
    ensures
        forall|i: int|
            0 <= i < spec_list_entries(cards).len() ==> {
                let e = #[trigger] spec_list_entries(cards)[i];
                &&& e.key.len() > 0
                &&& !e.key.contains('/')
                &&& (e.url == Some(spec_manga_url(e.key)) || exists|kind: Seq<char>|
                    e.url == Some(spec_typed_url(spec_manga_url(e.key), kind)))
            },
    decreases cards.len(),
{
    if cards.len() > 0 {
        law_list_entries_shape(cards.drop_last());
        lemma_after_last_free(trim_end_char(text_or_empty(cards.last().href), '/'), '/');
        let prev = spec_list_entries(cards.drop_last());
        assert forall|i: int| 0 <= i < spec_list_entries(cards).len() implies {
            let e = #[trigger] spec_list_entries(cards)[i];
            &&& e.key.len() > 0
            &&& !e.key.contains('/')
            &&& (e.url == Some(spec_manga_url(e.key)) || exists|kind: Seq<char>|
                e.url == Some(spec_typed_url(spec_manga_url(e.key), kind)))
        } by {
            if i < prev.len() {
                assert(spec_list_entries(cards)[i] == prev[i]);
            } else {
                let c = cards.last();
                let kind = trim(text_or_empty(c.kind));
                if kind.len() > 0 {
                    let e = spec_list_entries(cards)[i];
                    assert(e.url == Some(spec_typed_url(spec_manga_url(e.key), kind)));
                }
            }
        }
    }
}

proof fn lemma_has_key_push(d: Seq<EntryView>, e: EntryView, key: Seq<char>)
    ensures
        has_key(d.push(e), key) == (has_key(d, key) || e.key == key),
{
    if has_key(d, key) {
        let k = choose|k: int| 0 <= k < d.len() && (#[trigger] d[k]).key == key;
        assert(d.push(e)[k] == d[k]);
    }
    if e.key == key {
        assert(d.push(e)[d.len() as int] == e);
    }
    if has_key(d.push(e), key) {
        let k = choose|k: int| 0 <= k < d.push(e).len() && (#[trigger] d.push(e)[k]).key == key;
        if k < d.len() {
            assert(d.push(e)[k] == d[k]);
        }
    }
}

/// Law: a merged listing holds each key once, and every key of the pages
/// read is in it.
#[verifier::spinoff_prover]
pub proof fn law_unique_by_key(es: Seq<EntryView>)
    ensures
        forall|i: int, j: int|
            0 <= i < j < spec_unique_by_key(es).len() ==> spec_unique_by_key(es)[i].key
                != spec_unique_by_key(es)[j].key,
        forall|k: int| 0 <= k < es.len() ==> has_key(spec_unique_by_key(es), (#[trigger] es[k]).key),
    decreases es.len(),
{
    if es.len() > 0 {
        let rest = es.drop_last();
        law_unique_by_key(rest);
        let d = spec_unique_by_key(rest);
        let x = es.last();
        lemma_has_key_push(d, x, x.key);
        assert forall|k: int| 0 <= k < es.len() implies has_key(spec_unique_by_key(es), (#[trigger] es[k]).key) by {
            if k < rest.len() {
                assert(es[k] == rest[k]);
                assert(has_key(d, rest[k].key));
                lemma_has_key_push(d, x, rest[k].key);
            }
        }
        if !has_key(d, x.key) {
            let r = d.push(x);
            assert forall|i: int, j: int| 0 <= i < j < r.len() implies r[i].key != r[j].key by {
                if j == d.len() {
                    assert(r[i] == d[i]);
                    if r[i].key == x.key {
                        assert(has_key(d, x.key));
                    }
                } else {
                    assert(r[i] == d[i]);
                    assert(r[j] == d[j]);
                }
            }
        }
    }
}


/// What a listing card shows as an entry: keyed by its link's last segment,
/// titled by its title text, with its image as cover, its page (typed where
/// it has a type) as URL, and completed exactly where its status says so.
pub open spec fn shows_card(e: EntryView, c: ListCard) -> bool {
    let kind = trim(text_or_empty(c.kind));
    let page = wp_manga_url(BASE_URL@, path_slug(text_or_empty(c.href)));
    &&& e.key == path_slug(text_or_empty(c.href))
    &&& e.title == text_or_empty(c.title)
    &&& e.cover == text_of(c.cover)
    &&& e.url == Some(if kind.len() > 0 { page + "?type="@ + kind } else { page })
    &&& (e.status == MangaStatus::Completed) == contains(trim(text_or_empty(c.status)), "Completed"@)
    &&& e.status != MangaStatus::Completed ==> e.status == MangaStatus::Ongoing
}

/// Law: every entry of a listing shows one of its cards, and every card
/// with a link and a slug is shown by an entry.
#[verifier::spinoff_prover]
pub proof fn law_list_entries_from_cards(cards: Seq<ListCard>)
    ensures
        forall|i: int|
            0 <= i < spec_list_entries(cards).len() ==> exists|j: int|
                0 <= j < cards.len() && shows_card(#[trigger] spec_list_entries(cards)[i], cards[j]),
        forall|j: int|
            0 <= j < cards.len() && text_or_empty(cards[j].href).len() > 0 && path_slug(
                text_or_empty(#[trigger] cards[j].href),
            ).len() > 0 ==> exists|i: int|
                0 <= i < spec_list_entries(cards).len() && shows_card(spec_list_entries(cards)[i], cards[j]),
{
    let f = |c: ListCard| spec_card_entry(c);
    lemma_filter_map_sources(cards, f);
    let es = spec_list_entries(cards);
    assert forall|i: int| 0 <= i < es.len() implies exists|j: int|
        0 <= j < cards.len() && shows_card(#[trigger] es[i], cards[j]) by {
        let j = choose|j: int| 0 <= j < cards.len() && f(cards[j]) == Some(es[i]);
        assert(shows_card(es[i], cards[j]));
    }
    assert forall|j: int|
        0 <= j < cards.len() && text_or_empty(cards[j].href).len() > 0 && path_slug(
            text_or_empty(#[trigger] cards[j].href),
        ).len() > 0 implies exists|i: int| 0 <= i < es.len() && shows_card(es[i], cards[j]) by {
        assert(f(cards[j]) is Some);
        let i = choose|i: int| 0 <= i < es.len() && f(cards[j]) == Some(es[i]);
        assert(shows_card(es[i], cards[j]));
    }
}


/// What a chapter item shows as a chapter: keyed by its link, titled by its
/// trimmed number text, numbered by the number read from that title, and
/// dated by the query of its date text.
pub open spec fn shows_item(c: ChapterView, item: ChapterItem) -> bool {
    let title = trim(text_or_empty(item.number));
    &&& c.key == text_or_empty(item.href)
    &&& c.title == Some(title)
    &&& c.number == numeral_token(title)
    &&& c.date == match tsundoku_date_query(text_or_empty(item.date)) {
        Some(q) => seq![q],
        None => Seq::empty(),
    }
}

/// Law: every chapter of a manga page shows one of its items, and every
/// item with a link and a non-blank number text is shown by a chapter.
#[verifier::spinoff_prover]
pub proof fn law_chapters_from_items(items: Seq<ChapterItem>)
    ensures
        forall|i: int|
            0 <= i < spec_chapters(items).len() ==> exists|j: int|
                0 <= j < items.len() && shows_item(#[trigger] spec_chapters(items)[i], items[j]),
        forall|j: int|
            0 <= j < items.len() && text_or_empty(items[j].href).len() > 0 && trim(
                text_or_empty(#[trigger] items[j].number),
            ).len() > 0 ==> exists|i: int|
                0 <= i < spec_chapters(items).len() && shows_item(spec_chapters(items)[i], items[j]),
{
    let f = |c: ChapterItem| spec_chapter(c);
    lemma_filter_map_sources(items, f);
    let cs = spec_chapters(items);
    assert forall|i: int| 0 <= i < cs.len() implies exists|j: int|
        0 <= j < items.len() && shows_item(#[trigger] cs[i], items[j]) by {
        let j = choose|j: int| 0 <= j < items.len() && f(items[j]) == Some(cs[i]);
        lemma_trim_idempotent(text_or_empty(items[j].number));
        assert(shows_item(cs[i], items[j]));
    }
    assert forall|j: int|
        0 <= j < items.len() && text_or_empty(items[j].href).len() > 0 && trim(
            text_or_empty(#[trigger] items[j].number),
        ).len() > 0 implies exists|i: int| 0 <= i < cs.len() && shows_item(cs[i], items[j]) by {
        assert(f(items[j]) is Some);
        let i = choose|i: int| 0 <= i < cs.len() && f(items[j]) == Some(cs[i]);
        lemma_trim_idempotent(text_or_empty(items[j].number));
        assert(shows_item(cs[i], items[j]));
    }
}


/// Law: a lowercase status text is read as ongoing where it says
/// "ongoing", else completed where it says "completed", else unknown.
pub proof fn law_status_words(s: Seq<char>)
    ensures
        contains(s, "ongoing"@) ==> spec_status_of(s) == MangaStatus::Ongoing,
        !contains(s, "ongoing"@) && contains(s, "completed"@) ==> spec_status_of(s) == MangaStatus::Completed,
        !contains(s, "ongoing"@) && !contains(s, "completed"@) ==> spec_status_of(s) == MangaStatus::Unknown,
{
}


/// An information item that sets the status: its text says "Status" and it
/// has a status.
pub open spec fn sets_status(item: InfoItem) -> bool {
    contains(text_or_empty(item.text), "Status"@) && item.status is Some
}

/// An information item that sets the type: its text says "Tipo" but not
/// "Status", and it has a link.
pub open spec fn sets_kind(item: InfoItem) -> bool {
    !contains(text_or_empty(item.text), "Status"@) && contains(text_or_empty(item.text), "Tipo"@)
        && item.kind is Some
}

/// Law: after reading the information items, the status is that named by
/// the last item that sets one (the starting one where none does), and the
/// type is the link text of the last item that sets one (the starting one
/// where none does).
#[verifier::spinoff_prover]
#[verifier::rlimit(40)]
pub proof fn law_info_after(items: Seq<InfoItem>, start: (MangaStatus, Seq<char>))
    ensures
        (forall|k: int| 0 <= k < items.len() ==> !sets_status(#[trigger] items[k])) ==> spec_info_after(
            items,
            start,
        ).0 == start.0,
        forall|k: int|
            0 <= k < items.len() && sets_status(#[trigger] items[k]) && (forall|m: int|
                k < m < items.len() ==> !sets_status(items[m])) ==> spec_info_after(items, start).0
                == spec_status_of(lowercase(items[k].status->0@)),
        (forall|k: int| 0 <= k < items.len() ==> !sets_kind(#[trigger] items[k])) ==> spec_info_after(
            items,
            start,
        ).1 == start.1,
        forall|k: int|
            0 <= k < items.len() && sets_kind(#[trigger] items[k]) && (forall|m: int|
                k < m < items.len() ==> !sets_kind(items[m])) ==> spec_info_after(items, start).1
                == items[k].kind->0@,
    decreases items.len(),
{
    if items.len() > 0 {
        let r = items.drop_last();
        law_info_after(r, start);
        let n = items.len() - 1;
        assert(items[n] == items.last());
        assert forall|k: int| 0 <= k < r.len() implies r[k] == items[k] by {}
        if (forall|k: int| 0 <= k < items.len() ==> !sets_status(#[trigger] items[k])) {
            assert forall|k: int| 0 <= k < r.len() implies !sets_status(#[trigger] r[k]) by {
                assert(r[k] == items[k]);
            }
            assert(!sets_status(items[n]));
        }
        if (forall|k: int| 0 <= k < items.len() ==> !sets_kind(#[trigger] items[k])) {
            assert forall|k: int| 0 <= k < r.len() implies !sets_kind(#[trigger] r[k]) by {
                assert(r[k] == items[k]);
            }
            assert(!sets_kind(items[n]));
        }
        assert forall|k: int|
            0 <= k < items.len() && sets_status(#[trigger] items[k]) && (forall|m: int|
                k < m < items.len() ==> !sets_status(items[m])) implies spec_info_after(items, start).0
                == spec_status_of(lowercase(items[k].status->0@)) by {
            if k < n {
                assert(!sets_status(items[n]));
                assert(r[k] == items[k]);
                assert forall|m: int| k < m < r.len() implies !sets_status(r[m]) by {
                    assert(r[m] == items[m]);
                }
            }
        }
        assert forall|k: int|
            0 <= k < items.len() && sets_kind(#[trigger] items[k]) && (forall|m: int|
                k < m < items.len() ==> !sets_kind(items[m])) implies spec_info_after(items, start).1
                == items[k].kind->0@ by {
            if k < n {
                assert(!sets_kind(items[n]));
                assert(r[k] == items[k]);
                assert forall|m: int| k < m < r.len() implies !sets_kind(r[m]) by {
                    assert(r[m] == items[m]);
                }
            }
        }
    }
}

/// Law: the genre names are the texts of the genre links that have one, in
/// order: each name is the text of some link, each link's text is among
/// them, and there is none exactly when no link has a text.
#[verifier::spinoff_prover]
pub proof fn law_genre_names(genres: Seq<Option<String>>)
    ensures
        forall|i: int|
            0 <= i < spec_genre_names(genres).len() ==> exists|j: int|
                0 <= j < genres.len() && text_of(genres[j]) == Some(#[trigger] spec_genre_names(genres)[i]),
        forall|j: int|
            0 <= j < genres.len() && (#[trigger] genres[j]) is Some ==> exists|i: int|
                0 <= i < spec_genre_names(genres).len() && spec_genre_names(genres)[i] == genres[j]->0@,
        spec_genre_names(genres).len() == 0 <==> forall|j: int| 0 <= j < genres.len() ==> genres[j] is None,
{
    let f = |g: Option<String>| text_of(g);
    lemma_filter_map_sources(genres, f);
    let names = spec_genre_names(genres);
    assert forall|i: int| 0 <= i < names.len() implies exists|j: int|
        0 <= j < genres.len() && text_of(genres[j]) == Some(#[trigger] names[i]) by {
        let j = choose|j: int| 0 <= j < genres.len() && f(genres[j]) == Some(names[i]);
        assert(text_of(genres[j]) == Some(names[i]));
    }
    assert forall|j: int| 0 <= j < genres.len() && (#[trigger] genres[j]) is Some implies exists|i: int|
        0 <= i < names.len() && names[i] == genres[j]->0@ by {
        assert(f(genres[j]) == Some(genres[j]->0@));
        let i = choose|i: int| 0 <= i < names.len() && f(genres[j]) == Some(names[i]);
    }
    if names.len() == 0 {
        assert forall|j: int| 0 <= j < genres.len() implies genres[j] is None by {
            if genres[j] is Some {
                assert(f(genres[j]) is Some);
                let i = choose|i: int| 0 <= i < names.len() && f(genres[j]) == Some(names[i]);
            }
        }
    } else {
        let j = choose|j: int| 0 <= j < genres.len() && f(genres[j]) == Some(names[0]);
        assert(genres[j] is Some);
    }
}


/// Law: the image pages of a chapter are the addresses of its images that
/// are neither empty nor the reader's placeholder (nor, for a novel, an
/// "apoiar" banner): every page is such an address, and every such image
/// gives a page.
#[verifier::spinoff_prover]
pub proof fn law_image_list(images: Seq<Option<String>>, novel: bool)
    ensures
        forall|i: int|
            0 <= i < spec_image_list(images, novel).len() ==> exists|j: int|
                0 <= j < images.len() && images[j] is Some && #[trigger] spec_image_list(images, novel)[i]
                    == PageView::Url(images[j]->0@),
        forall|i: int|
            0 <= i < spec_image_list(images, novel).len() ==> ((#[trigger] spec_image_list(images, novel)[i]) matches PageView::Url(u) && u.len() > 0
                && !contains(u, "readerarea.svg"@) && (novel ==> !contains(u, "apoiar"@))),
        forall|j: int|
            0 <= j < images.len() && (#[trigger] images[j]) is Some && images[j]->0@.len() > 0 && !contains(
                images[j]->0@,
                "readerarea.svg"@,
            ) && (novel ==> !contains(images[j]->0@, "apoiar"@)) ==> exists|i: int|
                0 <= i < spec_image_list(images, novel).len() && spec_image_list(images, novel)[i]
                    == PageView::Url(images[j]->0@),
{
    let f = |s: Option<String>| spec_page_image(s, novel);
    lemma_filter_map_sources(images, f);
    let ps = spec_image_list(images, novel);
    assert forall|i: int| 0 <= i < ps.len() implies exists|j: int|
        0 <= j < images.len() && images[j] is Some && #[trigger] ps[i] == PageView::Url(images[j]->0@) by {
        let j = choose|j: int| 0 <= j < images.len() && f(images[j]) == Some(ps[i]);
    }
    assert forall|i: int| 0 <= i < ps.len() implies ((#[trigger] ps[i]) matches PageView::Url(u) && u.len() > 0
        && !contains(u, "readerarea.svg"@) && (novel ==> !contains(u, "apoiar"@))) by {
        let j = choose|j: int| 0 <= j < images.len() && f(images[j]) == Some(ps[i]);
    }
    assert forall|j: int|
        0 <= j < images.len() && (#[trigger] images[j]) is Some && images[j]->0@.len() > 0 && !contains(
            images[j]->0@,
            "readerarea.svg"@,
        ) && (novel ==> !contains(images[j]->0@, "apoiar"@)) implies exists|i: int|
            0 <= i < ps.len() && ps[i] == PageView::Url(images[j]->0@) by {
        assert(f(images[j]) is Some);
        let i = choose|i: int| 0 <= i < ps.len() && f(images[j]) == Some(ps[i]);
    }
}

} // verus!
