//! MangaFlix (mangaflix.net): browsing by its web pages, manga details,
//! chapters and pages by its JSON API.
use vstd::prelude::*;
use crate::common::{filter_map, lemma_filter_map_sources, lemma_filter_map_step, text_or_empty, text_or_empty_of, copy_opt};
use crate::model::{
    chapter_views, entry_views, opt_texts, query_views, text_of, texts, ChapterRecord, ChapterView,
    DateFormat, DateQuery, EntryView, MangaEntry, MangaPage, MangaRecord, MangaStatus,
};
use crate::sort::{sort_values_by_key, sorted_values};
use crate::text::{
    after_last, after_last_chars, chars_of, contains, contains_str, int_decimal, lemma_after_last_concat,
    lemma_after_last_free, lemma_contains_middle, push_all, push_int_decimal, push_str, starts_with,
    starts_with_str, string_of,
};

verus! {

/// The web site.
pub const BASE_URL: &'static str = "https://mangaflix.net";

/// The JSON API.
pub const API_URL: &'static str = "https://api.mangaflix.net";

// ---------------------------------------------------------------------------
// Browsing and search
// ---------------------------------------------------------------------------

/// The browse page to fetch: a search where there is a (percent-encoded)
/// query, else the plain listing.
pub open spec fn spec_browse_url(query: Option<Seq<char>>, page: int) -> Seq<char> {
    match query {
        Some(q) => BASE_URL@ + "/br/browse?search="@ + q + "&page="@ + int_decimal(page),
        None => BASE_URL@ + "/br/browse?page="@ + int_decimal(page),
    }
}

/// The browse page to fetch for an already percent-encoded query and a page
/// number.
pub fn browse_url(encoded_query: Option<String>, page: i32) -> (r: String)
    ensures
        r@ == spec_browse_url(text_of(encoded_query), page as int),
{
    let mut out: Vec<char> = Vec::new();
    push_str(&mut out, BASE_URL);
    match &encoded_query {
        Some(q) => {
            push_str(&mut out, "/br/browse?search=");
            push_str(&mut out, q.as_str());
            push_str(&mut out, "&page=");
        },
        None => {
            push_str(&mut out, "/br/browse?page=");
        },
    }
    push_int_decimal(&mut out, page);
    string_of(&out)
}

/// A card of the browse page: the `href` of the manga link, the text of its
/// last `span` and the `src` of its first `img`.
pub struct BrowseCard {
    pub href: Option<String>,
    pub title: Option<String>,
    pub image_src: Option<String>,
}

/// A cover address: absolute ones as they are, others under the site.
pub open spec fn spec_cover_url(s: Seq<char>) -> Seq<char> {
    if starts_with(s, "http"@) {
        s
    } else {
        BASE_URL@ + s
    }
}

/// The page of the manga with key `key`.
pub open spec fn spec_manga_url(key: Seq<char>) -> Seq<char> {
    BASE_URL@ + "/br/manga/"@ + key
}

/// The entry a card gives: none where its link ends in `/` or is missing;
/// else keyed by the link's last segment.
pub open spec fn spec_card_entry(c: BrowseCard) -> Option<EntryView> {
    let key = after_last(text_or_empty(c.href), '/');
    if key.len() == 0 {
        None
    } else {
        Some(
            EntryView {
                key: key,
                title: text_or_empty(c.title),
                cover: match c.image_src {
                    Some(s) => Some(spec_cover_url(s@)),
                    None => None,
                },
                url: Some(spec_manga_url(key)),
                status: MangaStatus::Unknown,
            },
        )
    }
}

/// The entries of a browse page, in card order.
pub open spec fn spec_browse_entries(cards: Seq<BrowseCard>) -> Seq<EntryView> {
    filter_map(cards, |c: BrowseCard| spec_card_entry(c))
}

fn manga_url_of(key: &Vec<char>) -> (r: Vec<char>)
    ensures
        r@ == spec_manga_url(key@),
{
    let mut out: Vec<char> = Vec::new();
    push_str(&mut out, BASE_URL);
    push_str(&mut out, "/br/manga/");
    push_all(&mut out, key);
    out
}

fn card_entry(c: &BrowseCard) -> (r: Option<MangaEntry>)
    ensures
        match r {
            Some(e) => spec_card_entry(*c) == Some(e@),
            None => spec_card_entry(*c) is None,
        },
{
    let href = text_or_empty_of(&c.href);
    let key = after_last_chars(&href, '/');
    if key.len() == 0 {
        return None;
    }
    let title = text_or_empty_of(&c.title);
    let cover = match &c.image_src {
        Some(s) => {
            let sv = chars_of(s.as_str());
            if starts_with_str(&sv, "http") {
                Some(s.clone())
            } else {
                let mut out: Vec<char> = Vec::new();
                push_str(&mut out, BASE_URL);
                push_all(&mut out, &sv);
                Some(string_of(&out))
            }
        },
        None => None,
    };
    let url = manga_url_of(&key);
    let e = MangaEntry {
        key: string_of(&key),
        title: string_of(&title),
        cover: cover,
        url: Some(string_of(&url)),
        status: MangaStatus::Unknown,
    };
    Some(e)
}

proof fn lemma_entry_views_push(es: Seq<MangaEntry>, e: MangaEntry)
    ensures
        entry_views(es.push(e)) == entry_views(es).push(e@),
{
    assert(entry_views(es.push(e)) =~= entry_views(es).push(e@));
}

/// The entries of a browse page; a full page (20 entries or more) means
/// there may be a next one.
pub fn browse_page(cards: Vec<BrowseCard>) -> (r: MangaPage)
    ensures
        entry_views(r.entries@) == spec_browse_entries(cards@),
        r.has_next_page == (r.entries@.len() >= 20),
{
    let mut entries: Vec<MangaEntry> = Vec::new();
    let mut i: usize = 0;
    proof {
        assert(entry_views(entries@) =~= Seq::<EntryView>::empty());
        assert(cards@.take(0) == Seq::<BrowseCard>::empty());
    }
    while i < cards.len()
        invariant
            i <= cards@.len(),
            entry_views(entries@) == filter_map(cards@.take(i as int), |c: BrowseCard| spec_card_entry(c)),
        decreases cards.len() - i,
    {
        proof {
            lemma_filter_map_step(cards@, |c: BrowseCard| spec_card_entry(c), i as int);
        }
        match card_entry(&cards[i]) {
            Some(e) => {
                proof {
                    lemma_entry_views_push(entries@, e);
                }
                entries.push(e);
            },
            None => {},
        }
        i = i + 1;
    }
    proof {
        assert(cards@.take(cards@.len() as int) == cards@);
    }
    let has_next_page = entries.len() >= 20;
    MangaPage { entries, has_next_page }
}

/// Each entry of a browse page has a key without `/` and, as its URL, the
/// manga page of that key.
pub proof fn lemma_browse_entries_shape(cards: Seq<BrowseCard>)
    ensures
        forall|i: int|
            0 <= i < spec_browse_entries(cards).len() ==> {
                let e = #[trigger] spec_browse_entries(cards)[i];
                &&& !e.key.contains('/')
                &&& e.key.len() > 0
                &&& e.url == Some(spec_manga_url(e.key))
            },
    decreases cards.len(),
{
    if cards.len() > 0 {
        lemma_browse_entries_shape(cards.drop_last());
        lemma_after_last_free(text_or_empty(cards.last().href), '/');
        let prev = spec_browse_entries(cards.drop_last());
        assert forall|i: int| 0 <= i < spec_browse_entries(cards).len() implies {
            let e = #[trigger] spec_browse_entries(cards)[i];
            &&& !e.key.contains('/')
            &&& e.key.len() > 0
            &&& e.url == Some(spec_manga_url(e.key))
        } by {
            if i < prev.len() {
                assert(spec_browse_entries(cards)[i] == prev[i]);
            }
        }
    }
}

// ---------------------------------------------------------------------------
// Manga details and chapters (JSON API)
// ---------------------------------------------------------------------------

/// The API address of a manga.
pub open spec fn spec_manga_api_url(key: Seq<char>) -> Seq<char> {
    API_URL@ + "/v1/mangas/"@ + key
}

/// The API address of a chapter.
pub open spec fn spec_chapter_api_url(key: Seq<char>) -> Seq<char> {
    API_URL@ + "/v1/chapters/"@ + key
}

/// The API address of the manga with key `key`.
pub fn manga_api_url(key: &str) -> (r: String)
    ensures
        r@ == spec_manga_api_url(key@),
{
    let mut out: Vec<char> = Vec::new();
    push_str(&mut out, API_URL);
    push_str(&mut out, "/v1/mangas/");
    push_str(&mut out, key);
    string_of(&out)
}

/// The API address of the chapter with key `key`.
pub fn chapter_api_url(key: &str) -> (r: String)
    ensures
        r@ == spec_chapter_api_url(key@),
{
    let mut out: Vec<char> = Vec::new();
    push_str(&mut out, API_URL);
    push_str(&mut out, "/v1/chapters/");
    push_str(&mut out, key);
    string_of(&out)
}

/// The poster of a manga in the API answer.
pub struct PosterData {
    pub default_url: Option<String>,
}

/// A genre of a manga in the API answer.
pub struct GenreData {
    pub id: String,
    pub name: String,
}

/// A chapter of a manga in the API answer.
pub struct ChapterData {
    pub id: String,
    pub number: String,
    pub name: Option<String>,
    pub number_of_pages: Option<i32>,
    pub release_date: Option<String>,
}

/// A manga in the API answer.
pub struct MangaData {
    pub id: String,
    pub name: String,
    pub description: Option<String>,
    pub poster: Option<PosterData>,
    pub genres: Option<Vec<GenreData>>,
    pub chapters: Option<Vec<ChapterData>>,
}

/// The cover address of a poster.
pub open spec fn spec_poster_url(p: Option<PosterData>) -> Option<Seq<char>> {
    match p {
        Some(p) => text_of(p.default_url),
        None => None,
    }
}

/// The genre names, in order.
pub open spec fn spec_genre_names(genres: Option<Vec<GenreData>>) -> Seq<Seq<char>> {
    match genres {
        Some(g) => g@.map_values(|x: GenreData| x.name@),
        None => Seq::empty(),
    }
}

/// The tags of a manga: its genre names, or none where it has no genre.
pub open spec fn spec_tags(genres: Option<Vec<GenreData>>) -> Option<Seq<Seq<char>>> {
    if spec_genre_names(genres).len() == 0 {
        None
    } else {
        Some(spec_genre_names(genres))
    }
}

/// Law: a manga's tags are the names of its genres, one per genre and in
/// the answer's order; it has no tags exactly when the answer lists no
/// genre.
#[verifier::spinoff_prover]
pub proof fn law_tags(genres: Option<Vec<GenreData>>)
    ensures
        spec_tags(genres) is None <==> (genres is None || genres->0@.len() == 0),
        spec_tags(genres) matches Some(t) ==> ({
            let g = genres->0@;
            &&& t.len() == g.len()
            &&& forall|k: int| 0 <= k < g.len() ==> t[k] == (#[trigger] g[k]).name@
        }),
{
}

/// A chapter of the API answer as a chapter: its number text is read as a
/// number (0 where it does not read) and its release date as an ISO
/// timestamp.
pub open spec fn spec_chapter(c: ChapterData) -> ChapterView {
    ChapterView {
        key: c.id@,
        title: text_of(c.name),
        number: Some(c.number@),
        date: match c.release_date {
            Some(d) => seq![(d@, DateFormat::IsoTimestamp)],
            None => Seq::empty(),
        },
    }
}

/// The chapters of an API answer, newest first: the answer lists them oldest
/// first, so the list is reversed.
pub open spec fn spec_chapters_reversed(out: Seq<ChapterView>, chapters: Option<Vec<ChapterData>>) -> bool {
    match chapters {
        Some(v) => out.len() == v@.len() && forall|i: int|
            0 <= i < out.len() ==> out[i] == spec_chapter(#[trigger] v@[v@.len() - 1 - i]),
        None => out.len() == 0,
    }
}

fn chapter_of(c: &ChapterData) -> (r: ChapterRecord)
    ensures
        r@ == spec_chapter(*c),
{
    let mut date: Vec<DateQuery> = Vec::new();
    match &c.release_date {
        Some(d) => {
            date.push(DateQuery { text: d.clone(), format: DateFormat::IsoTimestamp });
        },
        None => {},
    }
    let r = ChapterRecord {
        key: c.id.clone(),
        title: copy_opt(&c.name),
        number: Some(c.number.clone()),
        date: date,
    };
    proof {
        assert(query_views(r.date@) =~= spec_chapter(*c).date);
    }
    r
}

proof fn lemma_chapter_views_push(cs: Seq<ChapterRecord>, c: ChapterRecord)
    ensures
        chapter_views(cs.push(c)) == chapter_views(cs).push(c@),
{
    assert(chapter_views(cs.push(c)) =~= chapter_views(cs).push(c@));
}

fn chapters_reversed(chapters: &Option<Vec<ChapterData>>) -> (r: Vec<ChapterRecord>)
    ensures
        spec_chapters_reversed(chapter_views(r@), *chapters),
{
    let mut out: Vec<ChapterRecord> = Vec::new();
    match chapters {
        Some(v) => {
            let n = v.len();
            let mut i: usize = 0;
            while i < n
                invariant
                    i <= n == v@.len(),
                    chapter_views(out@).len() == i,
                    forall|k: int|
                        0 <= k < i ==> chapter_views(out@)[k] == spec_chapter(#[trigger] v@[n - 1 - k]),
                decreases n - i,
            {
                let c = chapter_of(&v[n - 1 - i]);
                proof {
                    lemma_chapter_views_push(out@, c);
                }
                out.push(c);
                i = i + 1;
            }
        },
        None => {},
    }
    out
}

fn strings_clone(v: &Vec<String>) -> (r: Vec<String>)
    ensures
        texts(r@) == texts(v@),
{
    let mut out: Vec<String> = Vec::new();
    let mut i: usize = 0;
    while i < v.len()
        invariant
            i <= v@.len(),
            texts(out@) == texts(v@.take(i as int)),
        decreases v.len() - i,
    {
        let c = v[i].clone();
        let ghost before = out@;
        out.push(c);
        i = i + 1;
        proof {
            assert(c@ == v@[i - 1]@);
            assert(v@.take(i as int) == v@.take(i - 1).push(v@[i - 1]));
            assert(texts(before.push(c)) =~= texts(before).push(c@));
            assert(texts(v@.take(i - 1).push(v@[i - 1])) =~= texts(v@.take(i - 1)).push(v@[i - 1]@));
        }
    }
    proof {
        assert(v@.take(v@.len() as int) == v@);
    }
    out
}

/// Updates a manga from the API answer: with `needs_details`, its title,
/// description, cover, status (ongoing), URL and tags; with
/// `needs_chapters`, returns its chapters newest first.
pub fn update_manga(manga: &mut MangaRecord, data: MangaData, needs_details: bool, needs_chapters: bool) -> (chapters: Option<Vec<ChapterRecord>>)
    ensures
        needs_details ==> {
            &&& final(manga).key == old(manga).key
            &&& final(manga).title@ == data.name@
            &&& text_of(final(manga).description) == text_of(data.description)
            &&& text_of(final(manga).cover) == spec_poster_url(data.poster)
            &&& final(manga).status == MangaStatus::Ongoing
            &&& text_of(final(manga).url) == Some(spec_manga_url(old(manga).key@))
            &&& opt_texts(final(manga).tags) == spec_tags(data.genres)
        },
        !needs_details ==> *final(manga) == *old(manga),
        needs_chapters ==> (chapters matches Some(cs) && spec_chapters_reversed(chapter_views(cs@), data.chapters)),
        !needs_chapters ==> chapters is None,
{
    if needs_details {
        manga.title = data.name.clone();
        manga.description = copy_opt(&data.description);
        manga.cover = match &data.poster {
            Some(p) => copy_opt(&p.default_url),
            None => None,
        };
        manga.status = MangaStatus::Ongoing;
        let key = chars_of(manga.key.as_str());
        let url = manga_url_of(&key);
        manga.url = Some(string_of(&url));
        let mut tags: Vec<String> = Vec::new();
        match &data.genres {
            Some(genres) => {
                let mut i: usize = 0;
                while i < genres.len()
                    invariant
                        i <= genres@.len(),
                        texts(tags@) == genres@.take(i as int).map_values(|x: GenreData| x.name@),
                    decreases genres.len() - i,
                {
                    let c = genres[i].name.clone();
                    let ghost before = tags@;
                    tags.push(c);
                    i = i + 1;
                    proof {
                        assert(c@ == genres@[i - 1].name@);
                        assert(genres@.take(i as int) == genres@.take(i - 1).push(genres@[i - 1]));
                        assert(texts(before.push(c)) =~= texts(before).push(c@));
                        assert(genres@.take(i - 1).push(genres@[i - 1]).map_values(|x: GenreData| x.name@)
                            =~= genres@.take(i - 1).map_values(|x: GenreData| x.name@).push(genres@[i - 1].name@));
                    }
                }
                proof {
                    assert(genres@.take(genres@.len() as int) == genres@);
                }
            },
            None => {
                proof {
                    assert(texts(tags@) =~= Seq::<Seq<char>>::empty());
                }
            },
        }
        manga.tags = if tags.len() == 0 {
            None
        } else {
            Some(strings_clone(&tags))
        };
    }
    if needs_chapters {
        Some(chapters_reversed(&data.chapters))
    } else {
        None
    }
}

// ---------------------------------------------------------------------------
// Reader pages (JSON API)
// ---------------------------------------------------------------------------

/// An image of a chapter in the API answer.
pub struct ImageData {
    pub id: String,
    pub default_url: String,
    pub order: i32,
}

/// An image that has an address, keyed by its order.
pub open spec fn spec_kept_image(im: ImageData) -> Option<(i64, String)> {
    if im.default_url@.len() > 0 {
        Some((im.order as i64, im.default_url))
    } else {
        None
    }
}

/// The images of a chapter that have an address, in answer order.
pub open spec fn spec_kept_images(images: Seq<ImageData>) -> Seq<(i64, String)> {
    filter_map(images, |im: ImageData| spec_kept_image(im))
}

/// The page addresses of a chapter: the images that have an address,
/// stably sorted by their order.
pub fn page_urls(images: Vec<ImageData>) -> (r: Vec<String>)
    ensures
        sorted_values(r@, spec_kept_images(images@), false),
{
    let ghost all = images@;
    let mut kept: Vec<(i64, String)> = Vec::new();
    for im in it: images.into_iter()
        invariant
            it.seq() == all,
            kept@ == filter_map(all.take(it.index() as int), |im: ImageData| spec_kept_image(im)),
    {
        proof {
            lemma_filter_map_step(all, |im: ImageData| spec_kept_image(im), it.index() as int);
        }
        if !im.default_url.as_str().is_empty() {
            let order = im.order as i64;
            kept.push((order, im.default_url));
        }
    }
    proof {
        assert(all.take(all.len() as int) == all);
    }
    sort_values_by_key(kept, false)
}

// ---------------------------------------------------------------------------
// Deep links
// ---------------------------------------------------------------------------

/// The manga a link opens: for a link to a manga page, the key after its
/// last `/`; no manga for other links.
pub fn deep_link(url: &str) -> (r: Option<String>)
    ensures
        match r {
            Some(k) => contains(url@, "/br/manga/"@) && k@ == after_last(url@, '/'),
            None => !contains(url@, "/br/manga/"@),
        },
{
    let u = chars_of(url);
    if contains_str(&u, "/br/manga/") {
        let k = after_last_chars(&u, '/');
        Some(string_of(&k))
    } else {
        None
    }
}

/// Law: the URL of a manga leads back to its key. For a key without `/`,
/// the manga page is a manga link and its last segment is the key, so
/// `deep_link` of it gives the key.
pub proof fn law_manga_url_deep_link(key: Seq<char>)
    requires
        !key.contains('/'),
    ensures
        contains(spec_manga_url(key), "/br/manga/"@),
        after_last(spec_manga_url(key), '/') == key,
{
    reveal_strlit("/br/manga/");
    lemma_contains_middle(BASE_URL@, "/br/manga/"@, key);
    assert(spec_manga_url(key) == (BASE_URL@ + "/br/manga/"@) + key);
    lemma_after_last_concat(BASE_URL@ + "/br/manga/"@, key, '/');
}

/// Law: every entry of a browse page opens, as a deep link, the manga it
/// lists.
pub proof fn law_browse_entry_deep_link(cards: Seq<BrowseCard>, i: int)
    requires
        0 <= i < spec_browse_entries(cards).len(),
    ensures
        spec_browse_entries(cards)[i].url matches Some(u) && contains(u, "/br/manga/"@) && after_last(u, '/')
            == spec_browse_entries(cards)[i].key,
{
    lemma_browse_entries_shape(cards);
    let e = spec_browse_entries(cards)[i];
    law_manga_url_deep_link(e.key);
}


/// What a browse card shows as an entry: keyed by what follows the last `/`
/// of its link, titled by its title text, with its image (put under the
/// site unless it starts with "http") as cover, its manga page as URL, and
/// no known status.
pub open spec fn shows_card(e: EntryView, c: BrowseCard) -> bool {
    let key = after_last(text_or_empty(c.href), '/');
    &&& e.key == key
    &&& e.title == text_or_empty(c.title)
    &&& e.cover == match c.image_src {
        Some(s) => Some(if starts_with(s@, "http"@) { s@ } else { BASE_URL@ + s@ }),
        None => None,
    }
    &&& e.url == Some(BASE_URL@ + "/br/manga/"@ + key)
    &&& e.status == MangaStatus::Unknown
}

/// Law: every entry of a browse page shows one of its cards, and every card
/// whose link does not end in `/` is shown by an entry.
#[verifier::spinoff_prover]
pub proof fn law_browse_entries_from_cards(cards: Seq<BrowseCard>)
    ensures
        forall|i: int|
            0 <= i < spec_browse_entries(cards).len() ==> exists|j: int|
                0 <= j < cards.len() && shows_card(#[trigger] spec_browse_entries(cards)[i], cards[j]),
        forall|j: int|
            0 <= j < cards.len() && after_last(text_or_empty(#[trigger] cards[j].href), '/').len() > 0
                ==> exists|i: int|
                0 <= i < spec_browse_entries(cards).len() && shows_card(spec_browse_entries(cards)[i], cards[j]),
{
    let f = |c: BrowseCard| spec_card_entry(c);
    lemma_filter_map_sources(cards, f);
    let es = spec_browse_entries(cards);
    assert forall|i: int| 0 <= i < es.len() implies exists|j: int|
        0 <= j < cards.len() && shows_card(#[trigger] es[i], cards[j]) by {
        let j = choose|j: int| 0 <= j < cards.len() && f(cards[j]) == Some(es[i]);
        assert(shows_card(es[i], cards[j]));
    }
    assert forall|j: int|
        0 <= j < cards.len() && after_last(text_or_empty(#[trigger] cards[j].href), '/').len() > 0
            implies exists|i: int| 0 <= i < es.len() && shows_card(es[i], cards[j]) by {
        assert(f(cards[j]) is Some);
        let i = choose|i: int| 0 <= i < es.len() && f(cards[j]) == Some(es[i]);
        assert(shows_card(es[i], cards[j]));
    }
}


/// Law: the chapters of an API answer are its chapters from last to first,
/// each keyed by its id, titled by its name, numbered by its number text and
/// dated by its release date read as an ISO timestamp.
pub proof fn law_chapters_reversed(out: Seq<ChapterView>, v: Seq<ChapterData>)
    requires
        out.len() == v.len(),
        forall|i: int| 0 <= i < out.len() ==> out[i] == spec_chapter(#[trigger] v[v.len() - 1 - i]),
    ensures
        forall|i: int|
            0 <= i < out.len() ==> {
                let c = v[v.len() - 1 - i];
                &&& (#[trigger] out[i]).key == c.id@
                &&& out[i].title == text_of(c.name)
                &&& out[i].number == Some(c.number@)
                &&& out[i].date == match c.release_date {
                    Some(d) => seq![(d@, DateFormat::IsoTimestamp)],
                    None => Seq::empty(),
                }
            },
{
    assert forall|i: int| 0 <= i < out.len() implies {
        let c = v[v.len() - 1 - i];
        &&& (#[trigger] out[i]).key == c.id@
        &&& out[i].title == text_of(c.name)
        &&& out[i].number == Some(c.number@)
        &&& out[i].date == match c.release_date {
            Some(d) => seq![(d@, DateFormat::IsoTimestamp)],
            None => Seq::empty(),
        }
    } by {
        assert(out[i] == spec_chapter(v[v.len() - 1 - i]));
    }
}


/// An image kept for the pages: it has an address, and is keyed by its
/// order.
pub open spec fn kept_from(k: (i64, String), im: ImageData) -> bool {
    &&& im.default_url@.len() > 0
    &&& k.0 == im.order as i64
    &&& k.1 == im.default_url
}

/// Law: the images kept for the pages are those with an address, each keyed
/// by its order: every kept image is one of the answer's with an address,
/// and every image with an address is kept.
#[verifier::spinoff_prover]
pub proof fn law_kept_images(images: Seq<ImageData>)
    ensures
        forall|i: int|
            0 <= i < spec_kept_images(images).len() ==> exists|j: int|
                0 <= j < images.len() && kept_from(#[trigger] spec_kept_images(images)[i], images[j]),
        forall|j: int|
            0 <= j < images.len() && (#[trigger] images[j]).default_url@.len() > 0 ==> exists|i: int|
                0 <= i < spec_kept_images(images).len() && kept_from(spec_kept_images(images)[i], images[j]),
{
    let f = |im: ImageData| spec_kept_image(im);
    lemma_filter_map_sources(images, f);
    let ks = spec_kept_images(images);
    assert forall|i: int| 0 <= i < ks.len() implies exists|j: int|
        0 <= j < images.len() && kept_from(#[trigger] ks[i], images[j]) by {
        let j = choose|j: int| 0 <= j < images.len() && f(images[j]) == Some(ks[i]);
        assert(kept_from(ks[i], images[j]));
    }
    assert forall|j: int| 0 <= j < images.len() && (#[trigger] images[j]).default_url@.len() > 0 implies exists|i: int|
        0 <= i < ks.len() && kept_from(ks[i], images[j]) by {
        assert(f(images[j]) is Some);
        let i = choose|i: int| 0 <= i < ks.len() && f(images[j]) == Some(ks[i]);
        assert(kept_from(ks[i], images[j]));
    }
}

} // verus!
