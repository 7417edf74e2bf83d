//! NinjaComics (ninjacomics.xyz), a WordPress Madara site: listings,
//! search, manga pages, chapters and reader pages.
use vstd::prelude::*;
use crate::common::{
    filter_map, lemma_filter_map_sources, first_present, lemma_wp_manga_url, wp_manga_url, first_present_of, lemma_filter_map_step, manga_slug, manga_slug_of,
    numeral_token, numeral_token_of, path_slug, path_slug_of, text_or_empty, text_or_empty_of,
};
use crate::dates::{ninja_date_queries, ninja_date_queries_of};
use crate::model::{
    chapter_views, entry_views, opt_texts, page_views, text_of, texts, ChapterRecord, ChapterView,
    EntryView, MangaEntry, MangaRecord, MangaStatus, PageRecord, PageView, SourceError,
};
use crate::sort::{sort_values_by_key, sorted_values};
use crate::text::{
    after_last, before_first, before_first_chars, chars_of, contains, contains_str, equal_str,
    lemma_after_last_free, lowercase, lowercase_chars, push_all, push_str,
    string_of, trim, trim_chars, trim_end_char, trim_end_char_chars, after_last_chars,
};

verus! {

/// The web site.
pub const BASE_URL: &'static str = "https://ninjacomics.xyz";

// ---------------------------------------------------------------------------
// Listings and search
// ---------------------------------------------------------------------------

/// The search page for a query.
pub open spec fn spec_search_url(q: Seq<char>) -> Seq<char> {
    BASE_URL@ + "/?s="@ + q + "&post_type=wp-manga"@
}

/// The search page to fetch: none without a query, whose result is then an
/// empty page.
pub fn search_url(query: Option<String>) -> (r: Option<String>)
    ensures
        text_of(r) == match query {
            Some(q) => Some(spec_search_url(q@)),
            None => None,
        },
{
    match &query {
        Some(q) => {
            let mut out: Vec<char> = Vec::new();
            push_str(&mut out, BASE_URL);
            push_str(&mut out, "/?s=");
            push_str(&mut out, q.as_str());
            push_str(&mut out, "&post_type=wp-manga");
            Some(string_of(&out))
        },
        None => None,
    }
}

/// The page of a listing: the most viewed, the newest, or the whole
/// catalogue for any other listing.
pub open spec fn spec_listing_url(id: Seq<char>) -> Seq<char> {
    if id == "popular"@ {
        BASE_URL@ + "/manga/?m_orderby=views"@
    } else if id == "new"@ {
        BASE_URL@ + "/manga/?m_orderby=new-manga"@
    } else {
        BASE_URL@ + "/manga/"@
    }
}

/// The page to fetch for a listing.
pub fn listing_url(listing_id: &str) -> (r: String)
    ensures
        r@ == spec_listing_url(listing_id@),
{
    let id = chars_of(listing_id);
    let mut out: Vec<char> = Vec::new();
    push_str(&mut out, BASE_URL);
    if equal_str(&id, "popular") {
        push_str(&mut out, "/manga/?m_orderby=views");
    } else if equal_str(&id, "new") {
        push_str(&mut out, "/manga/?m_orderby=new-manga");
    } else {
        push_str(&mut out, "/manga/");
    }
    string_of(&out)
}

/// A card of a listing (`.page-item-detail`): the `href` of its thumbnail
/// link, the text of its title link, the `data-src` and `src` of its
/// thumbnail image and the text of its badges.
pub struct ListCard {
    pub href: Option<String>,
    pub title: Option<String>,
    pub cover_data_src: Option<String>,
    pub cover_src: Option<String>,
    pub badges: Option<String>,
}

/// The page of the manga with slug `slug`.
pub open spec fn spec_manga_url(slug: Seq<char>) -> Seq<char> {
    wp_manga_url(BASE_URL@, slug)
}

/// A finished series is marked "finalizada" or "completed" in its
/// lowercased badges.
pub open spec fn spec_badge_status(badges: Seq<char>) -> MangaStatus {
    if contains(badges, "finalizada"@) || contains(badges, "completed"@) {
        MangaStatus::Completed
    } else {
        MangaStatus::Ongoing
    }
}

/// The entry a card gives: none without a link or a slug; else keyed by the
/// link's last segment.
pub open spec fn spec_card_entry(c: ListCard) -> Option<EntryView> {
    let url = text_or_empty(c.href);
    let slug = path_slug(url);
    if url.len() == 0 || slug.len() == 0 {
        None
    } else {
        Some(
            EntryView {
                key: slug,
                title: text_or_empty(c.title),
                cover: first_present(c.cover_data_src, c.cover_src),
                url: Some(spec_manga_url(slug)),
                status: spec_badge_status(lowercase(text_or_empty(c.badges))),
            },
        )
    }
}

/// The entries of a listing or search page, in card order.
pub open spec fn spec_list_entries(cards: Seq<ListCard>) -> Seq<EntryView> {
    filter_map(cards, |c: ListCard| spec_card_entry(c))
}

fn manga_url_of(slug: &Vec<char>) -> (r: Vec<char>)
    ensures
        r@ == spec_manga_url(slug@),
{
    let mut out: Vec<char> = Vec::new();
    push_str(&mut out, BASE_URL);
    push_str(&mut out, "/manga/");
    push_all(&mut out, slug);
    push_str(&mut out, "/");
    out
}

fn badge_status(badges: &Option<String>) -> (r: MangaStatus)
    ensures
        r == spec_badge_status(lowercase(text_or_empty(*badges))),
{
    let b = text_or_empty_of(badges);
    let l = lowercase_chars(&b);
    badge_status_named(string_of(&l).as_str())
}

/// The status that lowercased badges name.
pub fn badge_status_named(lowered: &str) -> (r: MangaStatus)
    ensures
        r == spec_badge_status(lowered@),
{
    let l = chars_of(lowered);
    if contains_str(&l, "finalizada") || contains_str(&l, "completed") {
        MangaStatus::Completed
    } else {
        MangaStatus::Ongoing
    }
}

fn card_entry(c: &ListCard) -> (r: Option<MangaEntry>)
    ensures
        match r {
            Some(e) => spec_card_entry(*c) == Some(e@),
            None => spec_card_entry(*c) is None,
        },
{
    let url = text_or_empty_of(&c.href);
    if url.len() == 0 {
        return None;
    }
    let slug = path_slug_of(&url);
    if slug.len() == 0 {
        return None;
    }
    let title = text_or_empty_of(&c.title);
    let page = manga_url_of(&slug);
    Some(
        MangaEntry {
            key: string_of(&slug),
            title: string_of(&title),
            cover: first_present_of(&c.cover_data_src, &c.cover_src),
            url: Some(string_of(&page)),
            status: badge_status(&c.badges),
        },
    )
}

proof fn lemma_entry_views_push(es: Seq<MangaEntry>, e: MangaEntry)
    ensures
        entry_views(es.push(e)) == entry_views(es).push(e@),
{
    assert(entry_views(es.push(e)) =~= entry_views(es).push(e@));
}

/// The entries of a listing or search page.
pub fn list_entries(cards: Vec<ListCard>) -> (r: Vec<MangaEntry>)
    ensures
        entry_views(r@) == spec_list_entries(cards@),
{
    let mut entries: Vec<MangaEntry> = Vec::new();
    let mut i: usize = 0;
    proof {
        assert(entry_views(entries@) =~= Seq::<EntryView>::empty());
    }
    while i < cards.len()
        invariant
            i <= cards@.len(),
            entry_views(entries@) == filter_map(cards@.take(i as int), |c: ListCard| spec_card_entry(c)),
        decreases cards.len() - i,
    {
        proof {
            lemma_filter_map_step(cards@, |c: ListCard| spec_card_entry(c), i as int);
        }
        match card_entry(&cards[i]) {
            Some(e) => {
                proof {
                    lemma_entry_views_push(entries@, e);
                }
                entries.push(e);
            },
            None => {},
        }
        i = i + 1;
    }
    proof {
        assert(cards@.take(cards@.len() as int) == cards@);
    }
    entries
}

// ---------------------------------------------------------------------------
// Manga page
// ---------------------------------------------------------------------------

/// The page of a manga to update: from its key, or else from the last
/// segment of its URL; an error where neither gives a slug.
pub open spec fn spec_manga_page_url(key: Seq<char>, url: Option<String>) -> Result<Seq<char>, SourceError> {
    let slug = manga_slug(key, url);
    if slug.len() == 0 {
        Err(SourceError::InvalidSlug)
    } else {
        Ok(spec_manga_url(slug))
    }
}

/// The page to fetch to update a manga with this key and URL.
pub fn manga_page_url(key: &str, url: &Option<String>) -> (r: Result<String, SourceError>)
    ensures
        match r {
            Ok(u) => spec_manga_page_url(key@, *url) == Ok::<Seq<char>, SourceError>(u@),
            Err(e) => spec_manga_page_url(key@, *url) == Err::<Seq<char>, SourceError>(e),
        },
{
    let slug = manga_slug_of(key, url);
    if slug.len() == 0 {
        Err(SourceError::InvalidSlug)
    } else {
        let u = manga_url_of(&slug);
        Ok(string_of(&u))
    }
}

/// An item of the manga's information (`.post-content_item`): its whole
/// text and the text of its `.summary-content`.
pub struct InfoItem {
    pub text: Option<String>,
    pub value: Option<String>,
}

/// What the manga page shows: the title, the `data-src` and `src` of the
/// cover, the summary, the information items and the genre links' texts.
pub struct MangaDetails {
    pub title: Option<String>,
    pub cover_data_src: Option<String>,
    pub cover_src: Option<String>,
    pub description: Option<String>,
    pub info: Vec<InfoItem>,
    pub genres: Vec<Option<String>>,
}

/// The status that a lowercase status text names, Portuguese or English.
pub open spec fn spec_status_of(s: Seq<char>) -> MangaStatus {
    if contains(s, "ongoing"@) || contains(s, "em dia"@) {
        MangaStatus::Ongoing
    } else if contains(s, "completed"@) || contains(s, "finalizada"@) {
        MangaStatus::Completed
    } else if contains(s, "hiatus"@) || contains(s, "hiato"@) {
        MangaStatus::Hiatus
    } else if contains(s, "cancelled"@) || contains(s, "cancelada"@) {
        MangaStatus::Cancelled
    } else {
        MangaStatus::Unknown
    }
}

/// The status an information item sets: a status item with a value.
pub open spec fn spec_item_status(item: InfoItem) -> Option<MangaStatus> {
    if contains(lowercase(text_or_empty(item.text)), "status"@) {
        match item.value {
            Some(v) => Some(spec_status_of(lowercase(v@))),
            None => None,
        }
    } else {
        None
    }
}

/// The status after reading the items in order, starting from `status`:
/// the last item that sets one wins.
pub open spec fn spec_status_after(items: Seq<InfoItem>, status: MangaStatus) -> MangaStatus
    decreases items.len(),
{
    if items.len() == 0 {
        status
    } else {
        match spec_item_status(items.last()) {
            Some(s) => s,
            None => spec_status_after(items.drop_last(), status),
        }
    }
}

/// The genre names present, in order.
pub open spec fn spec_genre_names(genres: Seq<Option<String>>) -> Seq<Seq<char>> {
    filter_map(genres, |g: Option<String>| text_of(g))
}

/// The status that a lowercase status text names.
pub fn status_named(lowered: &str) -> (r: MangaStatus)
    ensures
        r == spec_status_of(lowered@),
{
    let s = chars_of(lowered);
    if contains_str(&s, "ongoing") || contains_str(&s, "em dia") {
        MangaStatus::Ongoing
    } else if contains_str(&s, "completed") || contains_str(&s, "finalizada") {
        MangaStatus::Completed
    } else if contains_str(&s, "hiatus") || contains_str(&s, "hiato") {
        MangaStatus::Hiatus
    } else if contains_str(&s, "cancelled") || contains_str(&s, "cancelada") {
        MangaStatus::Cancelled
    } else {
        MangaStatus::Unknown
    }
}

fn item_status(item: &InfoItem) -> (r: Option<MangaStatus>)
    ensures
        r == spec_item_status(*item),
{
    let t = text_or_empty_of(&item.text);
    let l = lowercase_chars(&t);
    if contains_str(&l, "status") {
        match &item.value {
            Some(v) => {
                let vv = chars_of(v.as_str());
                let s = lowercase_chars(&vv);
                let st = status_named(string_of(&s).as_str());
                Some(st)
            },
            None => None,
        }
    } else {
        None
    }
}

/// The genre names present.
pub fn genre_names(genres: &Vec<Option<String>>) -> (r: Vec<String>)
    ensures
        texts(r@) == spec_genre_names(genres@),
{
    let mut out: Vec<String> = Vec::new();
    let mut i: usize = 0;
    proof {
        assert(texts(out@) =~= Seq::<Seq<char>>::empty());
    }
    while i < genres.len()
        invariant
            i <= genres@.len(),
            texts(out@) == filter_map(genres@.take(i as int), |g: Option<String>| text_of(g)),
        decreases genres.len() - i,
    {
        proof {
            lemma_filter_map_step(genres@, |g: Option<String>| text_of(g), i as int);
        }
        match &genres[i] {
            Some(g) => {
                let c = g.clone();
                let ghost before = out@;
                out.push(c);
                proof {
                    assert(texts(before.push(c)) =~= texts(before).push(c@));
                }
            },
            None => {},
        }
        i = i + 1;
    }
    proof {
        assert(genres@.take(genres@.len() as int) == genres@);
    }
    out
}

/// Fills in a manga from its page: the title, cover and summary that the
/// page shows, the status of the last status item, and the genres where
/// there are any; what the page lacks stays as it was.
pub fn apply_details(manga: &mut MangaRecord, details: MangaDetails)
    ensures
        final(manga).key == old(manga).key,
        final(manga).url == old(manga).url,
        final(manga).title@ == match details.title {
            Some(t) => t@,
            None => old(manga).title@,
        },
        text_of(final(manga).cover) == match first_present(details.cover_data_src, details.cover_src) {
            Some(c) => Some(c),
            None => text_of(old(manga).cover),
        },
        text_of(final(manga).description) == match details.description {
            Some(d) => Some(d@),
            None => text_of(old(manga).description),
        },
        final(manga).status == spec_status_after(details.info@, old(manga).status),
        opt_texts(final(manga).tags) == if spec_genre_names(details.genres@).len() > 0 {
            Some(spec_genre_names(details.genres@))
        } else {
            opt_texts(old(manga).tags)
        },
{
    match &details.title {
        Some(t) => {
            manga.title = t.clone();
        },
        None => {},
    }
    match first_present_of(&details.cover_data_src, &details.cover_src) {
        Some(c) => {
            manga.cover = Some(c);
        },
        None => {},
    }
    match &details.description {
        Some(d) => {
            manga.description = Some(d.clone());
        },
        None => {},
    }
    let ghost start = manga.status;
    let ghost mid = *manga;
    let mut i: usize = 0;
    while i < details.info.len()
        invariant
            i <= details.info@.len(),
            manga.key == mid.key,
            manga.url == mid.url,
            manga.title == mid.title,
            manga.cover == mid.cover,
            manga.description == mid.description,
            manga.tags == mid.tags,
            manga.status == spec_status_after(details.info@.take(i as int), start),
        decreases details.info.len() - i,
    {
        proof {
            assert(details.info@.take(i + 1).drop_last() == details.info@.take(i as int));
        }
        match item_status(&details.info[i]) {
            Some(s) => {
                manga.status = s;
            },
            None => {},
        }
        i = i + 1;
    }
    proof {
        assert(details.info@.take(details.info@.len() as int) == details.info@);
    }
    let tags = genre_names(&details.genres);
    if tags.len() > 0 {
        manga.tags = Some(tags);
    }
}

// ---------------------------------------------------------------------------
// Chapters
// ---------------------------------------------------------------------------

/// A chapter item (`li.wp-manga-chapter`): the `href` and text of its link,
/// the text of its `span.chapternum` and of its release date.
pub struct ChapterItem {
    pub href: Option<String>,
    pub number: Option<String>,
    pub link_text: Option<String>,
    pub date: Option<String>,
}

/// The title of a chapter item: its trimmed number text, or else its
/// trimmed link text.
pub open spec fn spec_chapter_title(item: ChapterItem) -> Seq<char> {
    if trim(text_or_empty(item.number)).len() > 0 {
        trim(text_or_empty(item.number))
    } else {
        trim(text_or_empty(item.link_text))
    }
}

/// The chapter an item gives: none without a link or a title; else keyed
/// by its link, titled and numbered by its title, dated by its date text.
pub open spec fn spec_chapter(item: ChapterItem) -> Option<ChapterView> {
    let href = text_or_empty(item.href);
    let title = spec_chapter_title(item);
    if href.len() == 0 || title.len() == 0 {
        None
    } else {
        Some(
            ChapterView {
                key: href,
                title: Some(title),
                number: numeral_token(title),
                date: ninja_date_queries(text_or_empty(item.date)),
            },
        )
    }
}

/// The chapters of a manga page, in page order.
pub open spec fn spec_chapters(items: Seq<ChapterItem>) -> Seq<ChapterView> {
    filter_map(items, |c: ChapterItem| spec_chapter(c))
}

fn chapter_of(item: &ChapterItem) -> (r: Option<ChapterRecord>)
    ensures
        match r {
            Some(c) => spec_chapter(*item) == Some(c@),
            None => spec_chapter(*item) is None,
        },
{
    let href = text_or_empty_of(&item.href);
    if href.len() == 0 {
        return None;
    }
    let n = text_or_empty_of(&item.number);
    let n = trim_chars(&n);
    let title = if n.len() == 0 {
        let l = text_or_empty_of(&item.link_text);
        trim_chars(&l)
    } else {
        n
    };
    if title.len() == 0 {
        return None;
    }
    let date_text = text_or_empty_of(&item.date);
    let date = ninja_date_queries_of(string_of(&date_text).as_str());
    let number = match numeral_token_of(&title) {
        Some(t) => Some(string_of(&t)),
        None => None,
    };
    Some(ChapterRecord { key: string_of(&href), title: Some(string_of(&title)), number: number, date: date })
}

proof fn lemma_chapter_views_push(cs: Seq<ChapterRecord>, c: ChapterRecord)
    ensures
        chapter_views(cs.push(c)) == chapter_views(cs).push(c@),
{
    assert(chapter_views(cs.push(c)) =~= chapter_views(cs).push(c@));
}

/// The chapters of a manga page, in page order; their numbers are read by
/// the caller, which then orders them with `order_chapters`.
pub fn chapter_records(items: Vec<ChapterItem>) -> (r: Vec<ChapterRecord>)
    ensures
        chapter_views(r@) == spec_chapters(items@),
{
    let mut out: Vec<ChapterRecord> = Vec::new();
    let mut i: usize = 0;
    proof {
        assert(chapter_views(out@) =~= Seq::<ChapterView>::empty());
    }
    while i < items.len()
        invariant
            i <= items@.len(),
            chapter_views(out@) == filter_map(items@.take(i as int), |c: ChapterItem| spec_chapter(c)),
        decreases items.len() - i,
    {
        proof {
            lemma_filter_map_step(items@, |c: ChapterItem| spec_chapter(c), i as int);
        }
        match chapter_of(&items[i]) {
            Some(c) => {
                proof {
                    lemma_chapter_views_push(out@, c);
                }
                out.push(c);
            },
            None => {},
        }
        i = i + 1;
    }
    proof {
        assert(items@.take(items@.len() as int) == items@);
    }
    out
}

/// Orders chapters by number, highest first; chapters with equal numbers
/// keep their page order. Each chapter comes with a key that orders as its
/// number does.
pub fn order_chapters(keyed: Vec<(i64, ChapterRecord)>) -> (r: Vec<ChapterRecord>)
    ensures
        sorted_values(r@, keyed@, true),
{
    sort_values_by_key(keyed, true)
}

// ---------------------------------------------------------------------------
// Reader pages
// ---------------------------------------------------------------------------

/// A reader image: its `data-src` and `src`.
pub struct ImageItem {
    pub data_src: Option<String>,
    pub src: Option<String>,
}

/// The address of a reader image: its `data-src`, else its `src`, else none.
pub open spec fn spec_image_address(im: ImageItem) -> Seq<char> {
    match first_present(im.data_src, im.src) {
        Some(s) => s,
        None => Seq::empty(),
    }
}

/// The page an image gives, where it has an address.
pub open spec fn spec_image_page(im: ImageItem) -> Option<PageView> {
    if spec_image_address(im).len() > 0 {
        Some(PageView::Url(spec_image_address(im)))
    } else {
        None
    }
}

/// The pages of a chapter: one per image with an address, in order; an
/// error where there is none.
pub open spec fn spec_image_pages(images: Seq<ImageItem>) -> Result<Seq<PageView>, SourceError> {
    let pages = filter_map(images, |im: ImageItem| spec_image_page(im));
    if pages.len() == 0 {
        Err(SourceError::NoImagesFound)
    } else {
        Ok(pages)
    }
}

proof fn lemma_page_views_push(ps: Seq<PageRecord>, p: PageRecord)
    ensures
        page_views(ps.push(p)) == page_views(ps).push(p@),
{
    assert(page_views(ps.push(p)) =~= page_views(ps).push(p@));
}

/// The pages of a chapter.
pub fn image_pages(images: Vec<ImageItem>) -> (r: Result<Vec<PageRecord>, SourceError>)
    ensures
        match r {
            Ok(ps) => spec_image_pages(images@) == Ok::<Seq<PageView>, SourceError>(page_views(ps@)),
            Err(e) => spec_image_pages(images@) == Err::<Seq<PageView>, SourceError>(e),
        },
{
    let mut pages: Vec<PageRecord> = Vec::new();
    let mut i: usize = 0;
    proof {
        assert(page_views(pages@) =~= Seq::<PageView>::empty());
    }
    while i < images.len()
        invariant
            i <= images@.len(),
            page_views(pages@) == filter_map(images@.take(i as int), |im: ImageItem| spec_image_page(im)),
        decreases images.len() - i,
    {
        proof {
            lemma_filter_map_step(images@, |im: ImageItem| spec_image_page(im), i as int);
        }
        let im = &images[i];
        let a = first_present_of(&im.data_src, &im.src);
        let addr = text_or_empty_of(&a);
        if addr.len() > 0 {
            let p = PageRecord::Url(string_of(&addr));
            proof {
                lemma_page_views_push(pages@, p);
            }
            pages.push(p);
        }
        i = i + 1;
    }
    proof {
        assert(images@.take(images@.len() as int) == images@);
    }
    if pages.len() == 0 {
        Err(SourceError::NoImagesFound)
    } else {
        Ok(pages)
    }
}

// ---------------------------------------------------------------------------
// Deep links
// ---------------------------------------------------------------------------

/// The manga a link opens: for a manga link that is not a chapter link, the
/// last segment of its path (query and trailing slashes left out), where
/// there is one.
pub open spec fn spec_deep_link(url: Seq<char>) -> Option<Seq<char>> {
    if contains(url, "/manga/"@) && !contains(url, "/capitulo-"@) {
        let key = after_last(trim_end_char(before_first(url, '?'), '/'), '/');
        if key.len() > 0 {
            Some(key)
        } else {
            None
        }
    } else {
        None
    }
}

/// The manga a link opens.
pub fn deep_link(url: &str) -> (r: Option<String>)
    ensures
        text_of(r) == spec_deep_link(url@),
{
    let u = chars_of(url);
    if contains_str(&u, "/manga/") && !contains_str(&u, "/capitulo-") {
        let path = before_first_chars(&u, '?');
        let clean = trim_end_char_chars(&path, '/');
        let key = after_last_chars(&clean, '/');
        if key.len() > 0 {
            return Some(string_of(&key));
        }
    }
    None
}

/// Law: a manga page leads back to its slug. For a non-empty slug without
/// `/` or `?`, resolving the slug of a manga known only by its page gives
/// the slug, and the page, as a deep link that is no chapter link, opens
/// the manga of that slug.
pub proof fn law_manga_url_round_trip(slug: Seq<char>)
    requires
        slug.len() > 0,
        !slug.contains('/'),
        !slug.contains('?'),
    ensures
        path_slug(spec_manga_url(slug)) == slug,
        !contains(spec_manga_url(slug), "/capitulo-"@) ==> spec_deep_link(spec_manga_url(slug)) == Some(slug),
{
    reveal_strlit("https://ninjacomics.xyz");
    lemma_wp_manga_url(BASE_URL@, slug);
}

/// Law: every entry of a listing has a non-empty key without `/`, and its
/// URL is the manga page of that key.
#[verifier::spinoff_prover]
pub proof fn law_list_entries_shape(cards: Seq<ListCard>)
    ensures
        forall|i: int|
            0 <= i < spec_list_entries(cards).len() ==> {
                let e = #[trigger] spec_list_entries(cards)[i];
                &&& e.key.len() > 0
                &&& !e.key.contains('/')
                &&& e.url == Some(spec_manga_url(e.key))
            },
    decreases cards.len(),
{
    if cards.len() > 0 {
        law_list_entries_shape(cards.drop_last());
        lemma_after_last_free(trim_end_char(text_or_empty(cards.last().href), '/'), '/');
        let prev = spec_list_entries(cards.drop_last());
        assert forall|i: int| 0 <= i < spec_list_entries(cards).len() implies {
            let e = #[trigger] spec_list_entries(cards)[i];
            &&& e.key.len() > 0
            &&& !e.key.contains('/')
            &&& e.url == Some(spec_manga_url(e.key))
        } by {
            if i < prev.len() {
                assert(spec_list_entries(cards)[i] == prev[i]);
            }
        }
    }
}


/// What a listing card shows as an entry: keyed by its link's last segment,
/// titled by its title text, with its image's `data-src` (else `src`) as
/// cover, its page as URL, and completed exactly where its lowercased
/// badges say "finalizada" or "completed".
pub open spec fn shows_card(e: EntryView, c: ListCard) -> bool {
    let slug = path_slug(text_or_empty(c.href));
    let badges = lowercase(text_or_empty(c.badges));
    &&& e.key == slug
    &&& e.title == text_or_empty(c.title)
    &&& e.cover == match c.cover_data_src {
        Some(d) => Some(d@),
        None => text_of(c.cover_src),
    }
    &&& e.url == Some(BASE_URL@ + "/manga/"@ + slug + "/"@)
    &&& (e.status == MangaStatus::Completed) == (contains(badges, "finalizada"@) || contains(badges, "completed"@))
    &&& e.status != MangaStatus::Completed ==> e.status == MangaStatus::Ongoing
}

/// Law: every entry of a listing shows one of its cards, and every card
/// with a link and a slug is shown by an entry.
#[verifier::spinoff_prover]
pub proof fn law_list_entries_from_cards(cards: Seq<ListCard>)
    ensures
        forall|i: int|
            0 <= i < spec_list_entries(cards).len() ==> exists|j: int|
                0 <= j < cards.len() && shows_card(#[trigger] spec_list_entries(cards)[i], cards[j]),
        forall|j: int|
            0 <= j < cards.len() && text_or_empty(cards[j].href).len() > 0 && path_slug(
                text_or_empty(#[trigger] cards[j].href),
            ).len() > 0 ==> exists|i: int|
                0 <= i < spec_list_entries(cards).len() && shows_card(spec_list_entries(cards)[i], cards[j]),
{
    let f = |c: ListCard| spec_card_entry(c);
    lemma_filter_map_sources(cards, f);
    let es = spec_list_entries(cards);
    assert forall|i: int| 0 <= i < es.len() implies exists|j: int|
        0 <= j < cards.len() && shows_card(#[trigger] es[i], cards[j]) by {
        let j = choose|j: int| 0 <= j < cards.len() && f(cards[j]) == Some(es[i]);
        assert(shows_card(es[i], cards[j]));
    }
    assert forall|j: int|
        0 <= j < cards.len() && text_or_empty(cards[j].href).len() > 0 && path_slug(
            text_or_empty(#[trigger] cards[j].href),
        ).len() > 0 implies exists|i: int| 0 <= i < es.len() && shows_card(es[i], cards[j]) by {
        assert(f(cards[j]) is Some);
        let i = choose|i: int| 0 <= i < es.len() && f(cards[j]) == Some(es[i]);
        assert(shows_card(es[i], cards[j]));
    }
}


/// What a chapter item shows as a chapter: keyed by its link, titled by its
/// trimmed number text (its trimmed link text where that is blank),
/// numbered by the number read from that title, and dated by the queries of
/// its date text.
pub open spec fn shows_item(c: ChapterView, item: ChapterItem) -> bool {
    let n = trim(text_or_empty(item.number));
    let title = if n.len() > 0 { n } else { trim(text_or_empty(item.link_text)) };
    &&& c.key == text_or_empty(item.href)
    &&& c.title == Some(title)
    &&& c.number == numeral_token(title)
    &&& c.date == ninja_date_queries(text_or_empty(item.date))
}

/// Law: every chapter of a manga page shows one of its items, and every
/// item with a link and a non-blank title is shown by a chapter.
#[verifier::spinoff_prover]
pub proof fn law_chapters_from_items(items: Seq<ChapterItem>)
    ensures
        forall|i: int|
            0 <= i < spec_chapters(items).len() ==> exists|j: int|
                0 <= j < items.len() && shows_item(#[trigger] spec_chapters(items)[i], items[j]),
        forall|j: int|
            0 <= j < items.len() && text_or_empty(items[j].href).len() > 0 && spec_chapter_title(
                #[trigger] items[j],
            ).len() > 0 ==> exists|i: int|
                0 <= i < spec_chapters(items).len() && shows_item(spec_chapters(items)[i], items[j]),
{
    let f = |c: ChapterItem| spec_chapter(c);
    lemma_filter_map_sources(items, f);
    let cs = spec_chapters(items);
    assert forall|i: int| 0 <= i < cs.len() implies exists|j: int|
        0 <= j < items.len() && shows_item(#[trigger] cs[i], items[j]) by {
        let j = choose|j: int| 0 <= j < items.len() && f(items[j]) == Some(cs[i]);
        assert(shows_item(cs[i], items[j]));
    }
    assert forall|j: int|
        0 <= j < items.len() && text_or_empty(items[j].href).len() > 0 && spec_chapter_title(
            #[trigger] items[j],
        ).len() > 0 implies exists|i: int| 0 <= i < cs.len() && shows_item(cs[i], items[j]) by {
        assert(f(items[j]) is Some);
        let i = choose|i: int| 0 <= i < cs.len() && f(items[j]) == Some(cs[i]);
        assert(shows_item(cs[i], items[j]));
    }
}


/// Law: a lowercase status text is read, in this order of precedence, as
/// ongoing ("ongoing", "em dia"), completed ("completed", "finalizada"),
/// on hiatus ("hiatus", "hiato"), cancelled ("cancelled", "cancelada"),
/// else unknown.
pub proof fn law_status_words(s: Seq<char>)
    ensures
        (contains(s, "ongoing"@) || contains(s, "em dia"@)) ==> spec_status_of(s) == MangaStatus::Ongoing,
        !(contains(s, "ongoing"@) || contains(s, "em dia"@)) && (contains(s, "completed"@) || contains(
            s,
            "finalizada"@,
        )) ==> spec_status_of(s) == MangaStatus::Completed,
        !(contains(s, "ongoing"@) || contains(s, "em dia"@) || contains(s, "completed"@) || contains(
            s,
            "finalizada"@,
        )) && (contains(s, "hiatus"@) || contains(s, "hiato"@)) ==> spec_status_of(s) == MangaStatus::Hiatus,
        !(contains(s, "ongoing"@) || contains(s, "em dia"@) || contains(s, "completed"@) || contains(
            s,
            "finalizada"@,
        ) || contains(s, "hiatus"@) || contains(s, "hiato"@)) && (contains(s, "cancelled"@) || contains(
            s,
            "cancelada"@,
        )) ==> spec_status_of(s) == MangaStatus::Cancelled,
        !(contains(s, "ongoing"@) || contains(s, "em dia"@) || contains(s, "completed"@) || contains(
            s,
            "finalizada"@,
        ) || contains(s, "hiatus"@) || contains(s, "hiato"@) || contains(s, "cancelled"@) || contains(
            s,
            "cancelada"@,
        )) ==> spec_status_of(s) == MangaStatus::Unknown,
{
}

/// Law: the most viewed listing is ordered by views, the newest by
/// novelty, and any other listing reads the whole catalogue.
pub proof fn law_listing_urls(id: Seq<char>)
    ensures
        id == "popular"@ ==> spec_listing_url(id) == BASE_URL@ + "/manga/?m_orderby=views"@,
        id == "new"@ ==> spec_listing_url(id) == BASE_URL@ + "/manga/?m_orderby=new-manga"@,
        id != "popular"@ && id != "new"@ ==> spec_listing_url(id) == BASE_URL@ + "/manga/"@,
{
    reveal_strlit("popular");
    reveal_strlit("new");
    assert("new"@.len() != "popular"@.len());
}


/// An information item that sets the status: its lowercased text says
/// "status" and it has a value.
pub open spec fn sets_status(item: InfoItem) -> bool {
    contains(lowercase(text_or_empty(item.text)), "status"@) && item.value is Some
}

/// Law: the status after reading the information items is that named by the
/// last item that sets one, and the starting status where none does.
#[verifier::spinoff_prover]
#[verifier::rlimit(40)]
pub proof fn law_status_after(items: Seq<InfoItem>, status: MangaStatus)
    ensures
        (forall|k: int| 0 <= k < items.len() ==> !sets_status(#[trigger] items[k])) ==> spec_status_after(
            items,
            status,
        ) == status,
        forall|k: int|
            0 <= k < items.len() && sets_status(#[trigger] items[k]) && (forall|m: int|
                k < m < items.len() ==> !sets_status(items[m])) ==> spec_status_after(items, status)
                == spec_status_of(lowercase(items[k].value->0@)),
    decreases items.len(),
{
    if items.len() > 0 {
        let r = items.drop_last();
        law_status_after(r, status);
        let n = items.len() - 1;
        assert(items[n] == items.last());
        if (forall|k: int| 0 <= k < items.len() ==> !sets_status(#[trigger] items[k])) {
            assert forall|k: int| 0 <= k < r.len() implies !sets_status(#[trigger] r[k]) by {
                assert(r[k] == items[k]);
            }
            assert(!sets_status(items[n]));
        }
        assert forall|k: int|
            0 <= k < items.len() && sets_status(#[trigger] items[k]) && (forall|m: int|
                k < m < items.len() ==> !sets_status(items[m])) implies spec_status_after(items, status)
                == spec_status_of(lowercase(items[k].value->0@)) by {
            if k < n {
                assert(!sets_status(items[n]));
                assert(r[k] == items[k]);
                assert forall|m: int| k < m < r.len() implies !sets_status(r[m]) by {
                    assert(r[m] == items[m]);
                }
            }
        }
    }
}

/// Law: the genre names are the texts of the genre links that have one, in
/// order: each name is the text of some link, each link's text is among
/// them, and there is none exactly when no link has a text.
#[verifier::spinoff_prover]
pub proof fn law_genre_names(genres: Seq<Option<String>>)
    ensures
        forall|i: int|
            0 <= i < spec_genre_names(genres).len() ==> exists|j: int|
                0 <= j < genres.len() && text_of(genres[j]) == Some(#[trigger] spec_genre_names(genres)[i]),
        forall|j: int|
            0 <= j < genres.len() && (#[trigger] genres[j]) is Some ==> exists|i: int|
                0 <= i < spec_genre_names(genres).len() && spec_genre_names(genres)[i] == genres[j]->0@,
        spec_genre_names(genres).len() == 0 <==> forall|j: int| 0 <= j < genres.len() ==> genres[j] is None,
{
    let f = |g: Option<String>| text_of(g);
    lemma_filter_map_sources(genres, f);
    let names = spec_genre_names(genres);
    assert forall|i: int| 0 <= i < names.len() implies exists|j: int|
        0 <= j < genres.len() && text_of(genres[j]) == Some(#[trigger] names[i]) by {
        let j = choose|j: int| 0 <= j < genres.len() && f(genres[j]) == Some(names[i]);
        assert(text_of(genres[j]) == Some(names[i]));
    }
    assert forall|j: int| 0 <= j < genres.len() && (#[trigger] genres[j]) is Some implies exists|i: int|
        0 <= i < names.len() && names[i] == genres[j]->0@ by {
        assert(f(genres[j]) == Some(genres[j]->0@));
        let i = choose|i: int| 0 <= i < names.len() && f(genres[j]) == Some(names[i]);
    }
    if names.len() == 0 {
        assert forall|j: int| 0 <= j < genres.len() implies genres[j] is None by {
            if genres[j] is Some {
                assert(f(genres[j]) is Some);
                let i = choose|i: int| 0 <= i < names.len() && f(genres[j]) == Some(names[i]);
            }
        }
    } else {
        let j = choose|j: int| 0 <= j < genres.len() && f(genres[j]) == Some(names[0]);
        assert(genres[j] is Some);
    }
}


/// Law: a chapter link never opens a manga.
pub proof fn law_chapter_link_opens_nothing(url: Seq<char>)
    ensures
        contains(url, "/capitulo-"@) ==> spec_deep_link(url) is None,
{
}

/// Law: the pages of a chapter are its images that have an address, each
/// shown by its `data-src`, else its `src`: every page is such an image's
/// address, every such image gives a page, and the chapter fails with "no
/// images found" exactly when there is none.
#[verifier::spinoff_prover]
pub proof fn law_image_pages(images: Seq<ImageItem>)
    ensures
        spec_image_pages(images) matches Ok(ps) ==> forall|i: int|
            #![trigger ps[i]]
            0 <= i < ps.len() ==> exists|j: int|
                #![trigger images[j]]
                0 <= j < images.len() && ps[i] == PageView::Url(
                    match images[j].data_src {
                        Some(d) => d@,
                        None => text_or_empty(images[j].src),
                    },
                ) && ps[i] != PageView::Url(Seq::empty()),
        spec_image_pages(images) == Err::<Seq<PageView>, SourceError>(SourceError::NoImagesFound) <==> forall|j: int|
            0 <= j < images.len() ==> spec_image_address(#[trigger] images[j]).len() == 0,
{
    let f = |im: ImageItem| spec_image_page(im);
    lemma_filter_map_sources(images, f);
    let ps = filter_map(images, f);
    assert forall|i: int| #![trigger ps[i]] 0 <= i < ps.len() implies exists|j: int|
        #![trigger images[j]]
        0 <= j < images.len() && ps[i] == PageView::Url(
            match images[j].data_src {
                Some(d) => d@,
                None => text_or_empty(images[j].src),
            },
        ) && ps[i] != PageView::Url(Seq::empty()) by {
        let j = choose|j: int| 0 <= j < images.len() && f(images[j]) == Some(ps[i]);
        assert(spec_image_address(images[j]).len() > 0);
    }
    if ps.len() == 0 {
        assert forall|j: int| 0 <= j < images.len() implies spec_image_address(#[trigger] images[j]).len() == 0 by {
            if spec_image_address(images[j]).len() > 0 {
                assert(f(images[j]) is Some);
                let i = choose|i: int| 0 <= i < ps.len() && f(images[j]) == Some(ps[i]);
            }
        }
    } else {
        let j = choose|j: int| 0 <= j < images.len() && f(images[j]) == Some(ps[0]);
        assert(spec_image_address(images[j]).len() > 0);
    }
}

} // verus!
