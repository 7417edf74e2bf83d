use ptbr_sources::mangaflix::{
    browse_page, browse_url, chapter_api_url, deep_link, manga_api_url, page_urls, update_manga,
    BrowseCard, ChapterData, GenreData, ImageData, MangaData, PosterData,
};
use ptbr_sources::model::{DateFormat, MangaRecord, MangaStatus};

fn s(x: &str) -> String {
    x.to_string()
}

fn card(href: Option<&str>, title: Option<&str>, img: Option<&str>) -> BrowseCard {
    BrowseCard {
        href: href.map(s),
        title: title.map(s),
        image_src: img.map(s),
    }
}

fn record(key: &str) -> MangaRecord {
    MangaRecord {
        key: s(key),
        title: s("old title"),
        cover: None,
        description: Some(s("old")),
        url: None,
        status: MangaStatus::Unknown,
        tags: Some(vec![s("old tag")]),
    }
}

#[test]
fn mangaflix_browse_url_without_query() {
    assert_eq!(browse_url(None, 1), "https://mangaflix.net/br/browse?page=1");
}

#[test]
fn mangaflix_browse_url_with_query() {
    assert_eq!(
        browse_url(Some(s("one%20piece")), 3),
        "https://mangaflix.net/br/browse?search=one%20piece&page=3"
    );
}

#[test]
fn mangaflix_browse_url_negative_and_large_pages() {
    assert_eq!(browse_url(None, -7), "https://mangaflix.net/br/browse?page=-7");
    assert_eq!(browse_url(None, 0), "https://mangaflix.net/br/browse?page=0");
    assert_eq!(
        browse_url(None, i32::MIN),
        format!("https://mangaflix.net/br/browse?page={}", i32::MIN)
    );
    assert_eq!(
        browse_url(None, i32::MAX),
        format!("https://mangaflix.net/br/browse?page={}", i32::MAX)
    );
}

#[test]
fn mangaflix_browse_cards_become_entries() {
    let page = browse_page(vec![
        card(Some("/br/manga/abc123"), Some("Solo Leveling"), Some("https://cdn.x/a.jpg")),
        card(Some("/br/manga/def456"), None, Some("/img/b.jpg")),
        card(Some("/br/manga/"), Some("skipped"), None),
        card(None, Some("skipped too"), None),
        card(Some("ghi"), Some("no slash"), None),
    ]);
    assert_eq!(page.entries.len(), 3);
    let a = &page.entries[0];
    assert_eq!(a.key, "abc123");
    assert_eq!(a.title, "Solo Leveling");
    assert_eq!(a.cover.as_deref(), Some("https://cdn.x/a.jpg"));
    assert_eq!(a.url.as_deref(), Some("https://mangaflix.net/br/manga/abc123"));
    assert_eq!(a.status, MangaStatus::Unknown);
    let b = &page.entries[1];
    assert_eq!(b.key, "def456");
    assert_eq!(b.title, "");
    assert_eq!(b.cover.as_deref(), Some("https://mangaflix.net/img/b.jpg"));
    let c = &page.entries[2];
    assert_eq!(c.key, "ghi");
    assert_eq!(c.cover, None);
    assert!(!page.has_next_page);
}

#[test]
fn mangaflix_full_browse_page_has_next() {
    let cards: Vec<BrowseCard> = (0..20)
        .map(|i| card(Some(&format!("/br/manga/m{}", i)), Some("t"), None))
        .collect();
    let page = browse_page(cards);
    assert_eq!(page.entries.len(), 20);
    assert!(page.has_next_page);
    let cards: Vec<BrowseCard> = (0..19)
        .map(|i| card(Some(&format!("/br/manga/m{}", i)), Some("t"), None))
        .collect();
    assert!(!browse_page(cards).has_next_page);
}

#[test]
fn mangaflix_api_urls() {
    assert_eq!(manga_api_url("abc"), "https://api.mangaflix.net/v1/mangas/abc");
    assert_eq!(chapter_api_url("c1"), "https://api.mangaflix.net/v1/chapters/c1");
}

fn data() -> MangaData {
    MangaData {
        id: s("abc"),
        name: s("Solo Leveling"),
        description: Some(s("A hunter.")),
        poster: Some(PosterData { default_url: Some(s("https://cdn.x/p.jpg")) }),
        genres: Some(vec![
            GenreData { id: s("g1"), name: s("Ação") },
            GenreData { id: s("g2"), name: s("Fantasia") },
        ]),
        chapters: Some(vec![
            ChapterData {
                id: s("c1"),
                number: s("1"),
                name: Some(s("Início")),
                number_of_pages: Some(20),
                release_date: Some(s("2024-01-15T10:00:00.000Z")),
            },
            ChapterData {
                id: s("c2"),
                number: s("2"),
                name: None,
                number_of_pages: None,
                release_date: None,
            },
        ]),
    }
}

#[test]
fn mangaflix_update_with_details_and_chapters() {
    let mut m = record("abc");
    let chapters = update_manga(&mut m, data(), true, true).unwrap();
    assert_eq!(m.key, "abc");
    assert_eq!(m.title, "Solo Leveling");
    assert_eq!(m.description.as_deref(), Some("A hunter."));
    assert_eq!(m.cover.as_deref(), Some("https://cdn.x/p.jpg"));
    assert_eq!(m.status, MangaStatus::Ongoing);
    assert_eq!(m.url.as_deref(), Some("https://mangaflix.net/br/manga/abc"));
    assert_eq!(m.tags, Some(vec![s("Ação"), s("Fantasia")]));
    assert_eq!(chapters.len(), 2);
    assert_eq!(chapters[0].key, "c2");
    assert_eq!(chapters[0].number.as_deref(), Some("2"));
    assert_eq!(chapters[0].title, None);
    assert!(chapters[0].date.is_empty());
    assert_eq!(chapters[1].key, "c1");
    assert_eq!(chapters[1].title.as_deref(), Some("Início"));
    assert_eq!(chapters[1].date.len(), 1);
    assert_eq!(chapters[1].date[0].text, "2024-01-15T10:00:00.000Z");
    assert_eq!(chapters[1].date[0].format, DateFormat::IsoTimestamp);
    assert_eq!(chapters[1].date[0].format.pattern(), "yyyy-MM-dd'T'HH:mm:ss.SSS'Z'");
}

#[test]
fn mangaflix_update_without_genres_clears_tags() {
    let mut m = record("abc");
    let mut d = data();
    d.genres = Some(vec![]);
    d.poster = None;
    let chapters = update_manga(&mut m, d, true, false);
    assert!(chapters.is_none());
    assert_eq!(m.tags, None);
    assert_eq!(m.cover, None);
}

#[test]
fn mangaflix_update_without_details_keeps_manga() {
    let mut m = record("abc");
    let chapters = update_manga(&mut m, data(), false, true);
    assert_eq!(m, record("abc"));
    assert_eq!(chapters.unwrap().len(), 2);
    let mut d = data();
    d.chapters = None;
    assert_eq!(update_manga(&mut m, d, false, true).unwrap().len(), 0);
}

fn image(url: &str, order: i32) -> ImageData {
    ImageData { id: s("i"), default_url: s(url), order }
}

#[test]
fn mangaflix_pages_sorted_by_order_stably() {
    let urls = page_urls(vec![
        image("c", 3),
        image("a", 1),
        image("", 0),
        image("b1", 2),
        image("b2", 2),
        image("z", -1),
    ]);
    assert_eq!(urls, vec![s("z"), s("a"), s("b1"), s("b2"), s("c")]);
}

#[test]
fn mangaflix_pages_of_no_image() {
    assert!(page_urls(vec![]).is_empty());
    assert!(page_urls(vec![image("", 1)]).is_empty());
}

#[test]
fn mangaflix_deep_links() {
    assert_eq!(deep_link("https://mangaflix.net/br/manga/abc123").as_deref(), Some("abc123"));
    assert_eq!(deep_link("https://mangaflix.net/br/manga/").as_deref(), Some(""));
    assert_eq!(deep_link("https://mangaflix.net/br/browse?page=2"), None);
}

#[test]
fn mangaflix_entry_url_opens_entry() {
    let page = browse_page(vec![card(Some("/br/manga/xyz"), Some("t"), None)]);
    let e = &page.entries[0];
    assert_eq!(deep_link(e.url.as_deref().unwrap()).as_deref(), Some(e.key.as_str()));
}
