use ptbr_sources::dates::ninja_lowered_date_queries_of;
use ptbr_sources::ninjacomics::{badge_status_named, status_named};
use ptbr_sources::dates::ninja_date_queries_of;
use ptbr_sources::model::{DateFormat, MangaRecord, MangaStatus, PageRecord, SourceError};
use ptbr_sources::ninjacomics::{
    apply_details, chapter_records, deep_link, genre_names, image_pages, list_entries, listing_url,
    manga_page_url, order_chapters, search_url, ChapterItem, ImageItem, InfoItem, ListCard,
    MangaDetails,
};

fn s(x: &str) -> String {
    x.to_string()
}

fn o(x: &str) -> Option<String> {
    Some(s(x))
}

#[test]
fn ninja_search_urls() {
    assert_eq!(
        search_url(o("naruto")).as_deref(),
        Some("https://ninjacomics.xyz/?s=naruto&post_type=wp-manga")
    );
    assert_eq!(search_url(None), None);
}

#[test]
fn ninja_listing_urls() {
    assert_eq!(listing_url("popular"), "https://ninjacomics.xyz/manga/?m_orderby=views");
    assert_eq!(listing_url("new"), "https://ninjacomics.xyz/manga/?m_orderby=new-manga");
    assert_eq!(listing_url("latest"), "https://ninjacomics.xyz/manga/");
    assert_eq!(listing_url(""), "https://ninjacomics.xyz/manga/");
}

fn card(href: Option<&str>, title: Option<&str>, data_src: Option<&str>, src: Option<&str>, badges: Option<&str>) -> ListCard {
    ListCard {
        href: href.map(s),
        title: title.map(s),
        cover_data_src: data_src.map(s),
        cover_src: src.map(s),
        badges: badges.map(s),
    }
}

#[test]
fn ninja_list_cards_become_entries() {
    let entries = list_entries(vec![
        card(Some("https://ninjacomics.xyz/manga/one-piece/"), Some("One Piece"), Some("d.jpg"), Some("s.jpg"), Some("Finalizada")),
        card(Some("https://ninjacomics.xyz/manga/bleach"), None, None, Some("s.jpg"), Some("HOT")),
        card(Some(""), Some("no link"), None, None, None),
        card(None, Some("no link"), None, None, None),
        card(Some("///"), Some("no slug"), None, None, None),
        card(Some("https://x/manga/naruto//"), Some("Naruto"), None, None, Some("COMPLETED")),
    ]);
    assert_eq!(entries.len(), 3);
    assert_eq!(entries[0].key, "one-piece");
    assert_eq!(entries[0].title, "One Piece");
    assert_eq!(entries[0].cover.as_deref(), Some("d.jpg"));
    assert_eq!(entries[0].url.as_deref(), Some("https://ninjacomics.xyz/manga/one-piece/"));
    assert_eq!(entries[0].status, MangaStatus::Completed);
    assert_eq!(entries[1].key, "bleach");
    assert_eq!(entries[1].title, "");
    assert_eq!(entries[1].cover.as_deref(), Some("s.jpg"));
    assert_eq!(entries[1].status, MangaStatus::Ongoing);
    assert_eq!(entries[2].key, "naruto");
    assert_eq!(entries[2].status, MangaStatus::Completed);
}

#[test]
fn ninja_manga_page_urls() {
    assert_eq!(
        manga_page_url("one-piece", &None),
        Ok(s("https://ninjacomics.xyz/manga/one-piece/"))
    );
    assert_eq!(
        manga_page_url("", &o("https://ninjacomics.xyz/manga/bleach/")),
        Ok(s("https://ninjacomics.xyz/manga/bleach/"))
    );
    assert_eq!(manga_page_url("", &None), Err(SourceError::InvalidSlug));
    assert_eq!(manga_page_url("", &o("/")), Err(SourceError::InvalidSlug));
    assert_eq!(SourceError::InvalidSlug.message(), "invalid slug");
}

fn record() -> MangaRecord {
    MangaRecord {
        key: s("k"),
        title: s("old"),
        cover: o("old.jpg"),
        description: None,
        url: o("https://ninjacomics.xyz/manga/k/"),
        status: MangaStatus::Unknown,
        tags: Some(vec![s("old tag")]),
    }
}

fn info(text: Option<&str>, value: Option<&str>) -> InfoItem {
    InfoItem { text: text.map(s), value: value.map(s) }
}

#[test]
fn ninja_details_fill_the_manga() {
    let mut m = record();
    apply_details(
        &mut m,
        MangaDetails {
            title: o("Título"),
            cover_data_src: None,
            cover_src: o("new.jpg"),
            description: o("Sinopse"),
            info: vec![
                info(Some("Status Em dia"), Some("Em Dia")),
                info(Some("Autor Fulano"), Some("Fulano")),
                info(Some("STATUS"), Some("Hiato")),
            ],
            genres: vec![o("Ação"), None, o("Drama")],
        },
    );
    assert_eq!(m.key, "k");
    assert_eq!(m.title, "Título");
    assert_eq!(m.cover.as_deref(), Some("new.jpg"));
    assert_eq!(m.description.as_deref(), Some("Sinopse"));
    assert_eq!(m.status, MangaStatus::Hiatus);
    assert_eq!(m.tags, Some(vec![s("Ação"), s("Drama")]));
    assert_eq!(m.url.as_deref(), Some("https://ninjacomics.xyz/manga/k/"));
}

#[test]
fn ninja_details_statuses() {
    let cases = [
        ("OnGoing", MangaStatus::Ongoing),
        ("Completed", MangaStatus::Completed),
        ("Finalizada", MangaStatus::Completed),
        ("On Hiatus", MangaStatus::Hiatus),
        ("Cancelled", MangaStatus::Cancelled),
        ("Cancelada", MangaStatus::Cancelled),
        ("Desconhecido", MangaStatus::Unknown),
    ];
    for (text, status) in cases {
        let mut m = record();
        apply_details(
            &mut m,
            MangaDetails {
                title: None,
                cover_data_src: None,
                cover_src: None,
                description: None,
                info: vec![info(Some("Status"), Some(text))],
                genres: vec![],
            },
        );
        assert_eq!(m.status, status, "{}", text);
    }
}

#[test]
fn ninja_details_missing_keep_the_manga() {
    let mut m = record();
    apply_details(
        &mut m,
        MangaDetails {
            title: None,
            cover_data_src: None,
            cover_src: None,
            description: None,
            info: vec![info(Some("Status"), None), info(None, Some("Completed"))],
            genres: vec![None],
        },
    );
    assert_eq!(m, record());
}

#[test]
fn ninja_genre_names_present() {
    assert_eq!(genre_names(&vec![None, o("a"), o("")]), vec![s("a"), s("")]);
}

fn item(href: Option<&str>, number: Option<&str>, link: Option<&str>, date: Option<&str>) -> ChapterItem {
    ChapterItem { href: href.map(s), number: number.map(s), link_text: link.map(s), date: date.map(s) }
}

#[test]
fn ninja_chapter_items_become_chapters() {
    let chapters = chapter_records(vec![
        item(Some("https://x/c10"), Some("  Capítulo 10 "), None, Some("15 de janeiro de 2024")),
        item(Some("https://x/c9"), None, Some(" Cap. 9.5 "), Some("há 2 dias")),
        item(Some(""), Some("Capítulo 8"), None, None),
        item(Some("https://x/c7"), Some("  "), Some(""), None),
        item(Some("https://x/extra"), Some("Extra"), None, None),
    ]);
    assert_eq!(chapters.len(), 3);
    assert_eq!(chapters[0].key, "https://x/c10");
    assert_eq!(chapters[0].title.as_deref(), Some("Capítulo 10"));
    assert_eq!(chapters[0].number.as_deref(), Some("10"));
    assert_eq!(chapters[0].date.len(), 2);
    assert_eq!(chapters[0].date[0].text, "2024-01-15");
    assert_eq!(chapters[0].date[0].format, DateFormat::IsoDate);
    assert_eq!(chapters[1].title.as_deref(), Some("Cap. 9.5"));
    assert_eq!(chapters[1].number.as_deref(), Some("9.5"));
    assert!(chapters[1].date.is_empty());
    assert_eq!(chapters[2].number, None);
}

#[test]
fn ninja_chapters_ordered_highest_first() {
    let chapters = chapter_records(vec![
        item(Some("a"), Some("1"), None, None),
        item(Some("b"), Some("3"), None, None),
        item(Some("c"), Some("2"), None, None),
        item(Some("d"), Some("none"), None, None),
        item(Some("e"), Some("3"), None, None),
    ]);
    let keyed: Vec<(i64, _)> = chapters
        .into_iter()
        .map(|c| {
            let n: f32 = c.number.as_deref().map(|t| t.parse().unwrap()).unwrap_or(0.0);
            (n.to_bits() as i64, c)
        })
        .collect();
    let ordered = order_chapters(keyed);
    let keys: Vec<&str> = ordered.iter().map(|c| c.key.as_str()).collect();
    assert_eq!(keys, vec!["b", "e", "c", "a", "d"]);
}

#[test]
fn ninja_dates() {
    let q = ninja_date_queries_of(" 15 de Janeiro de 2024 ");
    assert_eq!(q.len(), 2);
    assert_eq!(q[0].text, "2024-01-15");
    assert_eq!(q[0].format, DateFormat::IsoDate);
    assert_eq!(q[1].text, "15 de janeiro de 2024");
    assert_eq!(q[1].format, DateFormat::MonthDayYear);
    assert_eq!(q[1].format.pattern(), "MMMM d, yyyy");
    let q = ninja_date_queries_of("3 de março, 2023");
    assert_eq!(q[0].text, "2023-03-3");
    let q = ninja_date_queries_of("1 de dezembro de 2022");
    assert_eq!(q[0].text, "2022-12-1");
    assert!(ninja_date_queries_of("").is_empty());
    assert!(ninja_date_queries_of("   ").is_empty());
    assert!(ninja_date_queries_of("há 3 semanas").is_empty());
    assert!(ninja_date_queries_of("2 meses atrás").is_empty());
    assert!(ninja_date_queries_of("1 mês").is_empty());
    assert!(ninja_date_queries_of("1 ano").is_empty());
    let q = ninja_date_queries_of("January 5, 2024");
    assert_eq!(q.len(), 1);
    assert_eq!(q[0].text, "january 5, 2024");
    let q = ninja_date_queries_of("julho 2024");
    assert_eq!(q.len(), 1);
    assert_eq!(q[0].format, DateFormat::MonthDayYear);
}

#[test]
fn ninja_image_pages_of_chapter() {
    let pages = image_pages(vec![
        ImageItem { data_src: o(" https://x/1.jpg"), src: o("placeholder") },
        ImageItem { data_src: None, src: o("https://x/2.jpg") },
        ImageItem { data_src: None, src: None },
        ImageItem { data_src: o(""), src: o("https://x/3.jpg") },
    ])
    .unwrap();
    assert_eq!(pages, vec![PageRecord::Url(s(" https://x/1.jpg")), PageRecord::Url(s("https://x/2.jpg"))]);
    assert_eq!(image_pages(vec![]), Err(SourceError::NoImagesFound));
    assert_eq!(SourceError::NoImagesFound.message(), "no images found");
}

#[test]
fn ninja_deep_links() {
    assert_eq!(deep_link("https://ninjacomics.xyz/manga/one-piece/").as_deref(), Some("one-piece"));
    assert_eq!(deep_link("https://ninjacomics.xyz/manga/one-piece/?ref=home").as_deref(), Some("one-piece"));
    assert_eq!(deep_link("https://ninjacomics.xyz/manga/one-piece/capitulo-1/"), None);
    assert_eq!(deep_link("https://ninjacomics.xyz/?s=x"), None);
    assert_eq!(deep_link("https://ninjacomics.xyz/manga/").as_deref(), Some("manga"));
}

#[test]
fn ninja_entry_url_round_trip() {
    let entries = list_entries(vec![card(Some("https://ninjacomics.xyz/manga/dr-stone/"), None, None, None, None)]);
    let url = entries[0].url.clone();
    assert_eq!(deep_link(url.as_deref().unwrap()).as_deref(), Some("dr-stone"));
    assert_eq!(manga_page_url("", &url), Ok(url.clone().unwrap()));
}

#[test]
fn ninja_lowered_helpers() {
    assert_eq!(status_named("em dia"), MangaStatus::Ongoing);
    assert_eq!(status_named("Em Dia"), MangaStatus::Unknown);
    assert_eq!(status_named("hiato"), MangaStatus::Hiatus);
    assert_eq!(badge_status_named("hot finalizada"), MangaStatus::Completed);
    assert_eq!(badge_status_named("FINALIZADA"), MangaStatus::Ongoing);
    let q = ninja_lowered_date_queries_of("10 de abril de 2021");
    assert_eq!(q.len(), 2);
    assert_eq!(q[0].text, "2021-04-10");
    assert!(ninja_lowered_date_queries_of("").is_empty());
}
