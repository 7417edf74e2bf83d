use ptbr_sources::dates::tsundoku_month_date_of;
use ptbr_sources::tsundoku::status_named;
use ptbr_sources::dates::tsundoku_date_query_of;
use ptbr_sources::model::{DateFormat, MangaEntry, MangaRecord, MangaStatus, PageRecord, SourceError};
use ptbr_sources::tsundoku::{
    apply_details, chapter_records, deep_link, image_pages, is_novel, list_entries, listing_entries,
    listing_urls, manga_page_url, novel_pages, order_chapters, page_list, parse_chapter_number,
    search_url, ChapterItem, InfoItem, ListCard, MangaDetails,
};

fn s(x: &str) -> String {
    x.to_string()
}

fn o(x: &str) -> Option<String> {
    Some(s(x))
}

#[test]
fn tsundoku_search_urls() {
    assert_eq!(search_url(o("solo")).as_deref(), Some("https://tsundoku.com.br/?s=solo"));
    assert_eq!(search_url(None), None);
}

#[test]
fn tsundoku_listing_pages() {
    assert_eq!(
        listing_urls("todos"),
        vec![
            s("https://tsundoku.com.br/mangas/"),
            s("https://tsundoku.com.br/novels/"),
            s("https://tsundoku.com.br/manhwas/"),
            s("https://tsundoku.com.br/manhuas/"),
        ]
    );
    assert_eq!(listing_urls("novels"), vec![s("https://tsundoku.com.br/novels/")]);
    assert_eq!(listing_urls("manhuas"), vec![s("https://tsundoku.com.br/manhuas/")]);
    assert_eq!(listing_urls("outro"), vec![s("https://tsundoku.com.br/mangas/")]);
}

fn card(href: &str, title: &str, kind: Option<&str>, status: Option<&str>) -> ListCard {
    ListCard { href: o(href), title: o(title), cover: o("c.jpg"), kind: kind.map(s), status: status.map(s) }
}

#[test]
fn tsundoku_list_cards_become_entries() {
    let entries = list_entries(vec![
        card("https://tsundoku.com.br/manga/solo/", "Solo", Some(" Manhwa "), Some(" Completed ")),
        card("https://tsundoku.com.br/manga/livro/", "Livro", Some("Novel"), Some("Ongoing")),
        card("https://tsundoku.com.br/manga/simples", "Simples", None, Some("completed")),
        card("", "vazio", None, None),
        card("/", "barra", None, None),
    ]);
    assert_eq!(entries.len(), 3);
    assert_eq!(entries[0].key, "solo");
    assert_eq!(entries[0].url.as_deref(), Some("https://tsundoku.com.br/manga/solo/?type=Manhwa"));
    assert_eq!(entries[0].status, MangaStatus::Completed);
    assert_eq!(entries[0].cover.as_deref(), Some("c.jpg"));
    assert_eq!(entries[1].url.as_deref(), Some("https://tsundoku.com.br/manga/livro/?type=Novel"));
    assert_eq!(entries[1].status, MangaStatus::Ongoing);
    assert_eq!(entries[2].url.as_deref(), Some("https://tsundoku.com.br/manga/simples/"));
    assert_eq!(entries[2].status, MangaStatus::Ongoing);
}

fn entry(key: &str) -> MangaEntry {
    MangaEntry { key: s(key), title: s(key), cover: None, url: None, status: MangaStatus::Unknown }
}

#[test]
fn tsundoku_merged_listing_keeps_first_of_each_key() {
    let pages = vec![vec![entry("a"), entry("b")], vec![entry("b"), entry("c")], vec![], vec![entry("a"), entry("d")]];
    let merged = listing_entries("todos", pages);
    let keys: Vec<&str> = merged.iter().map(|e| e.key.as_str()).collect();
    assert_eq!(keys, vec!["a", "b", "c", "d"]);
}

#[test]
fn tsundoku_single_listing_keeps_all() {
    let merged = listing_entries("mangas", vec![vec![entry("a"), entry("a"), entry("b")]]);
    assert_eq!(merged.len(), 3);
    assert!(listing_entries("mangas", vec![]).is_empty());
}

#[test]
fn tsundoku_manga_page_urls() {
    assert_eq!(manga_page_url("solo", &None), Ok(s("https://tsundoku.com.br/manga/solo/")));
    assert_eq!(
        manga_page_url("", &o("https://tsundoku.com.br/manga/solo/")),
        Ok(s("https://tsundoku.com.br/manga/solo/"))
    );
    assert_eq!(manga_page_url("", &None), Err(SourceError::InvalidMangaSlug));
    assert_eq!(SourceError::InvalidMangaSlug.message(), "invalid manga slug");
}

fn record() -> MangaRecord {
    MangaRecord {
        key: s("solo"),
        title: s("old"),
        cover: None,
        description: None,
        url: o("https://tsundoku.com.br/manga/solo/"),
        status: MangaStatus::Unknown,
        tags: None,
    }
}

#[test]
fn tsundoku_details_fill_the_manga() {
    let mut m = record();
    apply_details(
        &mut m,
        MangaDetails {
            title: o("Solo Leveling"),
            cover: o("capa.jpg"),
            description: o("Sinopse"),
            info: vec![
                InfoItem { text: o("Status Ongoing"), status: o("Ongoing"), kind: None },
                InfoItem { text: o("Tipo Manhwa"), status: None, kind: o("Manhwa") },
                InfoItem { text: o("status"), status: o("Completed"), kind: None },
            ],
            genres: vec![o("Ação"), o("Fantasia")],
        },
        "https://tsundoku.com.br/manga/solo/",
    );
    assert_eq!(m.title, "Solo Leveling");
    assert_eq!(m.cover.as_deref(), Some("capa.jpg"));
    assert_eq!(m.description.as_deref(), Some("Sinopse"));
    assert_eq!(m.status, MangaStatus::Ongoing);
    assert_eq!(m.url.as_deref(), Some("https://tsundoku.com.br/manga/solo/?type=Manhwa"));
    assert_eq!(m.tags, Some(vec![s("Ação"), s("Fantasia")]));
}

#[test]
fn tsundoku_details_status_unknown_and_no_type() {
    let mut m = record();
    apply_details(
        &mut m,
        MangaDetails {
            title: None,
            cover: None,
            description: None,
            info: vec![InfoItem { text: o("Status"), status: o("Hiato"), kind: None }],
            genres: vec![],
        },
        "https://tsundoku.com.br/manga/solo/",
    );
    assert_eq!(m.status, MangaStatus::Unknown);
    assert_eq!(m.url.as_deref(), Some("https://tsundoku.com.br/manga/solo/"));
    assert_eq!(m.tags, None);
    assert_eq!(m.title, "old");
}

#[test]
fn tsundoku_chapter_numbers() {
    assert_eq!(parse_chapter_number("Capítulo 12.5").as_deref(), Some("12.5"));
    assert_eq!(parse_chapter_number("Cap. 3").as_deref(), Some("3"));
    assert_eq!(parse_chapter_number("Vol.2 Cap.10").as_deref(), Some(".10"));
    assert_eq!(parse_chapter_number("1.2.3"), None);
    assert_eq!(parse_chapter_number("Capítulo 4 - 1.2.3"), Some(s("4")));
    assert_eq!(parse_chapter_number("Extra"), None);
    assert_eq!(parse_chapter_number("   "), None);
    assert_eq!(parse_chapter_number(""), None);
    for t in ["12.5", "3", ".10", "4", "7."] {
        assert!(t.parse::<f32>().is_ok());
    }
    assert_eq!(parse_chapter_number("Ch 7.").as_deref(), Some("7."));
}

#[test]
fn tsundoku_dates() {
    let q = tsundoku_date_query_of(" 15 Janeiro 2024 ").unwrap();
    assert_eq!(q.text, "2024-01-15");
    assert_eq!(q.format, DateFormat::IsoDate);
    assert_eq!(q.format.pattern(), "yyyy-MM-dd");
    let q = tsundoku_date_query_of("março 5, 2024").unwrap();
    assert_eq!(q.text, "2024-03-03");
    let q = tsundoku_date_query_of("January 5, 2024").unwrap();
    assert_eq!(q.text, "January 5, 2024");
    assert_eq!(q.format, DateFormat::MonthDayYear);
    let q = tsundoku_date_query_of("maio 2024").unwrap();
    assert_eq!(q.text, "maio 2024");
    assert_eq!(q.format, DateFormat::MonthDayYear);
    assert!(tsundoku_date_query_of("").is_none());
    assert!(tsundoku_date_query_of(" \t ").is_none());
}

#[test]
fn tsundoku_chapter_items_ordered_lowest_first() {
    let chapters = chapter_records(vec![
        ChapterItem { href: o("https://x/c2"), number: o(" Capítulo 2 "), date: o("2 fevereiro 2024") },
        ChapterItem { href: o("https://x/c1"), number: o("Capítulo 1"), date: None },
        ChapterItem { href: None, number: o("Capítulo 3"), date: None },
        ChapterItem { href: o("https://x/c0"), number: o(" "), date: None },
        ChapterItem { href: o("https://x/e"), number: o("Especial"), date: o("") },
    ]);
    assert_eq!(chapters.len(), 3);
    assert_eq!(chapters[0].title.as_deref(), Some("Capítulo 2"));
    assert_eq!(chapters[0].date.len(), 1);
    assert_eq!(chapters[0].date[0].text, "2024-02-2");
    assert!(chapters[1].date.is_empty());
    assert!(chapters[2].date.is_empty());
    let keyed: Vec<(i64, _)> = chapters
        .into_iter()
        .map(|c| {
            let n: f32 = c.number.as_deref().map(|t| t.parse().unwrap()).unwrap_or(0.0);
            (n.to_bits() as i64, c)
        })
        .collect();
    let ordered = order_chapters(keyed);
    let keys: Vec<&str> = ordered.iter().map(|c| c.key.as_str()).collect();
    assert_eq!(keys, vec!["https://x/e", "https://x/c1", "https://x/c2"]);
}

#[test]
fn tsundoku_image_and_novel_pages() {
    let imgs = vec![o("https://x/readerarea.svg"), o("https://x/1.jpg"), None, o(""), o("https://x/apoiar.png")];
    assert_eq!(
        image_pages(&imgs).unwrap(),
        vec![PageRecord::Url(s("https://x/1.jpg")), PageRecord::Url(s("https://x/apoiar.png"))]
    );
    assert_eq!(novel_pages(&imgs, &None).unwrap(), vec![PageRecord::Url(s("https://x/1.jpg"))]);
    let banners = vec![o("https://x/apoiar.png")];
    assert_eq!(novel_pages(&banners, &o("  Era uma vez.  ")).unwrap(), vec![PageRecord::Text(s("Era uma vez."))]);
    assert_eq!(novel_pages(&banners, &o("   ")), Err(SourceError::NoNovelContentFound));
    assert_eq!(novel_pages(&vec![], &None), Err(SourceError::NoNovelContentFound));
    assert_eq!(image_pages(&banners[..0].to_vec()), Err(SourceError::NoImagesFound));
    assert_eq!(SourceError::NoNovelContentFound.message(), "no novel content found");
}

#[test]
fn tsundoku_pages_by_manga_type() {
    let novel = o("https://tsundoku.com.br/manga/livro/?type=Novel");
    let comic = o("https://tsundoku.com.br/manga/solo/?type=Manhwa");
    assert!(is_novel(&novel));
    assert!(!is_novel(&comic));
    assert!(!is_novel(&None));
    let imgs = vec![o("https://x/apoiar.png")];
    assert_eq!(page_list(&novel, &imgs, &o("texto")).unwrap(), vec![PageRecord::Text(s("texto"))]);
    assert_eq!(page_list(&comic, &imgs, &o("texto")).unwrap(), vec![PageRecord::Url(s("https://x/apoiar.png"))]);
}

#[test]
fn tsundoku_deep_links() {
    assert_eq!(deep_link("https://tsundoku.com.br/manga/solo/?type=Manhwa").as_deref(), Some("solo"));
    assert_eq!(deep_link("https://tsundoku.com.br/manga/solo").as_deref(), Some("solo"));
    assert_eq!(deep_link("https://tsundoku.com.br/mangas/"), None);
    assert_eq!(deep_link("https://tsundoku.com.br/manga/?x=1").as_deref(), Some("manga"));
}

#[test]
fn tsundoku_entry_urls_open_their_manga() {
    let entries = list_entries(vec![
        card("https://tsundoku.com.br/manga/solo/", "Solo", Some("Manhwa"), None),
        card("https://tsundoku.com.br/manga/livro/", "Livro", None, None),
    ]);
    for e in &entries {
        assert_eq!(deep_link(e.url.as_deref().unwrap()).as_deref(), Some(e.key.as_str()));
    }
}

#[test]
fn tsundoku_lowered_helpers() {
    assert_eq!(status_named("ongoing"), MangaStatus::Ongoing);
    assert_eq!(status_named("completed"), MangaStatus::Completed);
    assert_eq!(status_named("Completed"), MangaStatus::Unknown);
    assert_eq!(tsundoku_month_date_of("9 agosto 2020").as_deref(), Some("2020-08-9"));
    assert_eq!(tsundoku_month_date_of("9 agosto"), None);
    assert_eq!(tsundoku_month_date_of("9 August 2020"), None);
}
