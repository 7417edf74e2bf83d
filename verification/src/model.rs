//! The values the sources produce: manga entries, manga details, chapters,
//! pages and date queries.
use vstd::prelude::*;

verus! {

/// Publication status of a manga.
#[derive(Clone, Copy, Debug, PartialEq, Eq, Structural)]
pub enum MangaStatus {
    Unknown,
    Ongoing,
    Completed,
    Cancelled,
    Hiatus,
}

/// A manga as a listing shows it.
#[derive(Debug, PartialEq, Eq)]
pub struct MangaEntry {
    pub key: String,
    pub title: String,
    pub cover: Option<String>,
    pub url: Option<String>,
    pub status: MangaStatus,
}

/// The mathematical value of a manga entry.
pub struct EntryView {
    pub key: Seq<char>,
    pub title: Seq<char>,
    pub cover: Option<Seq<char>>,
    pub url: Option<Seq<char>>,
    pub status: MangaStatus,
}

/// The text of an optional string.
pub open spec fn text_of(o: Option<String>) -> Option<Seq<char>> {
    match o {
        Some(s) => Some(s@),
        None => None,
    }
}

impl View for MangaEntry {
    type V = EntryView;

    open spec fn view(&self) -> EntryView {
        EntryView {
            key: self.key@,
            title: self.title@,
            cover: text_of(self.cover),
            url: text_of(self.url),
            status: self.status,
        }
    }
}

/// The views of a sequence of manga entries.
pub open spec fn entry_views(es: Seq<MangaEntry>) -> Seq<EntryView> {
    es.map_values(|e: MangaEntry| e@)
}

/// One page of a listing or a search.
#[derive(Debug, PartialEq, Eq)]
pub struct MangaPage {
    pub entries: Vec<MangaEntry>,
    pub has_next_page: bool,
}

/// The fields of a manga that a source reads or fills in when it updates it.
#[derive(Debug, PartialEq, Eq)]
pub struct MangaRecord {
    pub key: String,
    pub title: String,
    pub cover: Option<String>,
    pub description: Option<String>,
    pub url: Option<String>,
    pub status: MangaStatus,
    pub tags: Option<Vec<String>>,
}

/// The patterns with which a date text is read.
#[derive(Clone, Copy, Debug, PartialEq, Eq, Structural)]
pub enum DateFormat {
    /// `yyyy-MM-dd`
    IsoDate,
    /// `MMMM d, yyyy`
    MonthDayYear,
    /// `yyyy-MM-dd'T'HH:mm:ss.SSS'Z'`
    IsoTimestamp,
}

/// The pattern string of each date format.
pub open spec fn format_pattern(f: DateFormat) -> Seq<char> {
    match f {
        DateFormat::IsoDate => "yyyy-MM-dd"@,
        DateFormat::MonthDayYear => "MMMM d, yyyy"@,
        DateFormat::IsoTimestamp => "yyyy-MM-dd'T'HH:mm:ss.SSS'Z'"@,
    }
}

impl DateFormat {
    /// The pattern string handed to the date parser.
    pub fn pattern(&self) -> (r: &'static str)
        ensures
            r@ == format_pattern(*self),
    {
        match self {
            DateFormat::IsoDate => "yyyy-MM-dd",
            DateFormat::MonthDayYear => "MMMM d, yyyy",
            DateFormat::IsoTimestamp => "yyyy-MM-dd'T'HH:mm:ss.SSS'Z'",
        }
    }
}

/// A text to read as a date with a given pattern.
#[derive(Debug, PartialEq, Eq)]
pub struct DateQuery {
    pub text: String,
    pub format: DateFormat,
}

impl View for DateQuery {
    type V = (Seq<char>, DateFormat);

    open spec fn view(&self) -> (Seq<char>, DateFormat) {
        (self.text@, self.format)
    }
}

/// The views of a sequence of date queries.
pub open spec fn query_views(qs: Seq<DateQuery>) -> Seq<(Seq<char>, DateFormat)> {
    qs.map_values(|q: DateQuery| q@)
}

/// A chapter of a manga. `number` is the text of its number, to be read as
/// an `f32` (0 where it does not read); `date` lists the date queries to try
/// in order, the first that reads giving the upload date.
#[derive(Debug, PartialEq, Eq)]
pub struct ChapterRecord {
    pub key: String,
    pub title: Option<String>,
    pub number: Option<String>,
    pub date: Vec<DateQuery>,
}

/// The mathematical value of a chapter.
pub struct ChapterView {
    pub key: Seq<char>,
    pub title: Option<Seq<char>>,
    pub number: Option<Seq<char>>,
    pub date: Seq<(Seq<char>, DateFormat)>,
}

impl View for ChapterRecord {
    type V = ChapterView;

    open spec fn view(&self) -> ChapterView {
        ChapterView {
            key: self.key@,
            title: text_of(self.title),
            number: text_of(self.number),
            date: query_views(self.date@),
        }
    }
}

/// The views of a sequence of chapters.
pub open spec fn chapter_views(cs: Seq<ChapterRecord>) -> Seq<ChapterView> {
    cs.map_values(|c: ChapterRecord| c@)
}

/// The texts of a list of strings.
pub open spec fn texts(v: Seq<String>) -> Seq<Seq<char>> {
    v.map_values(|s: String| s@)
}

/// The texts of an optional list of strings.
pub open spec fn opt_texts(o: Option<Vec<String>>) -> Option<Seq<Seq<char>>> {
    match o {
        Some(v) => Some(texts(v@)),
        None => None,
    }
}

/// The mathematical value of a reader page.
pub enum PageView {
    Url(Seq<char>),
    Text(Seq<char>),
}

impl View for PageRecord {
    type V = PageView;

    open spec fn view(&self) -> PageView {
        match self {
            PageRecord::Url(s) => PageView::Url(s@),
            PageRecord::Text(s) => PageView::Text(s@),
        }
    }
}

/// The views of a sequence of pages.
pub open spec fn page_views(ps: Seq<PageRecord>) -> Seq<PageView> {
    ps.map_values(|p: PageRecord| p@)
}

/// What a reader page shows.
#[derive(Debug, PartialEq, Eq)]
pub enum PageRecord {
    Url(String),
    Text(String),
}

/// The errors the sources report.
#[derive(Clone, Copy, Debug, PartialEq, Eq, Structural)]
pub enum SourceError {
    /// No slug could be found for a NinjaComics manga.
    InvalidSlug,
    /// No slug could be found for a Tsundoku manga.
    InvalidMangaSlug,
    /// A chapter page holds no image.
    NoImagesFound,
    /// A novel chapter holds neither images nor text.
    NoNovelContentFound,
}

/// The message of each error.
pub open spec fn error_message(e: SourceError) -> Seq<char> {
    match e {
        SourceError::InvalidSlug => "invalid slug"@,
        SourceError::InvalidMangaSlug => "invalid manga slug"@,
        SourceError::NoImagesFound => "no images found"@,
        SourceError::NoNovelContentFound => "no novel content found"@,
    }
}

impl SourceError {
    /// The message reported to the reader.
    pub fn message(&self) -> (r: &'static str)
        ensures
            r@ == error_message(*self),
    {
        match self {
            SourceError::InvalidSlug => "invalid slug",
            SourceError::InvalidMangaSlug => "invalid manga slug",
            SourceError::NoImagesFound => "no images found",
            SourceError::NoNovelContentFound => "no novel content found",
        }
    }
}

} // verus!
