# ptbr_sources

Three Brazilian-Portuguese manga sources for the Aidoku reader — MangaFlix,
NinjaComics and Tsundoku — with their logic verified in Verus.

The library (`src/`) holds what the sources decide: the addresses they
fetch, how listing cards become manga entries, how a manga page or an API
answer updates a manga, how chapter items become chapters (titles, number
tokens, release-date queries), how chapters and pages are ordered, which
reader pages a chapter has, and which manga a deep link opens. Every
function states its result exactly over `Seq<char>` specifications, and the
laws that tie functions together (manga URLs lead back to their slugs, merged
listings hold each key once, sorts are stable) are proved as proof
functions.

- `src/text.rs`: the string operations used (trim, split into words,
  replace, search, last path segment, decimal writing), each a spec function
  with an implementation proved against it.
- `src/sort.rs`: a stable sort by integer key.
- `src/model.rs`: manga entries, manga records, chapters, pages, date
  queries, errors.
- `src/common.rs`, `src/dates.rs`: slugs, chapter-number tokens, Portuguese
  release dates.
- `src/mangaflix.rs`, `src/ninjacomics.rs`, `src/tsundoku.rs`: one module per
  source.
- `app/`: the Aidoku side — requests, HTML selection, JSON, date parsing and
  `f32` conversion — which hands plain values to the library.
- `tests/`: tests of the library on concrete values.
