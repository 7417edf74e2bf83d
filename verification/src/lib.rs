//! Verified logic of three Brazilian-Portuguese manga sources: MangaFlix,
//! NinjaComics and Tsundoku. The library turns what a page or an API answer
//! holds into manga entries, chapters and pages; fetching and HTML selection
//! are left to the host application.
pub mod text;
pub mod sort;
pub mod model;
pub mod dates;
pub mod common;
pub mod mangaflix;
pub mod ninjacomics;
pub mod tsundoku;
