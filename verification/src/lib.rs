//! Scraping and presentation logic of a small web video client: turning
//! fetched HTML pages into video records, building widget markup, and the
//! small decisions the desktop front end takes about settings, caches and
//! downloads.

pub mod text;
pub mod dom;
pub mod youtube;
pub mod paths;
pub mod downloader;
pub mod storage;
pub mod preferences;
pub mod markup;
pub mod views;
