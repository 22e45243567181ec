//! Catalog logic of a Calibre OPDS server: configuration, feed rendering,
//! EPUB metadata rewriting and the decisions taken by the web handlers.

pub mod config;
pub mod dates;
pub mod db;
pub mod epub;
pub mod html;
pub mod opds;
pub mod text;
pub mod web;
pub mod xml;
