//! The Bandcamp side: collection items, login data, collection paging and
//! album pages.

pub mod models;
pub mod client;
pub mod download;
