//! Verified core of a tool that keeps a Bandcamp collection, and albums
//! ripped from CDs, in sync with a local folder or a WebDAV library.

pub mod text;
pub mod cd;
pub mod paths;
pub mod bandcamp;
pub mod storage;
pub mod thirdparty;
pub mod cli;
