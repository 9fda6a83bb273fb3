//! Reading CDs: table of contents, CD-TEXT, disc identifiers, MusicBrainz
//! metadata and the files a rip produces.

pub mod models;
pub mod reader;
pub mod musicbrainz;
pub mod ripper;
