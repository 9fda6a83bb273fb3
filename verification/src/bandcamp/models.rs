//! Collection data as the Bandcamp API returns it, reduced to plain values.

use vstd::prelude::*;
use crate::text::copy_opt_string;

verus! {

/// An item of a fan's collection: the identifiers, names and links that the
/// library reads.
pub struct CollectionItem {
    pub fan_id: i64,
    pub item_id: i64,
    pub item_type: String,
    pub item_title: String,
    pub item_url: String,
    pub band_id: i64,
    pub band_name: String,
    pub band_url: String,
    pub album_id: Option<i64>,
    pub album_title: Option<String>,
    pub tralbum_id: i64,
    pub tralbum_type: String,
    pub item_art_id: Option<i64>,
    pub item_art_url: Option<String>,
    pub num_streamable_tracks: Option<i32>,
}

impl CollectionItem {
    /// A field-by-field copy.
    pub fn duplicate(&self) -> (r: Self)
        ensures
            r == *self,
    {
        CollectionItem {
            fan_id: self.fan_id,
            item_id: self.item_id,
            item_type: self.item_type.clone(),
            item_title: self.item_title.clone(),
            item_url: self.item_url.clone(),
            band_id: self.band_id,
            band_name: self.band_name.clone(),
            band_url: self.band_url.clone(),
            album_id: self.album_id,
            album_title: copy_opt_string(&self.album_title),
            tralbum_id: self.tralbum_id,
            tralbum_type: self.tralbum_type.clone(),
            item_art_id: self.item_art_id,
            item_art_url: copy_opt_string(&self.item_art_url),
            num_streamable_tracks: self.num_streamable_tracks,
        }
    }
}

/// One page of the collection API.
pub struct CollectionResponse {
    pub items: Vec<CollectionItem>,
    pub more_available: bool,
    pub last_token: Option<String>,
}

/// The logged-in fan.
pub struct FanData {
    pub fan_id: i64,
    pub username: String,
    pub url: String,
}

/// The `data-blob` of a Bandcamp page.
pub struct PageData {
    pub fan_data: Option<FanData>,
    pub item_cache: Option<ItemCache>,
}

/// Collection items cached in a page.
pub struct ItemCache {
    pub collection: Vec<CollectionItem>,
}

/// A flag of the Bandcamp API as it arrives in JSON: a boolean, a number
/// (with its value when that is an integer that fits in `i64`), or
/// something else.
#[derive(Debug, Clone, Copy, PartialEq, Eq, Structural)]
pub enum JsonFlag {
    Bool(bool),
    Integer(i64),
    OtherNumber,
    Other,
}

/// The flag a JSON value stands for: a boolean as it is, an integer as
/// whether it is non-zero, nothing for anything else.
pub open spec fn flag_value(f: JsonFlag) -> Option<bool> {
    match f {
        JsonFlag::Bool(b) => Some(b),
        JsonFlag::Integer(i) => Some(i != 0),
        _ => None,
    }
}

/// Reads a flag that the API sends as a boolean or as an integer.
pub fn flag_from_json(f: JsonFlag) -> (r: Option<bool>)
    ensures
        r == flag_value(f),
{
    match f {
        JsonFlag::Bool(b) => Some(b),
        JsonFlag::Integer(i) => Some(i != 0),
        _ => None,
    }
}

} // verus!
