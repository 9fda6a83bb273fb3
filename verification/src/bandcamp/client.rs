//! Finding the fan id of a logged-in user and paging through the
//! collection API.

use vstd::prelude::*;
use crate::text;
use crate::thirdparty;

verus! {

/// The pattern of a `"fan_id": 123` pair in a page.
pub open spec fn fan_id_json_pattern() -> Seq<char> {
    "\"fan_id\"\\s*:\\s*(\\d+)"@
}

/// The user name linked from the logged-in home page, if any: the first
/// link `href="/name"`, `href="/name/collection"` or `href="/name/wishlist"`.
/// The error (a pattern that does not compile) does not occur.
pub fn homepage_username(html: &str) -> (r: Result<Option<String>, ()>)
    ensures
        match r {
            Ok(u) => text::opt_str(u) == thirdparty::user_link_capture(html@, 0),
            Err(_) => false,
        },
{
    thirdparty::first_capture("href=\"/([^/\"]+)(?:/collection|/wishlist|\")", html)
}

/// The pages searched for the fan id: the home page, then, when a user name
/// is known, the user's page and collection page.
pub open spec fn fan_id_pages_of(username: Option<Seq<char>>) -> Seq<Seq<char>> {
    match username {
        None => seq!["https://bandcamp.com/"@],
        Some(u) => seq![
            "https://bandcamp.com/"@,
            "https://bandcamp.com/"@ + u,
            "https://bandcamp.com/"@ + u + "/collection"@,
        ],
    }
}

/// The pages searched for the fan id.
pub fn fan_id_pages(username: &Option<String>) -> (r: Vec<String>)
    ensures
        text::str_views(r@) == fan_id_pages_of(text::opt_str(*username)),
{
    let mut urls: Vec<String> = Vec::new();
    urls.push("https://bandcamp.com/".to_string());
    match username {
        None => {
            assert(text::str_views(urls@) =~= fan_id_pages_of(text::opt_str(*username)));
        },
        Some(u) => {
            let mut page = text::chars_of("https://bandcamp.com/");
            text::append_str(&mut page, u.as_str());
            let mut coll = text::copy_chars(&page);
            text::append_str(&mut coll, "/collection");
            urls.push(text::string_from_chars(&page));
            urls.push(text::string_from_chars(&coll));
            assert(text::str_views(urls@) =~= fan_id_pages_of(text::opt_str(*username)));
        },
    }
    urls
}

/// What a page says about the fan id.
#[derive(Debug, PartialEq, Eq, Structural)]
pub enum FanIdScan {
    /// A `"fan_id": 123` pair with this number.
    Found(i64),
    /// No such pair.
    NotFound,
    /// Such a pair whose number does not fit in 64 bits.
    BadNumber,
    /// The pattern did not compile.
    BadPattern,
}

/// The fan id a page gives by its `"fan_id": 123` pair.
pub fn scan_fan_id(html: &str) -> (r: FanIdScan)
    ensures
        match thirdparty::regex_group1(fan_id_json_pattern(), html@) {
            None => r == FanIdScan::BadPattern,
            Some(None) => r == FanIdScan::NotFound,
            Some(Some(d)) => match text::parse_int(d, true, i64::MIN as int, i64::MAX as int) {
                Some(x) => r == FanIdScan::Found(x as i64),
                None => r == FanIdScan::BadNumber,
            },
        },
{
    let pattern = "\"fan_id\"\\s*:\\s*(\\d+)";
    assert(pattern@ == fan_id_json_pattern());
    match thirdparty::first_capture(pattern, html) {
        Err(_) => FanIdScan::BadPattern,
        Ok(None) => FanIdScan::NotFound,
        Ok(Some(d)) => match text::parse_i64(&text::chars_of(d.as_str())) {
            Some(x) => FanIdScan::Found(x),
            None => FanIdScan::BadNumber,
        },
    }
}

/// What one page tells of the fan id: the `"fan_id": 123` pair first,
/// else the page's `pagedata` blob, whose JSON holds the logged-in fan.
#[derive(Debug, PartialEq, Eq)]
pub enum PageFanId {
    /// A `"fan_id": 123` pair with this number.
    Found(i64),
    /// Such a pair whose number does not fit in 64 bits.
    BadNumber,
    /// The pattern did not compile.
    BadPattern,
    /// No such pair; the page's `pagedata` blob, to be read as JSON.
    PageData(String),
    /// Neither a pair nor a `pagedata` blob.
    NotFound,
}

/// What a page tells of the fan id.
pub fn page_fan_id(html: &str) -> (r: PageFanId)
    ensures
        match thirdparty::regex_group1(fan_id_json_pattern(), html@) {
            None => r == PageFanId::BadPattern,
            Some(None) => match thirdparty::pagedata_blob_of(html@) {
                Some(b) => r matches PageFanId::PageData(s) && s@ == b,
                None => r == PageFanId::NotFound,
            },
            Some(Some(d)) => match text::parse_int(d, true, i64::MIN as int, i64::MAX as int) {
                Some(x) => r == PageFanId::Found(x as i64),
                None => r == PageFanId::BadNumber,
            },
        },
{
    match scan_fan_id(html) {
        FanIdScan::Found(x) => PageFanId::Found(x),
        FanIdScan::BadNumber => PageFanId::BadNumber,
        FanIdScan::BadPattern => PageFanId::BadPattern,
        FanIdScan::NotFound => match thirdparty::pagedata_blob(html) {
            Some(b) => PageFanId::PageData(b),
            None => PageFanId::NotFound,
        },
    }
}

/// Where the collection API is read from: the token of the next request
/// and how many pages were asked for.
pub struct CollectionPager {
    pub older_than_token: Option<String>,
    pub pages: u64,
}

/// The token of a first request at time `now`: `now::a::`.
pub open spec fn initial_token(now: int) -> Seq<char> {
    text::int_decimal(now) + "::a::"@
}

impl CollectionPager {
    /// Before the first page.
    pub fn new() -> (r: Self)
        ensures
            r.older_than_token is None,
            r.pages == 0,
    {
        CollectionPager { older_than_token: None, pages: 0 }
    }

    /// Starts the next request at time `now`: its `older_than_token` is the
    /// one the previous page ended with, or `now::a::` when there is none.
    pub fn request_token(&mut self, now: i64) -> (r: String)
        requires
            old(self).pages < u64::MAX,
        ensures
            final(self).pages == old(self).pages + 1,
            final(self).older_than_token == old(self).older_than_token,
            r@ == match old(self).older_than_token {
                Some(t) => t@,
                None => initial_token(now as int),
            },
    {
        self.pages = self.pages + 1;
        match &self.older_than_token {
            Some(t) => t.clone(),
            None => {
                let mut v = text::i64_decimal(now);
                text::append_str(&mut v, "::a::");
                text::string_from_chars(&v)
            },
        }
    }

    /// Takes in a page of `items_count` items: fetching goes on while more
    /// are available and the page was not empty, from the page's last token.
    pub fn on_page(&mut self, items_count: usize, more_available: bool, last_token: Option<String>) -> (more:
        bool)
        ensures
            more == (more_available && items_count > 0),
            final(self).pages == old(self).pages,
            more ==> final(self).older_than_token == last_token,
            !more ==> final(self).older_than_token == old(self).older_than_token,
    {
        if !more_available || items_count == 0 {
            return false;
        }
        self.older_than_token = last_token;
        true
    }
}

} // verus!
