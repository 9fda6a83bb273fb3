//! Credentials: the Bandcamp cookie as the keyring stores it, WebDAV keyring
//! keys, and the fan id on the page a login lands on.

use vstd::prelude::*;
use crate::text;
use crate::thirdparty;

verus! {

/// How long a stored Bandcamp cookie stays valid, in seconds.
pub const COOKIE_LIFETIME_SECS: i64 = 600;

/// `s` split at its first two colons (`str::splitn(3, ':')`): one, two or
/// three pieces, the last holding the rest of `s`.
pub open spec fn split3(s: Seq<char>) -> Seq<Seq<char>> {
    match text::first_index_of(s, ':') {
        None => seq![s],
        Some(a) => {
            let rest = s.skip(a + 1);
            match text::first_index_of(rest, ':') {
                None => seq![s.take(a), rest],
                Some(b) => seq![s.take(a), rest.take(b), rest.skip(b + 1)],
            }
        },
    }
}

/// Splits `s` at its first two colons.
pub fn split_colon3(s: &Vec<char>) -> (r: Vec<Vec<char>>)
    ensures
        text::views(r@) == split3(s@),
{
    let mut out: Vec<Vec<char>> = Vec::new();
    match text::find_char(s, ':') {
        None => {
            out.push(text::copy_chars(s));
            assert(text::views(out@) =~= seq![s@]);
        },
        Some(a) => {
            let head = text::subrange_of(s, 0, a);
            let rest = text::subrange_of(s, a + 1, s.len());
            assert(head@ =~= s@.take(a as int));
            assert(rest@ =~= s@.skip(a + 1));
            match text::find_char(&rest, ':') {
                None => {
                    out.push(head);
                    out.push(rest);
                    assert(text::views(out@) =~= seq![s@.take(a as int), s@.skip(a + 1)]);
                },
                Some(b) => {
                    let mid = text::subrange_of(&rest, 0, b);
                    let tail = text::subrange_of(&rest, b + 1, rest.len());
                    assert(mid@ =~= rest@.take(b as int));
                    assert(tail@ =~= rest@.skip(b + 1));
                    out.push(head);
                    out.push(mid);
                    out.push(tail);
                    assert(text::views(out@) =~= seq![
                        s@.take(a as int),
                        rest@.take(b as int),
                        rest@.skip(b + 1),
                    ]);
                },
            }
        },
    }
    out
}

/// The value the keyring stores for a Bandcamp cookie taken at `timestamp`
/// (seconds since the epoch): `timestamp:cookie`.
pub open spec fn stored_cookie(timestamp: int, cookie: Seq<char>) -> Seq<char> {
    text::int_decimal(timestamp) + seq![':'] + cookie
}

/// The value the keyring stores for `cookie`, taken at `timestamp`.
pub fn stored_cookie_value(timestamp: i64, cookie: &str) -> (r: String)
    ensures
        r@ == stored_cookie(timestamp as int, cookie@),
{
    let mut v = text::i64_decimal(timestamp);
    v.push(':');
    text::append_str(&mut v, cookie);
    text::string_from_chars(&v)
}

/// The timestamp at the front of a stored value, when the value has at
/// least two pieces and the first is a 64-bit integer.
pub open spec fn stored_timestamp(stored: Seq<char>) -> Option<int> {
    let parts = split3(stored);
    if parts.len() >= 2 {
        text::parse_int(parts[0], true, i64::MIN as int, i64::MAX as int)
    } else {
        None
    }
}

/// The cookie a stored value holds: the piece after the timestamp, with the
/// fan id after a colon when there is one.
pub open spec fn stored_cookie_body(stored: Seq<char>) -> Seq<char> {
    let parts = split3(stored);
    if parts.len() == 3 {
        parts[1] + seq![':'] + parts[2]
    } else {
        parts[1]
    }
}

/// What the keyring's Bandcamp entry gives.
#[derive(Debug, PartialEq, Eq)]
pub enum StoredCookie {
    /// The cookie (`cookie` or `cookie:fan_id`), still fresh.
    Valid(String),
    /// Stored more than ten minutes ago: the entry is to be deleted.
    Expired,
    /// Not of the form `timestamp:cookie`: the entry is to be deleted.
    Invalid,
}

/// The timestamp of a stored value, as `read_stored_cookie` reads it.
pub fn stored_cookie_timestamp(stored: &str) -> (r: Option<i64>)
    ensures
        match r {
            Some(t) => stored_timestamp(stored@) == Some(t as int),
            None => stored_timestamp(stored@) is None,
        },
{
    let v = text::chars_of(stored);
    let parts = split_colon3(&v);
    if parts.len() >= 2 {
        assert(text::views(parts@)[0] == parts@[0]@);
        text::parse_i64(&parts[0])
    } else {
        None
    }
}

/// Reads the keyring's Bandcamp entry at time `now`: a cookie stored at most
/// ten minutes ago is valid; an older one has expired; a value that is not
/// `timestamp:cookie` is invalid.
pub fn read_stored_cookie(stored: &str, now: i64) -> (r: StoredCookie)
    requires
        stored_timestamp(stored@) matches Some(t) ==> i64::MIN <= now - t <= i64::MAX,
    ensures
        match stored_timestamp(stored@) {
            None => r == StoredCookie::Invalid,
            Some(t) => if now - t > COOKIE_LIFETIME_SECS {
                r == StoredCookie::Expired
            } else {
                r matches StoredCookie::Valid(c) && c@ == stored_cookie_body(stored@)
            },
        },
{
    let v = text::chars_of(stored);
    let parts = split_colon3(&v);
    if parts.len() >= 2 {
        assert(text::views(parts@)[0] == parts@[0]@);
        assert(text::views(parts@)[1] == parts@[1]@);
        match text::parse_i64(&parts[0]) {
            Some(timestamp) => {
                let age = now - timestamp;
                if age > COOKIE_LIFETIME_SECS {
                    return StoredCookie::Expired;
                }
                if parts.len() == 3 {
                    assert(text::views(parts@)[2] == parts@[2]@);
                    let mut c = text::copy_chars(&parts[1]);
                    c.push(':');
                    text::append_chars(&mut c, &parts[2]);
                    return StoredCookie::Valid(text::string_from_chars(&c));
                } else {
                    return StoredCookie::Valid(text::string_from_chars(&parts[1]));
                }
            },
            None => {},
        }
    }
    StoredCookie::Invalid
}

proof fn lemma_decimal_has_no_colon(t: int)
    ensures
        forall|k: int| 0 <= k < text::int_decimal(t).len() ==> #[trigger] text::int_decimal(t)[k] != ':',
{
    let n: nat = (if t < 0 { -t } else { t }) as nat;
    text::lemma_nat_digits(n);
    let d = text::nat_digits(n);
    assert forall|k: int| 0 <= k < text::int_decimal(t).len() implies #[trigger] text::int_decimal(t)[k] != ':' by {
        if t < 0 {
            if k > 0 {
                assert(text::int_decimal(t)[k] == d[k - 1]);
                assert('0' <= d[k - 1] <= '9');
            }
        } else {
            assert('0' <= d[k] <= '9');
        }
    }
}

proof fn lemma_rejoin_at_colon(c: Seq<char>)
    ensures
        text::first_index_of(c, ':') matches Some(b) ==> c.take(b) + seq![':'] + c.skip(b + 1) == c,
{
    text::lemma_first_index_of_found(c, ':');
    if let Some(b) = text::first_index_of(c, ':') {
        assert(c.take(b) + seq![':'] + c.skip(b + 1) =~= c);
    }
}

proof fn lemma_split3_after(head: Seq<char>, cookie: Seq<char>)
    requires
        forall|k: int| 0 <= k < head.len() ==> #[trigger] head[k] != ':',
    ensures
        split3(head + seq![':'] + cookie).len() >= 2,
        split3(head + seq![':'] + cookie)[0] == head,
        stored_cookie_body(head + seq![':'] + cookie) == cookie,
{
    let s = head + seq![':'] + cookie;
    assert(text::first_index_of(s, ':') == Some(head.len() as int)) by {
        assert(s[head.len() as int] == ':');
        assert forall|k: int| 0 <= k < head.len() implies s[k] != ':' by {
            assert(s[k] == head[k]);
        }
        text::lemma_first_index_of(s, ':', head.len() as int);
    }
    assert(s.take(head.len() as int) =~= head);
    assert(s.skip(head.len() as int + 1) =~= cookie);
    lemma_rejoin_at_colon(cookie);
}

/// A cookie stored at `timestamp` is read back as the same cookie with the
/// same timestamp, whatever colons the cookie holds: read within ten minutes
/// it is valid and equal to what was stored, read later it has expired.
pub proof fn lemma_stored_cookie_roundtrip(timestamp: int, cookie: Seq<char>)
    requires
        i64::MIN <= timestamp <= i64::MAX,
    ensures
        stored_timestamp(stored_cookie(timestamp, cookie)) == Some(timestamp),
        stored_cookie_body(stored_cookie(timestamp, cookie)) == cookie,
{
    let d = text::int_decimal(timestamp);
    lemma_decimal_has_no_colon(timestamp);
    lemma_split3_after(d, cookie);
    text::lemma_parse_int_decimal(timestamp, i64::MIN as int, i64::MAX as int);
}

/// What `status` reports about the keyring's Bandcamp entry.
#[derive(Debug, PartialEq, Eq)]
pub enum CookieStatus {
    /// Still valid for `expires_in` seconds; `fan_id` when one is stored.
    Fresh { expires_in: i64, fan_id: Option<String> },
    /// Expired `ago` seconds ago.
    Expired { ago: i64, fan_id: Option<String> },
    /// The piece before the first colon is not a timestamp.
    InvalidTimestamp,
    /// The value holds no colon: written by an older version.
    OldFormat,
}

/// The fan id a stored value holds: its third piece.
pub open spec fn stored_fan_id(stored: Seq<char>) -> Option<Seq<char>> {
    let parts = split3(stored);
    if parts.len() == 3 { Some(parts[2]) } else { None }
}

/// The status of the keyring's Bandcamp entry `stored` at time `now`: the
/// seconds left of its ten minutes, or since they ran out.
pub fn cookie_status(stored: &str, now: i64) -> (r: CookieStatus)
    requires
        stored_timestamp(stored@) matches Some(t) ==> i64::MIN <= now - t <= i64::MAX && i64::MIN
            < COOKIE_LIFETIME_SECS - (now - t) <= i64::MAX,
    ensures
        split3(stored@).len() < 2 ==> r == CookieStatus::OldFormat,
        split3(stored@).len() >= 2 ==> match stored_timestamp(stored@) {
            None => r == CookieStatus::InvalidTimestamp,
            Some(t) => {
                let remaining = COOKIE_LIFETIME_SECS - (now - t);
                if remaining > 0 {
                    r matches CookieStatus::Fresh { expires_in, fan_id } && expires_in
                        == remaining && text::opt_str(fan_id) == stored_fan_id(stored@)
                } else {
                    r matches CookieStatus::Expired { ago, fan_id } && ago == -remaining
                        && text::opt_str(fan_id) == stored_fan_id(stored@)
                }
            },
        },
{
    let v = text::chars_of(stored);
    let parts = split_colon3(&v);
    if parts.len() < 2 {
        return CookieStatus::OldFormat;
    }
    assert(text::views(parts@)[0] == parts@[0]@);
    match text::parse_i64(&parts[0]) {
        None => CookieStatus::InvalidTimestamp,
        Some(timestamp) => {
            let age = now - timestamp;
            let remaining = COOKIE_LIFETIME_SECS - age;
            let fan_id = if parts.len() == 3 {
                assert(text::views(parts@)[2] == parts@[2]@);
                Some(text::string_from_chars(&parts[2]))
            } else {
                None
            };
            if remaining > 0 {
                CookieStatus::Fresh { expires_in: remaining, fan_id }
            } else {
                CookieStatus::Expired { ago: -remaining, fan_id }
            }
        },
    }
}

/// The cookie and fan id of `cookie:fan_id`: the part before the first
/// colon, and the part after it when that is a 64-bit integer.
pub open spec fn cookie_parts(data: Seq<char>) -> (Seq<char>, Option<int>) {
    match text::first_index_of(data, ':') {
        None => (data, None),
        Some(a) => (data.take(a), text::parse_int(data.skip(a + 1), true, i64::MIN as int, i64::MAX as int)),
    }
}

/// Splits the credentials a login stores, `cookie` or `cookie:fan_id`, into
/// the cookie and the fan id.
pub fn split_cookie_data(data: &str) -> (r: (String, Option<i64>))
    ensures
        r.0@ == cookie_parts(data@).0,
        match cookie_parts(data@).1 {
            Some(f) => r.1 == Some(f as i64),
            None => r.1 is None,
        },
{
    let v = text::chars_of(data);
    match text::find_char(&v, ':') {
        None => (data.to_string(), None),
        Some(a) => {
            let head = text::subrange_of(&v, 0, a);
            let tail = text::subrange_of(&v, a + 1, v.len());
            assert(head@ =~= v@.take(a as int));
            assert(tail@ =~= v@.skip(a + 1));
            (text::string_from_chars(&head), text::parse_i64(&tail))
        },
    }
}

/// The credentials a browser login yields: `cookie:fan_id`.
pub open spec fn login_credentials_of(cookie: Seq<char>, fan_id: Seq<char>) -> Seq<char> {
    cookie + seq![':'] + fan_id
}

/// The credentials a browser login yields for `cookie` and `fan_id`.
pub fn login_credentials(cookie: &str, fan_id: &str) -> (r: String)
    ensures
        r@ == login_credentials_of(cookie@, fan_id@),
{
    let mut v = text::chars_of(cookie);
    v.push(':');
    text::append_str(&mut v, fan_id);
    text::string_from_chars(&v)
}

/// Credentials a login yields split back into the cookie and the fan id,
/// when the cookie holds no colon.
pub proof fn lemma_login_credentials_split(cookie: Seq<char>, fan_id: Seq<char>)
    requires
        forall|k: int| 0 <= k < cookie.len() ==> #[trigger] cookie[k] != ':',
    ensures
        cookie_parts(login_credentials_of(cookie, fan_id)).0 == cookie,
        cookie_parts(login_credentials_of(cookie, fan_id)).1 == text::parse_int(
            fan_id,
            true,
            i64::MIN as int,
            i64::MAX as int,
        ),
{
    let s = login_credentials_of(cookie, fan_id);
    assert(s[cookie.len() as int] == ':');
    assert forall|k: int| 0 <= k < cookie.len() implies s[k] != ':' by {
        assert(s[k] == cookie[k]);
    }
    text::lemma_first_index_of(s, ':', cookie.len() as int);
    assert(s.take(cookie.len() as int) =~= cookie);
    assert(s.skip(cookie.len() as int + 1) =~= fan_id);
}

/// Where the Bandcamp cookie comes from.
#[derive(Debug, PartialEq, Eq)]
pub enum CookieChoice {
    /// The cookie given on the command line; it is stored in the keyring.
    Provided(String),
    /// The cookie stored in the keyring, still valid.
    Stored(String),
    /// Neither: log in with the browser, then store the cookie.
    BrowserLogin,
}

/// Which cookie `auth bandcamp` uses: one given on the command line first;
/// else, unless re-authentication is forced, a valid stored one (`stored`
/// is what the keyring gave, looked up only when neither of those holds);
/// else a browser login.
pub fn choose_bandcamp_cookie(provided: Option<String>, force: bool, stored: Option<String>) -> (r:
    CookieChoice)
    ensures
        match provided {
            Some(c) => r == CookieChoice::Provided(c),
            None => if !force && stored is Some {
                r == CookieChoice::Stored(stored->0)
            } else {
                r == CookieChoice::BrowserLogin
            },
        },
{
    match provided {
        Some(c) => CookieChoice::Provided(c),
        None => {
            if !force {
                match stored {
                    Some(c) => {
                        return CookieChoice::Stored(c);
                    },
                    None => {},
                }
            }
            CookieChoice::BrowserLogin
        },
    }
}

/// Why a WebDAV URL gives no keyring host.
#[derive(Debug, PartialEq, Eq, Structural)]
pub enum WebdavUrlError {
    InvalidUrl,
    NoHost,
}

/// The host that WebDAV credentials are stored under: that of `url`.
pub fn webdav_host(url: &str) -> (r: Result<String, WebdavUrlError>)
    ensures
        match thirdparty::url_host(url@) {
            None => r == Err::<String, WebdavUrlError>(WebdavUrlError::InvalidUrl),
            Some(None) => r == Err::<String, WebdavUrlError>(WebdavUrlError::NoHost),
            Some(Some(h)) => r matches Ok(host) && host@ == h,
        },
{
    match thirdparty::parse_url_host(url) {
        Err(_) => Err(WebdavUrlError::InvalidUrl),
        Ok(None) => Err(WebdavUrlError::NoHost),
        Ok(Some(h)) => Ok(h),
    }
}

/// The keyring entry of the WebDAV username for `host`.
pub fn webdav_username_key(host: &str) -> (r: String)
    ensures
        r@ == "webdav:"@ + host@ + ":username"@,
{
    let mut v = text::chars_of("webdav:");
    text::append_str(&mut v, host);
    text::append_str(&mut v, ":username");
    text::string_from_chars(&v)
}

/// The keyring entry of the WebDAV password for `host`.
pub fn webdav_password_key(host: &str) -> (r: String)
    ensures
        r@ == "webdav:"@ + host@ + ":password"@,
{
    let mut v = text::chars_of("webdav:");
    text::append_str(&mut v, host);
    text::append_str(&mut v, ":password");
    text::string_from_chars(&v)
}

/// How a WebDAV server answered a credentials check.
#[derive(Debug, PartialEq, Eq, Structural)]
pub enum WebdavCheck {
    /// A success status (207 included).
    Accepted,
    /// 401: the credentials are wrong.
    InvalidCredentials,
    /// Any other status.
    Refused(u16),
}

/// What a WebDAV `PROPFIND` answer with `status` means for the credentials.
pub fn webdav_check(status: u16) -> (r: WebdavCheck)
    ensures
        r == (if (200 <= status <= 299) || status == 207 {
            WebdavCheck::Accepted
        } else if status == 401 {
            WebdavCheck::InvalidCredentials
        } else {
            WebdavCheck::Refused(status)
        }),
{
    if (200 <= status && status <= 299) || status == 207 {
        WebdavCheck::Accepted
    } else if status == 401 {
        WebdavCheck::InvalidCredentials
    } else {
        WebdavCheck::Refused(status)
    }
}

/// The pattern of the fan id in the source of a page after login.
pub open spec fn fan_id_pattern() -> Seq<char> {
    "\"fanId\":(\\d+)"@
}

/// The pattern of the `DiscoverApp` data blob in a page.
pub open spec fn discover_app_pattern() -> Seq<char> {
    "<div[^>]+id=\"DiscoverApp\"[^>]+data-blob=\"([^\"]+)\""@
}

/// The fan id on the page a login lands on: the `"fanId":` number in the
/// page source, else the one in the HTML-decoded `DiscoverApp` data blob.
/// `None` when a pattern does not compile.
pub open spec fn login_fan_id_of(source: Seq<char>) -> Option<Option<Seq<char>>> {
    match thirdparty::regex_group1(fan_id_pattern(), source) {
        None => None,
        Some(Some(f)) => Some(Some(f)),
        Some(None) => match thirdparty::regex_group1(discover_app_pattern(), source) {
            None => None,
            Some(None) => Some(None),
            Some(Some(blob)) => thirdparty::regex_group1(fan_id_pattern(), thirdparty::html_decoded(blob)),
        },
    }
}

/// Finds the fan id on the page a login lands on.
pub fn login_fan_id(source: &str) -> (r: Result<Option<String>, ()>)
    ensures
        match r {
            Ok(f) => login_fan_id_of(source@) == Some(text::opt_str(f)),
            Err(_) => login_fan_id_of(source@) is None,
        },
{
    let fan_re = "\"fanId\":(\\d+)";
    let app_re = "<div[^>]+id=\"DiscoverApp\"[^>]+data-blob=\"([^\"]+)\"";
    assert(fan_re@ == fan_id_pattern());
    assert(app_re@ == discover_app_pattern());
    match thirdparty::first_capture(fan_re, source) {
        Err(_) => Err(()),
        Ok(Some(f)) => Ok(Some(f)),
        Ok(None) => match thirdparty::first_capture(app_re, source) {
            Err(_) => Err(()),
            Ok(None) => Ok(None),
            Ok(Some(blob)) => {
                let decoded = thirdparty::decode_html_entities(blob.as_str());
                thirdparty::first_capture(fan_re, decoded.as_str())
            },
        },
    }
}

/// How long the browser login is waited for, in one-second polls.
pub const LOGIN_POLLS: u32 = 120;

/// What to do after a poll of the login browser.
#[derive(Debug, Clone, Copy, PartialEq, Eq, Structural)]
pub enum LoginStep {
    /// The identity cookie is there: read the fan id.
    ReadFanId,
    /// Poll again in a second.
    KeepWaiting,
    /// Give up: the login took too long.
    TimedOut,
}

/// The step after a poll, given how many polls found no identity cookie
/// before it and whether this one found it.
pub open spec fn login_step_of(polls_before: u32, has_identity: bool) -> LoginStep {
    if has_identity {
        LoginStep::ReadFanId
    } else if polls_before + 1 >= LOGIN_POLLS {
        LoginStep::TimedOut
    } else {
        LoginStep::KeepWaiting
    }
}

/// The step after a poll of the login browser.
pub fn login_step(polls_before: u32, has_identity: bool) -> (r: LoginStep)
    ensures
        r == login_step_of(polls_before, has_identity),
{
    if has_identity {
        LoginStep::ReadFanId
    } else if polls_before >= LOGIN_POLLS - 1 {
        LoginStep::TimedOut
    } else {
        LoginStep::KeepWaiting
    }
}

/// Whether the browser is on the page that holds the fan id; if not, it is
/// sent there after logging in.
pub fn on_discover_page(url: &str) -> (r: bool)
    ensures
        r == text::has_infix(url@, "/discover"@),
{
    text::contains(&text::chars_of(url), &text::chars_of("/discover"))
}

} // verus!
