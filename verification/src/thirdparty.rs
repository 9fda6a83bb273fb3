//! Calls into the crates that the library leans on: SHA-1 and base64 for
//! disc identifiers, regular expressions and HTML handling for Bandcamp
//! pages, percent-encoding and URL parsing, and the CPU count. Each function
//! here makes one call; its contract is believed, not proved.

use vstd::prelude::*;
use crate::text;
use crate::cli::commands::{ZipEntry, zip_entry_view};
use base64::Engine;
use sha1::Digest;

verus! {

/// The SHA-1 digest of `data`.
pub uninterp spec fn sha1_of(data: Seq<u8>) -> Seq<u8>;

/// `sha1::Sha1::digest`: the result is the 20-byte SHA-1 digest of `data`,
/// named `sha1_of`; the digest's bytes are not stated.
#[verifier::external_body]
pub(crate) fn sha1_digest(data: &Vec<u8>) -> (r: Vec<u8>)
    ensures
        r@ == sha1_of(data@),
        r@.len() == 20,
{
    sha1::Sha1::digest(data.as_slice()).to_vec()
}

/// The character of the standard base64 alphabet for the 6-bit value `v`:
/// `A`-`Z`, `a`-`z`, `0`-`9`, then `+` and `/`.
pub open spec fn b64_char(v: int) -> char {
    if v < 26 {
        (('A' as int) + v) as char
    } else if v < 52 {
        (('a' as int) + (v - 26)) as char
    } else if v < 62 {
        (('0' as int) + (v - 52)) as char
    } else if v == 62 {
        '+'
    } else {
        '/'
    }
}

/// The padded standard base64 encoding of `data` (RFC 4648, section 4):
/// each group of three bytes becomes four characters of six bits each; a
/// last group of one or two bytes becomes two or three characters, its
/// missing bits zero, padded with `=` to four.
pub open spec fn base64_of(data: Seq<u8>) -> Seq<char>
    decreases data.len(),
{
    if data.len() == 0 {
        seq![]
    } else if data.len() == 1 {
        let b0 = data[0] as int;
        seq![b64_char(b0 / 4), b64_char((b0 % 4) * 16), '=', '=']
    } else if data.len() == 2 {
        let b0 = data[0] as int;
        let b1 = data[1] as int;
        seq![b64_char(b0 / 4), b64_char((b0 % 4) * 16 + b1 / 16), b64_char((b1 % 16) * 4), '=']
    } else {
        let b0 = data[0] as int;
        let b1 = data[1] as int;
        let b2 = data[2] as int;
        seq![
            b64_char(b0 / 4),
            b64_char((b0 % 4) * 16 + b1 / 16),
            b64_char((b1 % 16) * 4 + b2 / 64),
            b64_char(b2 % 64),
        ] + base64_of(data.skip(3))
    }
}

/// One of the 64 characters of the standard base64 alphabet.
pub open spec fn is_base64_char(c: char) -> bool {
    ('A' <= c <= 'Z') || ('a' <= c <= 'z') || ('0' <= c <= '9') || c == '+' || c == '/'
}

pub proof fn lemma_b64_char(v: int)
    requires
        0 <= v < 64,
    ensures
        is_base64_char(b64_char(v)),
{
}

/// A padded base64 encoding has four characters for every started group
/// of three bytes; all are of the alphabet but the padding `=` at its end,
/// which is there exactly when the length is not a multiple of three.
pub proof fn lemma_base64(data: Seq<u8>)
    ensures
        base64_of(data).len() == 4 * ((data.len() + 2) / 3),
        forall|i: int|
            0 <= i < base64_of(data).len() ==> is_base64_char(#[trigger] base64_of(data)[i])
                || base64_of(data)[i] == '=',
        data.len() % 3 != 0 ==> base64_of(data).last() == '=',
    decreases data.len(),
{
    if data.len() == 0 {
    } else if data.len() == 1 {
        let b0 = data[0] as int;
        lemma_b64_char(b0 / 4);
        lemma_b64_char((b0 % 4) * 16);
    } else if data.len() == 2 {
        let b0 = data[0] as int;
        let b1 = data[1] as int;
        lemma_b64_char(b0 / 4);
        lemma_b64_char((b0 % 4) * 16 + b1 / 16);
        lemma_b64_char((b1 % 16) * 4);
    } else {
        let b0 = data[0] as int;
        let b1 = data[1] as int;
        let b2 = data[2] as int;
        lemma_b64_char(b0 / 4);
        lemma_b64_char((b0 % 4) * 16 + b1 / 16);
        lemma_b64_char((b1 % 16) * 4 + b2 / 64);
        lemma_b64_char(b2 % 64);
        lemma_base64(data.skip(3));
        let head = seq![
            b64_char(b0 / 4),
            b64_char((b0 % 4) * 16 + b1 / 16),
            b64_char((b1 % 16) * 4 + b2 / 64),
            b64_char(b2 % 64),
        ];
        let rest = base64_of(data.skip(3));
        assert(base64_of(data) == head + rest);
        assert forall|i: int| 0 <= i < base64_of(data).len() implies is_base64_char(
            #[trigger] base64_of(data)[i],
        ) || base64_of(data)[i] == '=' by {
            if i >= 4 {
                assert(base64_of(data)[i] == rest[i - 4]);
            }
        }
        if data.len() % 3 != 0 {
            assert(data.skip(3).len() % 3 != 0);
            assert(rest.len() > 0);
            assert(base64_of(data).last() == rest.last());
        }
    }
}

/// `base64::engine::general_purpose::STANDARD.encode`: the padded standard
/// base64 encoding of `data`. The call panics only when the length of the
/// encoding overflows `usize`, which `requires` rules out.
#[verifier::external_body]
pub(crate) fn base64_standard(data: &Vec<u8>) -> (r: String)
    requires
        (data@.len() / 3) * 4 + 4 <= usize::MAX,
    ensures
        r@ == base64_of(data@),
{
    base64::engine::general_purpose::STANDARD.encode(data.as_slice())
}

/// The first capture group of the leftmost match of the regular expression
/// `pattern` in `text`: `None` when the pattern does not compile,
/// `Some(None)` when nothing matches or the group takes no part.
pub uninterp spec fn regex_group1(pattern: Seq<char>, text: Seq<char>) -> Option<Option<Seq<char>>>;

/// The end of the run of characters outside `excluded` that starts at `s`:
/// the first position from `s` on that holds one of `excluded`, or the end.
pub open spec fn run_end(text: Seq<char>, s: int, excluded: Seq<char>) -> int
    decreases text.len() - s,
{
    if s < 0 || s >= text.len() || excluded.contains(text[s]) {
        s
    } else {
        run_end(text, s + 1, excluded)
    }
}

/// `text` at `p` matches `key([^"]+)"`: `key`, at least one character other
/// than `"`, then `"`.
pub open spec fn quoted_match_at(text: Seq<char>, key: Seq<char>, p: int) -> bool {
    let s = p + key.len();
    &&& 0 <= p
    &&& s <= text.len()
    &&& text.subrange(p, s) == key
    &&& s < run_end(text, s, seq!['"']) < text.len()
}

/// Group 1 of the leftmost match of `key([^"]+)"` at or after `p`.
pub open spec fn quoted_capture(text: Seq<char>, key: Seq<char>, p: int) -> Option<Seq<char>>
    decreases text.len() - p,
{
    if p < 0 || p >= text.len() {
        None
    } else if quoted_match_at(text, key, p) {
        Some(text.subrange(p + key.len(), run_end(text, p + key.len(), seq!['"'])))
    } else {
        quoted_capture(text, key, p + 1)
    }
}

/// `text` at `p` matches `href="/([^/"]+)(?:/collection|/wishlist|")`.
pub open spec fn user_link_at(text: Seq<char>, p: int) -> bool {
    let s = p + 7;
    let e = run_end(text, s, seq!['/', '"']);
    &&& 0 <= p
    &&& s <= text.len()
    &&& text.subrange(p, s) == "href=\"/"@
    &&& s < e < text.len()
    &&& (text[e] == '"' || text::has_prefix(text.skip(e), "/collection"@) || text::has_prefix(
        text.skip(e),
        "/wishlist"@,
    ))
}

/// Group 1 of the leftmost match of `href="/([^/"]+)(?:/collection|/wishlist|")`
/// at or after `p`.
pub open spec fn user_link_capture(text: Seq<char>, p: int) -> Option<Seq<char>>
    decreases text.len() - p,
{
    if p < 0 || p >= text.len() {
        None
    } else if user_link_at(text, p) {
        Some(text.subrange(p + 7, run_end(text, p + 7, seq!['/', '"'])))
    } else {
        user_link_capture(text, p + 1)
    }
}

/// `regex::Regex::new(pattern)` and `Regex::captures(text)`, group 1: the
/// result is named `regex_group1`. For the two patterns made of literal
/// text, negated classes and greedy repetition (`data-tralbum="([^"]+)"` and
/// the user link), the crate's leftmost-first matching is stated: the
/// pattern compiles, and the capture is that of the first position where
/// the pattern matches. Patterns with `\d` or `\s` match Unicode classes,
/// which are not stated.
#[verifier::external_body]
pub(crate) fn first_capture(pattern: &str, text: &str) -> (r: Result<Option<String>, ()>)
    ensures
        match r {
            Ok(c) => regex_group1(pattern@, text@) == Some(text::opt_str(c)),
            Err(_) => regex_group1(pattern@, text@) is None,
        },
        pattern@ == "data-tralbum=\"([^\"]+)\""@ ==> match r {
            Ok(c) => text::opt_str(c) == quoted_capture(text@, "data-tralbum=\""@, 0),
            Err(_) => false,
        },
        pattern@ == "href=\"/([^/\"]+)(?:/collection|/wishlist|\")"@ ==> match r {
            Ok(c) => text::opt_str(c) == user_link_capture(text@, 0),
            Err(_) => false,
        },
{
    let re = match regex::Regex::new(pattern) {
        Ok(re) => re,
        Err(_) => return Err(()),
    };
    match re.captures(text) {
        Some(caps) => match caps.get(1) {
            Some(m) => Ok(Some(m.as_str().to_string())),
            None => Ok(None),
        },
        None => Ok(None),
    }
}

/// `text` with its HTML character references decoded.
pub uninterp spec fn html_decoded(text: Seq<char>) -> Seq<char>;

/// `html_escape::decode_html_entities`: the result is named `html_decoded`;
/// the entity table is not stated.
#[verifier::external_body]
pub(crate) fn decode_html_entities(text: &str) -> (r: String)
    ensures
        r@ == html_decoded(text@),
{
    html_escape::decode_html_entities(text).into_owned()
}

/// The upper-case hexadecimal digit for `d` in `0..16`.
pub open spec fn hex_digit(d: int) -> char {
    if d < 10 {
        (('0' as int) + d) as char
    } else {
        (('A' as int) + (d - 10)) as char
    }
}

/// Each byte of `bytes` written as `%XX`.
pub open spec fn percent_bytes(bytes: Seq<u8>) -> Seq<char>
    decreases bytes.len(),
{
    if bytes.len() == 0 {
        seq![]
    } else {
        seq!['%', hex_digit(bytes[0] as int / 16), hex_digit(bytes[0] as int % 16)] + percent_bytes(
            bytes.drop_first(),
        )
    }
}

/// A character that percent-encoding leaves as it is: an ASCII letter or
/// digit, `-`, `.`, `_` or `~`.
pub open spec fn is_unreserved(c: char) -> bool {
    ('0' <= c <= '9') || ('A' <= c <= 'Z') || ('a' <= c <= 'z') || c == '-' || c == '.' || c
        == '_' || c == '~'
}

/// `text` percent-encoded: every byte of its UTF-8 form but ASCII letters,
/// digits, `-`, `_`, `.` and `~` written as `%XX` with upper-case digits.
pub open spec fn url_encoded(text: Seq<char>) -> Seq<char>
    decreases text.len(),
{
    if text.len() == 0 {
        seq![]
    } else {
        let c = text[0];
        (if is_unreserved(c) {
            seq![c]
        } else {
            percent_bytes(vstd::utf8::encode_scalar(c as u32))
        }) + url_encoded(text.drop_first())
    }
}

/// `urlencoding::encode`: `text` percent-encoded as `url_encoded` states.
#[verifier::external_body]
pub(crate) fn url_encode(text: &str) -> (r: String)
    ensures
        r@ == url_encoded(text@),
{
    urlencoding::encode(text).into_owned()
}

/// The value of the hexadecimal digit `b` (either case).
pub open spec fn hex_value(b: u8) -> Option<int> {
    if 48 <= b <= 57 {
        Some(b - 48)
    } else if 65 <= b <= 70 {
        Some(b - 55)
    } else if 97 <= b <= 102 {
        Some(b - 87)
    } else {
        None
    }
}

/// `bytes` with every `%XX` escape of two hexadecimal digits replaced by
/// the byte it stands for; a `%` that starts no such escape stays as it is.
pub open spec fn percent_decoded(bytes: Seq<u8>) -> Seq<u8>
    decreases bytes.len(),
{
    if bytes.len() == 0 {
        seq![]
    } else if bytes[0] == 37 {
        if bytes.len() < 3 {
            bytes
        } else {
            match (hex_value(bytes[1]), hex_value(bytes[2])) {
                (Some(h), Some(l)) => seq![(16 * h + l) as u8] + percent_decoded(bytes.skip(3)),
                (Some(_), None) => seq![37u8, bytes[1]] + percent_decoded(bytes.skip(2)),
                (None, _) => seq![37u8] + percent_decoded(bytes.skip(1)),
            }
        }
    } else {
        seq![bytes[0]] + percent_decoded(bytes.skip(1))
    }
}

/// `text` with its `%XX` escapes decoded, or `None` when the bytes so
/// decoded are not valid UTF-8.
pub open spec fn url_decoded(text: Seq<char>) -> Option<Seq<char>> {
    let bytes = percent_decoded(vstd::utf8::encode_utf8(text));
    if vstd::utf8::valid_utf8(bytes) {
        Some(vstd::utf8::decode_utf8(bytes))
    } else {
        None
    }
}

/// `urlencoding::decode`: `text` decoded as `url_decoded` states.
#[verifier::external_body]
pub(crate) fn url_decode(text: &str) -> (r: Option<String>)
    ensures
        text::opt_str(r) == url_decoded(text@),
{
    match urlencoding::decode(text) {
        Ok(s) => Some(s.into_owned()),
        Err(_) => None,
    }
}

/// `None` when `url` does not parse as an absolute URL; otherwise its host,
/// when it has one.
pub uninterp spec fn url_host(url: Seq<char>) -> Option<Option<Seq<char>>>;

/// `url::Url::parse(url)` and `Url::host_str`: the result is named
/// `url_host`; URL syntax is not stated.
#[verifier::external_body]
pub(crate) fn parse_url_host(url: &str) -> (r: Result<Option<String>, ()>)
    ensures
        match r {
            Ok(h) => url_host(url@) == Some(text::opt_str(h)),
            Err(_) => url_host(url@) is None,
        },
{
    match url::Url::parse(url) {
        Ok(u) => Ok(u.host_str().map(|h| h.to_string())),
        Err(_) => Err(()),
    }
}

/// The `data-blob` attribute of the element with id `pagedata` in the HTML
/// document `html`, if there is such an element with such an attribute.
pub uninterp spec fn pagedata_blob_of(html: Seq<char>) -> Option<Seq<char>>;

/// `scraper::Html::parse_document`, then the first element that the
/// selector `#pagedata` selects, then its `data-blob` attribute: the result
/// is named `pagedata_blob_of`; HTML parsing is not stated.
#[verifier::external_body]
pub(crate) fn pagedata_blob(html: &str) -> (r: Option<String>)
    ensures
        text::opt_str(r) == pagedata_blob_of(html@),
{
    let document = scraper::Html::parse_document(html);
    let selector = scraper::Selector::parse("#pagedata").unwrap();
    match document.select(&selector).next() {
        Some(element) => element.value().attr("data-blob").map(|b| b.to_string()),
        None => None,
    }
}

/// `num_cpus::get`: the number of CPUs the process may use, which its
/// documentation promises is at least 1. It depends on the machine, so no
/// more is stated.
#[verifier::external_body]
pub(crate) fn cpu_count() -> (n: usize)
    ensures
        n >= 1,
{
    num_cpus::get()
}

/// What `data` holds as a zip archive: each entry's name (`None` when the
/// archive gives it no readable name), whether it is a folder, and its
/// unpacked bytes, in the order of the archive; `None` when `data` is not
/// an archive that unpacks.
pub uninterp spec fn zip_entries_of(data: Seq<u8>) -> Option<Seq<(Option<Seq<char>>, bool, Seq<u8>)>>;

/// `zip::ZipArchive::new` over `data`, then for each index `by_index`,
/// `name`, `is_dir` and `read_to_end`: the result is named `zip_entries_of`;
/// the zip format is not stated. Any error of the archive or of an entry's
/// reading gives `None`.
#[verifier::external_body]
pub(crate) fn zip_entries(data: &Vec<u8>) -> (r: Option<Vec<ZipEntry>>)
    ensures
        match r {
            Some(v) => zip_entries_of(data@) == Some(v@.map_values(|e: ZipEntry| zip_entry_view(e))),
            None => zip_entries_of(data@) is None,
        },
{
    let mut archive = zip::ZipArchive::new(std::io::Cursor::new(data.as_slice())).ok()?;
    let mut out: Vec<ZipEntry> = Vec::new();
    let mut i: usize = 0;
    while i < archive.len() {
        let mut f = archive.by_index(i).ok()?;
        let name = f.name().ok().map(|n| n.to_string());
        let mut contents: Vec<u8> = Vec::new();
        std::io::Read::read_to_end(&mut f, &mut contents).ok()?;
        out.push(ZipEntry { name, is_dir: f.is_dir(), contents });
        i += 1;
    }
    Some(out)
}

/// The image `data` written as JPEG: `Some(Some(jpeg))` when it decodes and
/// encodes, `Some(None)` when it is not an image that decodes, `None` when
/// the decoded image cannot be written as JPEG.
pub uninterp spec fn jpeg_of(data: Seq<u8>) -> Option<Option<Seq<u8>>>;

/// `image::load_from_memory(data)`, then `DynamicImage::write_to` a buffer
/// as `ImageFormat::Jpeg`: the result is named `jpeg_of`; decoding and
/// encoding are not stated.
#[verifier::external_body]
pub(crate) fn to_jpeg(data: &Vec<u8>) -> (r: Result<Option<Vec<u8>>, ()>)
    ensures
        match r {
            Ok(Some(j)) => jpeg_of(data@) == Some(Some(j@)),
            Ok(None) => jpeg_of(data@) == Some(None::<Seq<u8>>),
            Err(_) => jpeg_of(data@) is None,
        },
{
    let img = match image::load_from_memory(data.as_slice()) {
        Ok(img) => img,
        Err(_) => return Ok(None),
    };
    let mut out: Vec<u8> = Vec::new();
    match img.write_to(std::io::Cursor::new(&mut out), image::ImageFormat::Jpeg) {
        Ok(()) => Ok(Some(out)),
        Err(_) => Err(()),
    }
}

} // verus!
