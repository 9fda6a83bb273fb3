//! Reading a disc's table of contents and CD-TEXT from what the command-line
//! tools `cd-discid`, `cdparanoia -Q` and `cdrdao read-cddb` print.

use vstd::prelude::*;
use crate::text;
use crate::text::{
    chars_of, find_char, parse_i32, parse_u8, split_lines, split_whitespace, starts_with,
    string_from_chars, subrange_of, trim_chars,
};
use crate::cd::models::CDToc;

verus! {

/// Device paths that are tried, in order, when no device is given.
pub open spec fn common_device_paths() -> Seq<Seq<char>> {
    seq!["/dev/cdrom"@, "/dev/sr0"@, "/dev/sr1"@, "/dev/dvd"@, "/dev/cd0"@, "/dev/disk1"@]
}

fn common_device_path(i: usize) -> (p: &'static str)
    requires
        i < 6,
    ensures
        p@ == common_device_paths()[i as int],
{
    if i == 0 {
        "/dev/cdrom"
    } else if i == 1 {
        "/dev/sr0"
    } else if i == 2 {
        "/dev/sr1"
    } else if i == 3 {
        "/dev/dvd"
    } else if i == 4 {
        "/dev/cd0"
    } else {
        "/dev/disk1"
    }
}

/// Whether a file exists at `path` (`std::path::Path::exists`). What is on
/// disk is not known here, so nothing is stated of the result.
#[verifier::external_body]
fn path_exists(path: &str) -> bool {
    std::path::Path::new(path).exists()
}

/// Why reading a table of contents or finding a drive failed.
#[derive(Debug, PartialEq, Eq, Structural)]
pub enum TocError {
    /// Fewer than three fields in `cd-discid` output.
    InvalidFormat,
    /// The track count is not a number from 0 to 255.
    BadTrackCount,
    /// Fewer track offsets than the track count announces.
    MissingTrackOffset,
    /// A track offset is not a 32-bit integer.
    BadTrackOffset,
    /// The lead-out offset is not a 32-bit integer.
    BadLeadout,
    /// `cdparanoia` listed no track.
    NoTracks,
    /// None of the usual device paths exists.
    NoDevice,
}

/// Disc title and performer found in CD-TEXT.
pub struct CDTextInfo {
    pub album_title: Option<String>,
    pub artist: Option<String>,
}

/// Reads CD information from a drive.
pub struct CDReader {
    pub device_path: String,
}

/// The track offsets of `cd-discid` output: fields `i` to `end - 1`.
pub open spec fn discid_offsets(parts: Seq<Seq<char>>, i: int, end: int) -> Result<Seq<i32>, TocError>
    decreases end - i,
{
    if i >= end {
        Ok(seq![])
    } else if i >= parts.len() {
        Err(TocError::MissingTrackOffset)
    } else {
        match text::parse_int(parts[i], true, i32::MIN as int, i32::MAX as int) {
            None => Err(TocError::BadTrackOffset),
            Some(x) => match discid_offsets(parts, i + 1, end) {
                Ok(rest) => Ok(seq![x as i32] + rest),
                Err(e) => Err(e),
            },
        }
    }
}

/// The table of contents that `cd-discid` output describes, as
/// (last track, track offsets, lead-out offset); the first track is 1.
/// The output reads `<disc-id> <track count> <offset>... <lead-out>`.
pub open spec fn discid_toc(s: Seq<char>) -> Result<(u8, Seq<i32>, i32), TocError> {
    let parts = text::words(s);
    if parts.len() < 3 {
        Err(TocError::InvalidFormat)
    } else {
        match text::parse_int(parts[1], false, 0, 255) {
            None => Err(TocError::BadTrackCount),
            Some(n) => match discid_offsets(parts, 2, 2 + n) {
                Err(e) => Err(e),
                Ok(offsets) => match text::parse_int(
                    parts[parts.len() - 1],
                    true,
                    i32::MIN as int,
                    i32::MAX as int,
                ) {
                    None => Err(TocError::BadLeadout),
                    Some(l) => Ok((n as u8, offsets, l as i32)),
                },
            },
        }
    }
}

proof fn lemma_discid_offsets_decimal(parts: Seq<Seq<char>>, offsets: Seq<i32>, k: int)
    requires
        0 <= k <= offsets.len(),
        parts.len() >= 2 + offsets.len(),
        forall|j: int| 0 <= j < offsets.len() ==> parts[2 + j] == text::int_decimal(#[trigger] offsets[j] as int),
    ensures
        discid_offsets(parts, 2 + k, 2 + offsets.len() as int) == Ok::<Seq<i32>, TocError>(offsets.subrange(k, offsets.len() as int)),
    decreases offsets.len() - k,
{
    if k < offsets.len() {
        lemma_discid_offsets_decimal(parts, offsets, k + 1);
        text::lemma_parse_int_decimal(offsets[k] as int, i32::MIN as int, i32::MAX as int);
        assert(parts[2 + k] == text::int_decimal(offsets[k] as int));
        assert(seq![offsets[k]] + offsets.subrange(k + 1, offsets.len() as int) =~= offsets.subrange(
            k,
            offsets.len() as int,
        ));
    } else {
        assert(offsets.subrange(k, offsets.len() as int) =~= Seq::<i32>::empty());
    }
}

/// `cd-discid` output of the usual shape is read back as what it says:
/// words `<disc-id> <n> <offset 1> ... <offset n> <lead-out>`, all numbers
/// in decimal, give `n` tracks (at most 255) with those offsets and that
/// lead-out.
pub proof fn lemma_discid_fields(s: Seq<char>, id: Seq<char>, offsets: Seq<i32>, leadout: i32)
    requires
        offsets.len() <= 255,
        text::words(s) == seq![id, text::int_decimal(offsets.len() as int)] + offsets.map_values(
            |o: i32| text::int_decimal(o as int),
        ) + seq![text::int_decimal(leadout as int)],
    ensures
        discid_toc(s) == Ok::<(u8, Seq<i32>, i32), TocError>((offsets.len() as u8, offsets, leadout)),
{
    let parts = text::words(s);
    let n = offsets.len();
    assert(parts.len() == n + 3);
    assert(parts[1] == text::int_decimal(n as int));
    text::lemma_parse_int_decimal(n as int, 0, 255);
    assert forall|j: int| 0 <= j < n implies parts[2 + j] == text::int_decimal(#[trigger] offsets[j] as int) by {
        assert(parts[2 + j] == offsets.map_values(|o: i32| text::int_decimal(o as int))[j]);
    }
    lemma_discid_offsets_decimal(parts, offsets, 0);
    assert(offsets.subrange(0, n as int) =~= offsets);
    assert(parts[parts.len() - 1] == text::int_decimal(leadout as int));
    text::lemma_parse_int_decimal(leadout as int, i32::MIN as int, i32::MAX as int);
}

/// CD-TEXT title and performer after reading `ls`: the last `Title:` and the
/// last `Performer:` line win, each trimmed of whitespace.
pub open spec fn cdtext_fields(ls: Seq<Seq<char>>) -> (Option<Seq<char>>, Option<Seq<char>>)
    decreases ls.len(),
{
    if ls.len() == 0 {
        (None, None)
    } else {
        let (t, a) = cdtext_fields(ls.drop_last());
        let l = ls.last();
        if text::has_prefix(l, "Title:"@) {
            (Some(text::trim(l.skip("Title:"@.len() as int))), a)
        } else if text::has_prefix(l, "Performer:"@) {
            (t, Some(text::trim(l.skip("Performer:"@.len() as int))))
        } else {
            (t, a)
        }
    }
}

/// What a `cdparanoia -Q` track line holds: its track number and offset.
/// Such a line (trimmed) starts with a digit, has a track number before its
/// first `.`, and at least three fields after the `.`, the third the offset.
pub open spec fn paranoia_track(line: Seq<char>) -> Option<(u8, i32)> {
    if line.len() > 0 && '0' <= line[0] <= '9' {
        match text::first_index_of(line, '.') {
            None => None,
            Some(dot) => match text::parse_int(text::trim(line.take(dot)), false, 0, 255) {
                None => None,
                Some(n) => {
                    let parts = text::words(line.skip(dot + 1));
                    if parts.len() >= 3 {
                        match text::parse_int(parts[2], true, i32::MIN as int, i32::MAX as int) {
                            Some(off) => Some((n as u8, off as i32)),
                            None => None,
                        }
                    } else {
                        None
                    }
                }
            },
        }
    } else {
        None
    }
}

proof fn lemma_track_line_head(n: nat, rest: Seq<char>)
    requires
        n <= 255,
    ensures
        ({
            let d = text::nat_digits(n);
            let line = d + seq!['.'] + rest;
            &&& line.len() > 0 && '0' <= line[0] <= '9'
            &&& text::first_index_of(line, '.') == Some(d.len() as int)
            &&& text::trim(line.take(d.len() as int)) == d
            &&& text::parse_int(d, false, 0, 255) == Some(n as int)
            &&& line.skip(d.len() as int + 1) == rest
        }),
{
    let d = text::nat_digits(n);
    let line = d + seq!['.'] + rest;
    text::lemma_nat_digits(n);
    text::lemma_parse_int_decimal(n as int, 0, 255);
    assert(text::int_decimal(n as int) == d);
    assert('0' <= d[0] <= '9');
    assert(line[0] == d[0]);
    assert forall|k: int| 0 <= k < d.len() implies line[k] != '.' by {
        assert(line[k] == d[k]);
        assert('0' <= d[k] <= '9');
    }
    assert(line[d.len() as int] == '.');
    text::lemma_first_index_of(line, '.', d.len() as int);
    assert(line.take(d.len() as int) =~= d);
    assert('0' <= d.last() <= '9');
    assert(text::trimmed(d));
    text::lemma_trim_fixed(d);
    assert(line.skip(d.len() as int + 1) =~= rest);
}

/// The track number of a `cdparanoia -Q` track line is the whole decimal
/// number before its first `.`: the same line with another number in front
/// (from 0 to 255) holds the same offset, or is not a track line in both
/// cases, and carries its own number.
pub proof fn lemma_paranoia_track_number(n: nat, m: nat, rest: Seq<char>)
    requires
        n <= 255,
        m <= 255,
    ensures
        paranoia_track(text::nat_digits(n) + seq!['.'] + rest) == match paranoia_track(
            text::nat_digits(m) + seq!['.'] + rest,
        ) {
            Some((_, off)) => Some((n as u8, off)),
            None => None,
        },
{
    lemma_track_line_head(n, rest);
    lemma_track_line_head(m, rest);
}

/// A word of a line: non-empty, with no whitespace.
pub open spec fn is_word(w: Seq<char>) -> bool {
    w.len() > 0 && forall|k: int| 0 <= k < w.len() ==> !text::is_ws(#[trigger] w[k])
}

proof fn lemma_word_end_at(s: Seq<char>, j: int, e: int)
    requires
        0 <= j <= e <= s.len(),
        forall|k: int| j <= k < e ==> !text::is_ws(#[trigger] s[k]),
        e == s.len() || text::is_ws(s[e]),
    ensures
        text::word_end(s, j) == e,
    decreases e - j,
{
    if j < e {
        lemma_word_end_at(s, j + 1, e);
    }
}

proof fn lemma_words_step(s: Seq<char>, i: int, w: Seq<char>)
    requires
        0 <= i,
        i + 1 + w.len() <= s.len(),
        text::is_ws(s[i]),
        s.subrange(i + 1, i + 1 + w.len()) == w,
        is_word(w),
        i + 1 + w.len() == s.len() || text::is_ws(s[i + 1 + w.len()]),
    ensures
        text::words_from(s, i) == seq![w] + text::words_from(s, i + 1 + w.len()),
{
    let e = i + 1 + w.len();
    assert(s[i + 1] == w[0]);
    assert(text::skip_ws_from(s, i + 1) == i + 1);
    assert(text::skip_ws_from(s, i) == i + 1);
    assert forall|k: int| i + 1 <= k < e implies !text::is_ws(#[trigger] s[k]) by {
        assert(s[k] == w[k - i - 1]);
    }
    lemma_word_end_at(s, i + 1, e);
}

proof fn lemma_decimal_is_word(off: int)
    ensures
        is_word(text::int_decimal(off)),
{
    let d = text::int_decimal(off);
    if off < 0 {
        let m = text::nat_digits((-off) as nat);
        text::lemma_nat_digits((-off) as nat);
        assert forall|k: int| 0 <= k < d.len() implies !text::is_ws(#[trigger] d[k]) by {
            if k > 0 {
                assert(d[k] == m[k - 1]);
                assert('0' <= m[k - 1] <= '9');
            }
        }
    } else {
        text::lemma_nat_digits(off as nat);
        assert forall|k: int| 0 <= k < d.len() implies !text::is_ws(#[trigger] d[k]) by {
            assert('0' <= d[k] <= '9');
        }
    }
}

/// A track line of the usual shape is read as its number and offset: the
/// track number in decimal, `.`, then fields separated by single spaces,
/// the first two any words (the length and its time), the third the offset
/// in decimal, then anything that starts with whitespace.
pub proof fn lemma_paranoia_track_fields(
    n: nat,
    length: Seq<char>,
    time: Seq<char>,
    off: int,
    tail: Seq<char>,
)
    requires
        n <= 255,
        is_word(length),
        is_word(time),
        i32::MIN <= off <= i32::MAX,
        tail.len() == 0 || text::is_ws(tail[0]),
    ensures
        paranoia_track(
            text::nat_digits(n) + seq!['.'] + (seq![' '] + length + seq![' '] + time + seq![' ']
                + text::int_decimal(off) + tail),
        ) == Some((n as u8, off as i32)),
{
    let d = text::int_decimal(off);
    let rest = seq![' '] + length + seq![' '] + time + seq![' '] + d + tail;
    lemma_track_line_head(n, rest);
    lemma_decimal_is_word(off);
    assert(text::is_ws(' ')) by {
        assert(' ' as u32 == 0x20);
    }
    let a: int = 1 + length.len() as int;
    let b: int = a + 1 + time.len();
    let c: int = b + 1 + d.len();
    assert(rest.subrange(1, a) =~= length);
    assert(rest[a] == ' ');
    lemma_words_step(rest, 0, length);
    assert(rest.subrange(a + 1, b) =~= time);
    assert(rest[b] == ' ');
    lemma_words_step(rest, a, time);
    assert(rest.subrange(b + 1, c) =~= d);
    if c < rest.len() {
        assert(rest[c] == tail[0]);
    }
    lemma_words_step(rest, b, d);
    let ws = text::words(rest);
    assert(ws[2] == d);
    text::lemma_parse_int_decimal(off, i32::MIN as int, i32::MAX as int);
}

/// The lead-out offset on a `TOTAL` line: its second field.
pub open spec fn paranoia_total(line: Seq<char>) -> Option<i32> {
    if text::has_prefix(line, "TOTAL"@) {
        let parts = text::words(line);
        if parts.len() >= 2 {
            match text::parse_int(parts[1], true, i32::MIN as int, i32::MAX as int) {
                Some(x) => Some(x as i32),
                None => None,
            }
        } else {
            None
        }
    } else {
        None
    }
}

/// Track offsets, last track number and lead-out offset after reading the
/// lines `ls` of `cdparanoia -Q` output: every track line adds its offset and
/// becomes the last track; every `TOTAL` line sets the lead-out.
pub open spec fn paranoia_scan(ls: Seq<Seq<char>>) -> (Seq<i32>, u8, i32)
    decreases ls.len(),
{
    if ls.len() == 0 {
        (seq![], 0u8, 0i32)
    } else {
        let (offsets, last, leadout) = paranoia_scan(ls.drop_last());
        let line = text::trim(ls.last());
        let (offsets2, last2) = match paranoia_track(line) {
            Some((n, off)) => (offsets.push(off), n),
            None => (offsets, last),
        };
        let leadout2 = match paranoia_total(line) {
            Some(x) => x,
            None => leadout,
        };
        (offsets2, last2, leadout2)
    }
}

impl CDReader {
    /// A reader for the drive at `device_path`.
    pub fn new(device_path: String) -> (r: Self)
        ensures
            r.device_path@ == device_path@,
    {
        CDReader { device_path }
    }

    /// The reader for the first of the usual device paths at which a file
    /// exists. Which paths exist is not known here: a reader that comes back
    /// uses one of the usual paths.
    pub fn auto_detect() -> (r: Result<Self, TocError>)
        ensures
            match r {
                Ok(reader) => common_device_paths().contains(reader.device_path@),
                Err(e) => e == TocError::NoDevice,
            },
    {
        let mut found: Vec<bool> = Vec::new();
        let mut i: usize = 0;
        while i < 6
            invariant
                i <= 6,
            decreases 6 - i,
        {
            let exists = path_exists(common_device_path(i));
            found.push(exists);
            if exists {
                break;
            }
            i += 1;
        }
        Self::from_probes(&found)
    }

    /// The reader that `auto_detect` picks when `found[i]` tells whether the
    /// `i`-th usual device path exists: the first one that does.
    pub fn from_probes(found: &Vec<bool>) -> (r: Result<Self, TocError>)
        ensures
            match r {
                Ok(reader) => exists|i: int|
                    0 <= i < found@.len() && i < 6 && found@[i] && (forall|k: int|
                        0 <= k < i ==> !found@[k]) && reader.device_path@
                        == common_device_paths()[i],
                Err(e) => e == TocError::NoDevice && forall|k: int|
                    0 <= k < found@.len() && k < 6 ==> !found@[k],
            },
            r matches Ok(reader) ==> common_device_paths().contains(reader.device_path@),
    {
        let mut i: usize = 0;
        while i < found.len() && i < 6
            invariant
                i <= 6,
                forall|k: int| 0 <= k < i ==> !found@[k],
            decreases 6 - i,
        {
            if found[i] {
                let p = common_device_path(i);
                let r = CDReader { device_path: p.to_string() };
                assert(common_device_paths()[i as int] == r.device_path@);
                return Ok(r);
            }
            i += 1;
        }
        Err(TocError::NoDevice)
    }

    /// Reads `cd-discid` output: `<disc-id> <track count> <offset>...
    /// <lead-out>`.
    pub fn parse_discid_output(&self, output: &str) -> (r: Result<CDToc, TocError>)
        ensures
            match r {
                Ok(t) => t.first_track == 1 && discid_toc(output@) == Ok::<(u8, Seq<i32>, i32), TocError>(
                    (t.last_track, t.track_offsets@, t.leadout_offset),
                ),
                Err(e) => discid_toc(output@) == Err::<(u8, Seq<i32>, i32), TocError>(e),
            },
    {
        let v = chars_of(output);
        let parts = split_whitespace(&v);
        let ghost p = text::views(parts@);
        if parts.len() < 3 {
            return Err(TocError::InvalidFormat);
        }
        assert(p[1] == parts@[1]@);
        let num = match parse_u8(&parts[1]) {
            Some(n) => n,
            None => {
                return Err(TocError::BadTrackCount);
            },
        };
        let end: usize = 2 + num as usize;
        let mut offsets: Vec<i32> = Vec::new();
        let mut i: usize = 2;
        while i < end
            invariant
                2 <= i <= end,
                end == 2 + num,
                p == text::views(parts@),
                p == text::words(output@),
                text::parse_int(p[1], false, 0, 255) == Some(num as int),
                parts@.len() >= 3,
                discid_offsets(p, 2, end as int) == match discid_offsets(p, i as int, end as int) {
                    Ok(rest) => Ok(offsets@ + rest),
                    Err(e) => Err(e),
                },
            decreases end - i,
        {
            if i >= parts.len() {
                return Err(TocError::MissingTrackOffset);
            }
            assert(p[i as int] == parts@[i as int]@);
            match parse_i32(&parts[i]) {
                None => {
                    return Err(TocError::BadTrackOffset);
                },
                Some(x) => {
                    let ghost before = offsets@;
                    offsets.push(x);
                    proof {
                        match discid_offsets(p, i + 1, end as int) {
                            Ok(rest) => {
                                assert(before + (seq![x] + rest) =~= offsets@ + rest);
                            },
                            Err(e) => {},
                        }
                    }
                },
            }
            i += 1;
        }
        assert(offsets@ + seq![] =~= offsets@);
        let last = parts.len() - 1;
        assert(p[last as int] == parts@[last as int]@);
        match parse_i32(&parts[last]) {
            None => Err(TocError::BadLeadout),
            Some(l) => Ok(
                CDToc { first_track: 1, last_track: num, leadout_offset: l, track_offsets: offsets },
            ),
        }
    }

    /// Reads CD-TEXT title and performer from `cdrdao read-cddb` output;
    /// nothing when neither is there.
    pub fn parse_cdtext(&self, output: &str) -> (r: Option<CDTextInfo>)
        ensures
            ({
                let (t, a) = cdtext_fields(text::lines(output@));
                match r {
                    Some(info) => (t is Some || a is Some) && text::opt_str(info.album_title) == t
                        && text::opt_str(info.artist) == a,
                    None => t is None && a is None,
                }
            }),
    {
        let v = chars_of(output);
        let ls = split_lines(&v);
        let ghost l = text::views(ls@);
        let title_tag = chars_of("Title:");
        let performer_tag = chars_of("Performer:");
        let mut title: Option<String> = None;
        let mut artist: Option<String> = None;
        let mut i: usize = 0;
        while i < ls.len()
            invariant
                i <= ls.len(),
                l == text::views(ls@),
                title_tag@ == "Title:"@,
                performer_tag@ == "Performer:"@,
                (text::opt_str(title), text::opt_str(artist)) == cdtext_fields(l.take(i as int)),
            decreases ls.len() - i,
        {
            let line = &ls[i];
            assert(l.take(i + 1).drop_last() =~= l.take(i as int));
            assert(l.take(i + 1).last() == line@);
            if starts_with(line, &title_tag) {
                let rest = subrange_of(line, title_tag.len(), line.len());
                assert(rest@ =~= line@.skip("Title:"@.len() as int));
                title = Some(string_from_chars(&trim_chars(&rest)));
            } else if starts_with(line, &performer_tag) {
                let rest = subrange_of(line, performer_tag.len(), line.len());
                assert(rest@ =~= line@.skip("Performer:"@.len() as int));
                artist = Some(string_from_chars(&trim_chars(&rest)));
            }
            i += 1;
        }
        assert(l.take(ls.len() as int) =~= l);
        assert(l == text::lines(output@));
        if title.is_some() || artist.is_some() {
            Some(CDTextInfo { album_title: title, artist })
        } else {
            None
        }
    }

    /// Reads `cdparanoia -Q` output: track lines such as
    /// `1.    18295 [04:04.45]   0 [00:00.00] ...` give the track offsets and
    /// the last track number, a `TOTAL` line the lead-out offset.
    pub fn parse_cdparanoia_output(&self, output: &str) -> (r: Result<CDToc, TocError>)
        ensures
            ({
                let (offsets, last, leadout) = paranoia_scan(text::lines(output@));
                match r {
                    Ok(t) => offsets.len() > 0 && t.first_track == 1 && t.last_track == last
                        && t.track_offsets@ == offsets && t.leadout_offset == leadout,
                    Err(e) => offsets.len() == 0 && e == TocError::NoTracks,
                }
            }),
    {
        let v = chars_of(output);
        let ls = split_lines(&v);
        let ghost l = text::views(ls@);
        let total_tag = chars_of("TOTAL");
        let mut offsets: Vec<i32> = Vec::new();
        let mut last: u8 = 0;
        let mut leadout: i32 = 0;
        let mut i: usize = 0;
        while i < ls.len()
            invariant
                i <= ls.len(),
                l == text::views(ls@),
                total_tag@ == "TOTAL"@,
                (offsets@, last, leadout) == paranoia_scan(l.take(i as int)),
            decreases ls.len() - i,
        {
            assert(l.take(i + 1).drop_last() =~= l.take(i as int));
            assert(l.take(i + 1).last() == ls@[i as int]@);
            let line = trim_chars(&ls[i]);
            match paranoia_track_line(&line) {
                Some((n, off)) => {
                    offsets.push(off);
                    last = n;
                },
                None => {},
            }
            match paranoia_total_line(&line, &total_tag) {
                Some(x) => {
                    leadout = x;
                },
                None => {},
            }
            i += 1;
        }
        assert(l.take(ls.len() as int) =~= l);
        if offsets.len() == 0 {
            return Err(TocError::NoTracks);
        }
        Ok(CDToc { first_track: 1, last_track: last, leadout_offset: leadout, track_offsets: offsets })
    }
}

fn paranoia_track_line(line: &Vec<char>) -> (r: Option<(u8, i32)>)
    ensures
        r == paranoia_track(line@),
{
    if line.len() > 0 && '0' <= line[0] && line[0] <= '9' {
        match find_char(line, '.') {
            None => None,
            Some(dot) => {
                let head = subrange_of(line, 0, dot);
                assert(head@ =~= line@.take(dot as int));
                let num = trim_chars(&head);
                match parse_u8(&num) {
                    None => None,
                    Some(n) => {
                        let rest = subrange_of(line, dot + 1, line.len());
                        assert(rest@ =~= line@.skip(dot + 1));
                        let parts = split_whitespace(&rest);
                        if parts.len() >= 3 {
                            assert(text::views(parts@)[2] == parts@[2]@);
                            match parse_i32(&parts[2]) {
                                Some(off) => Some((n, off)),
                                None => None,
                            }
                        } else {
                            None
                        }
                    },
                }
            },
        }
    } else {
        None
    }
}

fn paranoia_total_line(line: &Vec<char>, total_tag: &Vec<char>) -> (r: Option<i32>)
    requires
        total_tag@ == "TOTAL"@,
    ensures
        r == paranoia_total(line@),
{
    if starts_with(line, total_tag) {
        let parts = split_whitespace(line);
        if parts.len() >= 2 {
            assert(text::views(parts@)[1] == parts@[1]@);
            match parse_i32(&parts[1]) {
                Some(x) => Some(x),
                None => None,
            }
        } else {
            None
        }
    } else {
        None
    }
}

/// What the messages of `cdparanoia -Q` say of the drive: a disc is in it
/// when they mention a table of contents or a track, none when the drive
/// could not be opened, and nothing either way otherwise.
pub open spec fn disc_presence_of(stderr: Seq<char>) -> Option<bool> {
    if text::has_infix(stderr, "Table of contents"@) || text::has_infix(stderr, "track"@) {
        Some(true)
    } else if text::has_infix(stderr, "Unable to open"@) || text::has_infix(stderr, "No such"@) {
        Some(false)
    } else {
        None
    }
}

/// Reads the messages of `cdparanoia -Q`: `Some(true)` when a disc is in
/// the drive, `Some(false)` when there is none, `None` when they do not
/// tell and the table of contents has to be read to find out.
pub fn disc_presence(stderr: &str) -> (r: Option<bool>)
    ensures
        r == disc_presence_of(stderr@),
{
    let v = text::chars_of(stderr);
    if text::contains(&v, &text::chars_of("Table of contents")) || text::contains(
        &v,
        &text::chars_of("track"),
    ) {
        Some(true)
    } else if text::contains(&v, &text::chars_of("Unable to open")) || text::contains(
        &v,
        &text::chars_of("No such"),
    ) {
        Some(false)
    } else {
        None
    }
}

} // verus!
