//! Metadata of physical discs and of MusicBrainz releases.

use vstd::prelude::*;
use crate::text;
use crate::thirdparty;

verus! {

/// A track of a CD album; durations are in milliseconds.
pub struct CDTrack {
    pub track_num: i32,
    pub title: String,
    /// For compilations: the track's own artist.
    pub artist: Option<String>,
    pub duration_ms: u32,
    pub isrc: Option<String>,
    pub mb_recording_id: Option<String>,
    /// Where the track starts on the disc; a rip keeps the track's number on
    /// its own disc here.
    pub start_offset: i32,
    pub end_offset: i32,
    pub pregap_ms: Option<u32>,
}

/// A CD album with what the disc and MusicBrainz tell of it; the total
/// duration is in milliseconds.
pub struct CDAlbum {
    pub disc_id: String,
    pub artist: String,
    pub album_title: String,
    pub release_date: Option<String>,
    pub label: Option<String>,
    pub catalog_number: Option<String>,
    pub barcode: Option<String>,
    pub tracks: Vec<CDTrack>,
    pub genres: Vec<String>,
    pub total_duration_ms: u128,
    pub mb_release_id: Option<String>,
    pub mb_release_group_id: Option<String>,
    pub mb_artist_id: Option<String>,
    pub cover_art_url: Option<String>,
    pub cover_art_available: bool,
    pub disc_number: Option<i32>,
    pub total_discs: Option<i32>,
    pub media_format: String,
}

impl CDTrack {
    /// A field-by-field copy.
    pub fn duplicate(&self) -> (r: Self)
        ensures
            r == *self,
    {
        CDTrack {
            track_num: self.track_num,
            title: self.title.clone(),
            artist: text::copy_opt_string(&self.artist),
            duration_ms: self.duration_ms,
            isrc: text::copy_opt_string(&self.isrc),
            mb_recording_id: text::copy_opt_string(&self.mb_recording_id),
            start_offset: self.start_offset,
            end_offset: self.end_offset,
            pregap_ms: self.pregap_ms,
        }
    }
}

/// A copy of a list of tracks.
pub fn copy_tracks(v: &Vec<CDTrack>) -> (r: Vec<CDTrack>)
    ensures
        r@ == v@,
{
    let mut r: Vec<CDTrack> = Vec::new();
    let mut i: usize = 0;
    while i < v.len()
        invariant
            i <= v@.len(),
            r@ =~= v@.take(i as int),
        decreases v@.len() - i,
    {
        r.push(v[i].duplicate());
        assert(v@.take(i + 1) =~= v@.take(i as int).push(v@[i as int]));
        i += 1;
    }
    assert(v@.take(v@.len() as int) =~= v@);
    r
}

/// `a` and `b` hold the same values: equal fields, and the same tracks
/// and genres in the same order.
pub open spec fn same_album(a: CDAlbum, b: CDAlbum) -> bool {
    &&& a.disc_id == b.disc_id
    &&& a.artist == b.artist
    &&& a.album_title == b.album_title
    &&& a.release_date == b.release_date
    &&& a.label == b.label
    &&& a.catalog_number == b.catalog_number
    &&& a.barcode == b.barcode
    &&& a.tracks@ == b.tracks@
    &&& a.genres@ == b.genres@
    &&& a.total_duration_ms == b.total_duration_ms
    &&& a.mb_release_id == b.mb_release_id
    &&& a.mb_release_group_id == b.mb_release_group_id
    &&& a.mb_artist_id == b.mb_artist_id
    &&& a.cover_art_url == b.cover_art_url
    &&& a.cover_art_available == b.cover_art_available
    &&& a.disc_number == b.disc_number
    &&& a.total_discs == b.total_discs
    &&& a.media_format == b.media_format
}

impl CDAlbum {
    /// A field-by-field copy.
    pub fn duplicate(&self) -> (r: Self)
        ensures
            same_album(r, *self),
    {
        CDAlbum {
            disc_id: self.disc_id.clone(),
            artist: self.artist.clone(),
            album_title: self.album_title.clone(),
            release_date: text::copy_opt_string(&self.release_date),
            label: text::copy_opt_string(&self.label),
            catalog_number: text::copy_opt_string(&self.catalog_number),
            barcode: text::copy_opt_string(&self.barcode),
            tracks: copy_tracks(&self.tracks),
            genres: text::copy_strings(&self.genres),
            total_duration_ms: self.total_duration_ms,
            mb_release_id: text::copy_opt_string(&self.mb_release_id),
            mb_release_group_id: text::copy_opt_string(&self.mb_release_group_id),
            mb_artist_id: text::copy_opt_string(&self.mb_artist_id),
            cover_art_url: text::copy_opt_string(&self.cover_art_url),
            cover_art_available: self.cover_art_available,
            disc_number: self.disc_number,
            total_discs: self.total_discs,
            media_format: self.media_format.clone(),
        }
    }
}

/// Table of contents of a physical CD.
pub struct CDToc {
    pub first_track: u8,
    pub last_track: u8,
    pub leadout_offset: i32,
    pub track_offsets: Vec<i32>,
}

/// A release as MusicBrainz describes it.
pub struct MusicBrainzRelease {
    pub id: String,
    pub title: String,
    pub artist: String,
    pub date: Option<String>,
    pub label: Option<String>,
    pub catalog_number: Option<String>,
    pub barcode: Option<String>,
    pub country: Option<String>,
    pub status: Option<String>,
    pub disambiguation: Option<String>,
    pub tracks: Vec<MusicBrainzTrack>,
    pub cover_art_archive: CoverArtArchive,
}

/// A track of a MusicBrainz release; `length` is in milliseconds.
pub struct MusicBrainzTrack {
    pub position: i32,
    pub title: String,
    pub length: Option<i32>,
    pub recording_id: String,
    pub artist_credit: Option<String>,
}

/// What the Cover Art Archive holds for a release.
pub struct CoverArtArchive {
    pub artwork: bool,
    pub count: i32,
    pub front: bool,
    pub back: bool,
}

/// The ASCII code of the upper-case hexadecimal digit for `d` in `0..16`.
pub open spec fn hex_ascii(d: int) -> u8 {
    if d < 10 {
        (48 + d) as u8
    } else {
        (55 + d) as u8
    }
}

/// The last `width` upper-case hexadecimal digits of `v`, as ASCII bytes
/// (`format!("{:0width$X}", v)` for a `v` below `16^width`).
pub open spec fn hex_text(v: nat, width: nat) -> Seq<u8>
    decreases width,
{
    if width == 0 {
        seq![]
    } else {
        hex_text(v / 16, (width - 1) as nat).push(hex_ascii((v % 16) as int))
    }
}

/// The 8 hexadecimal digits of the `i`-th of the 99 offset slots: the
/// offset of track `i + 1` read as an unsigned 32-bit number, or zero past
/// the last track.
pub open spec fn offset_slot(offsets: Seq<i32>, i: int) -> Seq<u8> {
    if i < offsets.len() {
        hex_text(offsets[i] as u32 as nat, 8)
    } else {
        hex_text(0, 8)
    }
}

/// The digits of 99 offset slots from slot `i` on.
pub open spec fn offset_slots(offsets: Seq<i32>, i: int) -> Seq<u8>
    decreases 99 - i,
{
    if i >= 99 {
        seq![]
    } else {
        offset_slot(offsets, i) + offset_slots(offsets, i + 1)
    }
}

/// The text that is hashed for a MusicBrainz disc id, as ASCII bytes: the
/// first and last track number as 2 upper-case hexadecimal digits each, the
/// lead-out offset as 8, then 99 offset slots of 8.
pub open spec fn disc_id_message(toc: CDToc) -> Seq<u8> {
    hex_text(toc.first_track as nat, 2) + hex_text(toc.last_track as nat, 2) + hex_text(
        toc.leadout_offset as u32 as nat,
        8,
    ) + offset_slots(toc.track_offsets@, 0)
}

/// A base64 text turned into a disc id: `+` becomes `.`, `/` becomes `_`
/// and `=` becomes `-`.
pub open spec fn disc_id_text(b64: Seq<char>) -> Seq<char> {
    text::replace_char_spec(
        text::replace_char_spec(text::replace_char_spec(b64, '+', '.'), '/', '_'),
        '=',
        '-',
    )
}

/// A disc id keeps the base64 text character for character, except that
/// `+` is written `.`, `/` is written `_` and `=` is written `-`.
pub proof fn lemma_disc_id_text_chars(b64: Seq<char>)
    ensures
        disc_id_text(b64).len() == b64.len(),
        forall|i: int|
            0 <= i < b64.len() ==> #[trigger] disc_id_text(b64)[i] == if b64[i] == '+' {
                '.'
            } else if b64[i] == '/' {
                '_'
            } else if b64[i] == '=' {
                '-'
            } else {
                b64[i]
            },
{
}

/// The MusicBrainz disc id of a table of contents: the SHA-1 digest of its
/// text, in padded standard base64, with `+`, `/` and `=` written `.`, `_`
/// and `-`.
pub open spec fn disc_id_of(toc: CDToc) -> Seq<char> {
    disc_id_text(thirdparty::base64_of(thirdparty::sha1_of(disc_id_message(toc))))
}

pub proof fn lemma_hex_text_len(v: nat, width: nat)
    ensures
        hex_text(v, width).len() == width,
    decreases width,
{
    if width > 0 {
        lemma_hex_text_len(v / 16, (width - 1) as nat);
    }
}

fn push_hex(out: &mut Vec<u8>, v: u32, width: usize)
    ensures
        final(out)@ == old(out)@ + hex_text(v as nat, width as nat),
    decreases width,
{
    if width > 0 {
        push_hex(out, v / 16, width - 1);
        let d = v % 16;
        out.push(if d < 10 { (48 + d) as u8 } else { (55 + d) as u8 });
        assert(final(out)@ =~= old(out)@ + hex_text(v as nat, width as nat));
    } else {
        assert(final(out)@ =~= old(out)@ + hex_text(v as nat, width as nat));
    }
}

impl CDToc {
    /// The text that is hashed for the disc id, as ASCII bytes.
    pub fn disc_id_bytes(&self) -> (r: Vec<u8>)
        ensures
            r@ == disc_id_message(*self),
            r@.len() == 804,
            hex_number(r@.subrange(0, 2)) == Some(self.first_track as int),
            hex_number(r@.subrange(2, 4)) == Some(self.last_track as int),
            hex_number(r@.subrange(4, 12)) == Some(self.leadout_offset as u32 as int),
            forall|i: int|
                0 <= i < 99 ==> #[trigger] hex_number(r@.subrange(12 + 8 * i, 20 + 8 * i)) == Some(
                    if i < self.track_offsets@.len() { self.track_offsets@[i] as u32 as int } else { 0 },
                ),
    {
        proof {
            lemma_disc_id_message_fields(*self);
        }
        let mut out: Vec<u8> = Vec::new();
        push_hex(&mut out, self.first_track as u32, 2);
        push_hex(&mut out, self.last_track as u32, 2);
        #[verifier::truncate]
        let lead = self.leadout_offset as u32;
        push_hex(&mut out, lead, 8);
        let ghost head = out@;
        assert(head =~= hex_text(self.first_track as nat, 2) + hex_text(self.last_track as nat, 2)
            + hex_text(self.leadout_offset as u32 as nat, 8));
        proof {
            lemma_hex_text_len(self.first_track as nat, 2);
            lemma_hex_text_len(self.last_track as nat, 2);
            lemma_hex_text_len(self.leadout_offset as u32 as nat, 8);
            lemma_offset_slots(self.track_offsets@, 0);
        }
        let mut i: usize = 0;
        while i < 99
            invariant
                i <= 99,
                out@ =~= head + offset_slots(self.track_offsets@, 0).take(8 * i),
                offset_slots(self.track_offsets@, 0).len() == 792,
                head.len() == 12,
            decreases 99 - i,
        {
            proof {
                lemma_offset_slots(self.track_offsets@, i as int);
            }
            let ghost before = out@;
            if i < self.track_offsets.len() {
                #[verifier::truncate]
                let o = self.track_offsets[i] as u32;
                push_hex(&mut out, o, 8);
            } else {
                push_hex(&mut out, 0, 8);
            }
            assert(out@ =~= before + offset_slot(self.track_offsets@, i as int));
            assert(offset_slots(self.track_offsets@, 0).take(8 * (i + 1)) =~= offset_slots(
                self.track_offsets@,
                0,
            ).take(8 * i) + offset_slot(self.track_offsets@, i as int));
            i += 1;
        }
        assert(offset_slots(self.track_offsets@, 0).take(792) =~= offset_slots(self.track_offsets@, 0));
        out
    }

    /// The MusicBrainz disc id of this table of contents: the SHA-1 digest
    /// of the text `disc_id_bytes` gives, in padded standard base64 with
    /// `+`, `/` and `=` written `.`, `_` and `-`; 28 characters, each a
    /// letter, a digit, `.`, `_` or `-`, the last one `-`.
    pub fn calculate_disc_id(&self) -> (r: String)
        ensures
            r@ == disc_id_of(*self),
            r@.len() == 28,
            r@.last() == '-',
            forall|i: int| 0 <= i < r@.len() ==> {
                let c = #[trigger] r@[i];
                ('A' <= c <= 'Z') || ('a' <= c <= 'z') || ('0' <= c <= '9') || c == '.' || c == '_'
                    || c == '-'
            },
    {
        let message = self.disc_id_bytes();
        let digest = thirdparty::sha1_digest(&message);
        let encoded = thirdparty::base64_standard(&digest);
        proof {
            thirdparty::lemma_base64(digest@);
        }
        let v = text::chars_of(encoded.as_str());
        let a = text::replace_char(&v, '+', '.');
        let b = text::replace_char(&a, '/', '_');
        let id = text::replace_char(&b, '=', '-');
        assert forall|i: int| 0 <= i < id@.len() implies {
            let c = #[trigger] id@[i];
            ('A' <= c <= 'Z') || ('a' <= c <= 'z') || ('0' <= c <= '9') || c == '.' || c == '_'
                || c == '-'
        } by {
            assert(thirdparty::is_base64_char(v@[i]) || v@[i] == '=');
            assert(a@[i] == (if v@[i] == '+' { '.' } else { v@[i] }));
            assert(b@[i] == (if a@[i] == '/' { '_' } else { a@[i] }));
        }
        assert(v@.last() == '=');
        assert(id@[27] == '-');
        text::string_from_chars(&id)
    }
}

/// The slots from `i` on start with slot `i`, and there are `99 - i` of them.
pub proof fn lemma_offset_slots(offsets: Seq<i32>, i: int)
    requires
        0 <= i <= 99,
    ensures
        offset_slots(offsets, i).len() == 8 * (99 - i),
        offset_slots(offsets, 0).len() == 792,
        i < 99 ==> offset_slots(offsets, 0).subrange(8 * i, 8 * i + 8) == offset_slot(offsets, i),
    decreases 99 - i,
{
    lemma_slots_len(offsets, i);
    lemma_slots_len(offsets, 0);
    if i < 99 {
        lemma_slots_split(offsets, 0, i);
        lemma_slot_len(offsets, i);
        assert(offset_slots(offsets, i).subrange(0, 8) =~= offset_slot(offsets, i));
    }
}

proof fn lemma_slot_len(offsets: Seq<i32>, i: int)
    ensures
        offset_slot(offsets, i).len() == 8,
{
    if i < offsets.len() {
        lemma_hex_text_len(offsets[i] as u32 as nat, 8);
    } else {
        lemma_hex_text_len(0, 8);
    }
}

proof fn lemma_slots_len(offsets: Seq<i32>, i: int)
    requires
        0 <= i <= 99,
    ensures
        offset_slots(offsets, i).len() == 8 * (99 - i),
    decreases 99 - i,
{
    if i < 99 {
        lemma_slot_len(offsets, i);
        lemma_slots_len(offsets, i + 1);
    }
}

proof fn lemma_slots_split(offsets: Seq<i32>, j: int, i: int)
    requires
        0 <= j <= i < 99,
    ensures
        offset_slots(offsets, j).subrange(8 * (i - j), 8 * (i - j) + 8) == offset_slot(offsets, i),
    decreases i - j,
{
    lemma_slots_len(offsets, j + 1);
    lemma_slot_len(offsets, j);
    lemma_slot_len(offsets, i);
    if j == i {
        assert(offset_slots(offsets, j).subrange(0, 8) =~= offset_slot(offsets, i));
    } else {
        lemma_slots_split(offsets, j + 1, i);
        assert(offset_slots(offsets, j).subrange(8 * (i - j), 8 * (i - j) + 8) =~= offset_slots(
            offsets,
            j + 1,
        ).subrange(8 * (i - j - 1), 8 * (i - j - 1) + 8));
    }
}

/// The value of an ASCII upper-case hexadecimal digit (`0`-`9`, `A`-`F`).
pub open spec fn upper_hex_value(b: u8) -> Option<int> {
    if 48 <= b <= 57 {
        Some(b - 48)
    } else if 65 <= b <= 70 {
        Some(b - 55)
    } else {
        None
    }
}

/// The number a run of ASCII upper-case hexadecimal digits writes, most
/// significant first; `None` when a byte is not such a digit.
pub open spec fn hex_number(s: Seq<u8>) -> Option<int>
    decreases s.len(),
{
    if s.len() == 0 {
        Some(0)
    } else {
        match (hex_number(s.drop_last()), upper_hex_value(s.last())) {
            (Some(a), Some(d)) => Some(16 * a + d),
            _ => None,
        }
    }
}

/// `16` to the power `w`.
pub open spec fn pow16(w: nat) -> nat
    decreases w,
{
    if w == 0 {
        1
    } else {
        16 * pow16((w - 1) as nat)
    }
}

/// Written with `width` digits, a number below `16^width` reads back as
/// itself.
pub proof fn lemma_hex_text_value(v: nat, width: nat)
    requires
        v < pow16(width),
    ensures
        hex_number(hex_text(v, width)) == Some(v as int),
    decreases width,
{
    if width > 0 {
        let p = pow16((width - 1) as nat);
        assert(v / 16 < p) by (nonlinear_arith)
            requires
                v < 16 * p,
        ;
        lemma_hex_text_value(v / 16, (width - 1) as nat);
        let t = hex_text(v, width);
        assert(t.drop_last() =~= hex_text(v / 16, (width - 1) as nat));
        let d = (v % 16) as int;
        assert(upper_hex_value(hex_ascii(d)) == Some(d));
    } else {
        assert(v == 0);
    }
}

/// The text hashed for a disc id says, in upper-case hexadecimal read back
/// digit by digit: the first track number in bytes 0-1, the last track
/// number in bytes 2-3, the lead-out offset (as an unsigned 32-bit number)
/// in bytes 4-11, and in the 8 bytes from `12 + 8 i` the offset of track
/// `i + 1`, or zero past the last track, for each of the 99 slots.
pub proof fn lemma_disc_id_message_fields(toc: CDToc)
    ensures
        disc_id_message(toc).len() == 804,
        hex_number(disc_id_message(toc).subrange(0, 2)) == Some(toc.first_track as int),
        hex_number(disc_id_message(toc).subrange(2, 4)) == Some(toc.last_track as int),
        hex_number(disc_id_message(toc).subrange(4, 12)) == Some(toc.leadout_offset as u32 as int),
        forall|i: int|
            0 <= i < 99 ==> #[trigger] hex_number(disc_id_message(toc).subrange(12 + 8 * i, 20 + 8 * i))
                == Some(if i < toc.track_offsets@.len() { toc.track_offsets@[i] as u32 as int } else { 0 }),
{
    let m = disc_id_message(toc);
    let a = hex_text(toc.first_track as nat, 2);
    let b = hex_text(toc.last_track as nat, 2);
    let c = hex_text(toc.leadout_offset as u32 as nat, 8);
    let slots = offset_slots(toc.track_offsets@, 0);
    lemma_hex_text_len(toc.first_track as nat, 2);
    lemma_hex_text_len(toc.last_track as nat, 2);
    lemma_hex_text_len(toc.leadout_offset as u32 as nat, 8);
    lemma_offset_slots(toc.track_offsets@, 0);
    assert(pow16(2) == 256) by {
        reveal_with_fuel(pow16, 3);
    }
    assert(pow16(8) == 0x1_0000_0000) by {
        reveal_with_fuel(pow16, 9);
    }
    lemma_hex_text_value(toc.first_track as nat, 2);
    lemma_hex_text_value(toc.last_track as nat, 2);
    lemma_hex_text_value(toc.leadout_offset as u32 as nat, 8);
    assert(m.subrange(0, 2) =~= a);
    assert(m.subrange(2, 4) =~= b);
    assert(m.subrange(4, 12) =~= c);
    assert forall|i: int| 0 <= i < 99 implies #[trigger] hex_number(m.subrange(12 + 8 * i, 20 + 8 * i))
        == Some(if i < toc.track_offsets@.len() { toc.track_offsets@[i] as u32 as int } else { 0 }) by {
        lemma_offset_slots(toc.track_offsets@, i);
        assert(m.subrange(12 + 8 * i, 20 + 8 * i) =~= slots.subrange(8 * i, 8 * i + 8));
        if i < toc.track_offsets@.len() {
            lemma_hex_text_value(toc.track_offsets@[i] as u32 as nat, 8);
        } else {
            lemma_hex_text_value(0, 8);
        }
    }
}

} // verus!
