//! What a scan keeps of an audio file's tags and properties: the fields that
//! are stored with the track, numbers read from tag text, and the genre and
//! composer tags.
use vstd::prelude::*;

use crate::text::{
    decimal,
    is_ascii_digit,
    is_white_space,
    lemma_decimal_digits,
    lemma_find_char_first,
    lemma_find_char_none,
    lemma_i64_round_trip,
    lemma_trim_untouched,
    before_first,
    opt_view, chars_of, find_char_in, parse_i64, parse_i64_chars, trim, trim_chars};

verus! {

broadcast use vstd::string::group_string_axioms;

/// The kind of a tag item, as far as a scan cares.
pub enum ItemKind {
    Genre,
    Composer,
    Other,
}

/// One item of a tag: its kind and its text, if it holds text.
pub struct RawItem {
    pub kind: ItemKind,
    pub text: Option<String>,
}

/// The text of the tag fields that a scan reads.
pub struct RawTag {
    pub title: Option<String>,
    pub album: Option<String>,
    pub artist: Option<String>,
    pub album_artist: Option<String>,
    pub track_number: Option<String>,
    pub disc_number: Option<String>,
    pub year: Option<String>,
    pub recording_date: Option<String>,
    pub items: Vec<RawItem>,
}

/// The audio properties of a file.
pub struct RawProperties {
    pub duration_ms: u128,
    pub audio_bitrate: Option<u32>,
    pub sample_rate: Option<u32>,
    pub channels: Option<u8>,
}

/// What reading an audio file yields: its properties, its primary tag (the
/// one of the format's preferred type) and its first tag, if any.
pub struct RawFile {
    pub properties: RawProperties,
    pub primary_tag: Option<RawTag>,
    pub first_tag: Option<RawTag>,
}

/// The metadata stored with a track.
pub struct Parsed {
    pub title: Option<String>,
    pub album: Option<String>,
    pub artist: Option<String>,
    pub album_artist: Option<String>,
    pub track_no: Option<i64>,
    pub disc_no: Option<i64>,
    pub duration_ms: Option<i64>,
    pub year: Option<i64>,
    pub bitrate: Option<i64>,
    pub sample_rate: Option<i64>,
    pub channels: Option<i64>,
    /// `(namespace, value)` pairs imported as tags.
    pub tags: Vec<(String, String)>,
}

/// The number before the first `/` of a text such as `3/12`, trimmed.
pub open spec fn leading_number_of(s: Seq<char>) -> Option<i64> {
    parse_i64_chars(trim_chars(before_first(s, '/')))
}

/// The year a recording date begins with: its first four characters read as
/// a number. (Taking the first four bytes, as the date's text is sliced,
/// gives the same result: those bytes are a number only when they are the
/// first four characters and all ASCII.)
pub open spec fn year_of_date(d: Seq<char>) -> Option<i64> {
    if d.len() >= 4 {
        parse_i64_chars(d.take(4))
    } else {
        None
    }
}

/// The year of a tag: its year text when that is a number, else the year
/// its recording date begins with.
pub open spec fn year_of(year: Option<Seq<char>>, date: Option<Seq<char>>) -> Option<i64> {
    let from_year = match year {
        Some(y) => parse_i64_chars(trim_chars(y)),
        None => None,
    };
    match from_year {
        Some(v) => Some(v),
        None => match date {
            Some(d) => year_of_date(d),
            None => None,
        },
    }
}

/// The `(namespace, value)` tags that a list of items yields: genres and
/// composers whose trimmed text is not empty.
pub open spec fn tag_pairs(items: Seq<RawItem>) -> Seq<(Seq<char>, Seq<char>)>
    decreases items.len(),
{
    if items.len() == 0 {
        Seq::empty()
    } else {
        let prev = tag_pairs(items.drop_last());
        let it = items.last();
        let ns = match it.kind {
            ItemKind::Genre => Some("genre"@),
            ItemKind::Composer => Some("composer"@),
            ItemKind::Other => None,
        };
        match (ns, it.text) {
            (Some(n), Some(t)) => if trim_chars(t@).len() > 0 {
                prev.push((n, trim_chars(t@)))
            } else {
                prev
            },
            _ => prev,
        }
    }
}

/// Every genre or composer item with non-empty trimmed text gives one tag,
/// in order, independently of the items around it: the tags of two lists of
/// items, one after the other, are the tags of each list joined; a genre
/// item gives `("genre", text)`, a composer item `("composer", text)`, with
/// the text trimmed; any other item, or one without text or with only
/// white space, gives none.
pub proof fn lemma_item_tags_compose(a: Seq<RawItem>, b: Seq<RawItem>, it: RawItem)
    ensures
        tag_pairs(a + b) == tag_pairs(a) + tag_pairs(b),
        tag_pairs(seq![it]) == match (it.kind, it.text) {
            (ItemKind::Genre, Some(t)) => if trim_chars(t@).len() > 0 {
                seq![("genre"@, trim_chars(t@))]
            } else {
                Seq::empty()
            },
            (ItemKind::Composer, Some(t)) => if trim_chars(t@).len() > 0 {
                seq![("composer"@, trim_chars(t@))]
            } else {
                Seq::empty()
            },
            _ => Seq::empty(),
        },
    decreases b.len(),
{
    let one = seq![it];
    assert(one.drop_last() =~= Seq::<RawItem>::empty());
    assert(tag_pairs(one.drop_last()) =~= Seq::<(Seq<char>, Seq<char>)>::empty());
    match (it.kind, it.text) {
        (ItemKind::Genre, Some(t)) => {
            if trim_chars(t@).len() > 0 {
                assert(tag_pairs(one) =~= seq![("genre"@, trim_chars(t@))]);
            }
        },
        (ItemKind::Composer, Some(t)) => {
            if trim_chars(t@).len() > 0 {
                assert(tag_pairs(one) =~= seq![("composer"@, trim_chars(t@))]);
            }
        },
        _ => {},
    }
    if b.len() == 0 {
        assert(a + b =~= a);
        assert(tag_pairs(a) + tag_pairs(b) =~= tag_pairs(a));
    } else {
        lemma_item_tags_compose(a, b.drop_last(), it);
        assert((a + b).drop_last() =~= a + b.drop_last());
        assert((a + b).last() == b.last());
        assert(tag_pairs(a + b) =~= tag_pairs(a) + tag_pairs(b));
    }
}

proof fn lemma_decimal_len4(y: nat)
    requires
        1000 <= y <= 9999,
    ensures
        decimal(y).len() == 4,
{
    assert(decimal(y / 1000).len() == 1);
    assert(decimal((y / 10) / 10 / 10) == decimal(y / 1000));
    assert(decimal(y / 100).len() == 2);
    assert((y / 10) / 10 == y / 100);
    assert(decimal(y / 10).len() == 3);
}

/// Track and disc numbers are read from texts such as `3/12`: a number
/// followed by `/` and anything gives that number, as does the number alone.
pub proof fn lemma_leading_number(n: nat, rest: Seq<char>)
    requires
        n <= i64::MAX,
    ensures
        leading_number_of(decimal(n) + seq!['/'] + rest) == Some(n as i64),
        leading_number_of(decimal(n)) == Some(n as i64),
{
    lemma_decimal_digits(n);
    lemma_i64_round_trip(n);
    let d = decimal(n);
    let s = d + seq!['/'] + rest;
    assert forall|j: int| 0 <= j < d.len() implies s[j] != '/' && d[j] != '/' && !is_white_space(
        d[j],
    ) by {
        assert(s[j] == d[j]);
        assert(is_ascii_digit(d[j]));
    }
    lemma_find_char_first(s, '/', d.len() as int);
    assert(s.take(d.len() as int) =~= d);
    lemma_find_char_none(d, '/');
    lemma_trim_untouched(d);
}

/// The year of a tag: its year text when that is a number; when it is not
/// (or there is none), the year that the recording date begins with, so a
/// date such as `2003-05-01` gives 2003.
pub proof fn lemma_tag_year(y: nat, rest: Seq<char>, year_text: Option<Seq<char>>)
    ensures
        y <= i64::MAX ==> year_of(Some(decimal(y)), None) == Some(y as i64),
        y <= i64::MAX ==> year_of(Some(decimal(y)), Some(rest)) == Some(y as i64),
        (1000 <= y <= 9999 && match year_text {
            Some(t) => parse_i64_chars(trim_chars(t)) is None,
            None => true,
        }) ==> year_of(year_text, Some(decimal(y) + rest)) == Some(y as i64),
{
    lemma_decimal_digits(y);
    lemma_i64_round_trip(y);
    let d = decimal(y);
    assert forall|j: int| 0 <= j < d.len() implies !is_white_space(#[trigger] d[j]) by {
        assert(is_ascii_digit(d[j]));
    }
    lemma_trim_untouched(d);
    if 1000 <= y <= 9999 {
        lemma_decimal_len4(y);
        assert((d + rest).take(4) =~= d);
    }
}

/// Reads the number that a text such as `3/12` begins with.
pub fn leading_number(s: &str) -> (r: Option<i64>)
    ensures
        r == leading_number_of(s@),
{
    let cs = chars_of(s);
    let cut = match find_char_in(&cs, '/') {
        Some(k) => k,
        None => cs.len(),
    };
    proof {
        assert(s@.subrange(0, cut as int) =~= before_first(s@, '/'));
    }
    parse_i64(trim(s.substring_char(0, cut)))
}

/// The year of a tag from its year text and its recording date.
pub fn tag_year(year: Option<&str>, date: Option<&str>) -> (r: Option<i64>)
    ensures
        r == year_of(
            match year {
                Some(y) => Some(y@),
                None => None,
            },
            match date {
                Some(d) => Some(d@),
                None => None,
            },
        ),
{
    let from_year = match year {
        Some(y) => parse_i64(trim(y)),
        None => None,
    };
    match from_year {
        Some(v) => Some(v),
        None => match date {
            Some(d) => {
                let n = chars_of(d).len();
                if n >= 4 {
                    proof {
                        assert(d@.subrange(0, 4) =~= d@.take(4));
                    }
                    parse_i64(d.substring_char(0, 4))
                } else {
                    None
                }
            },
            None => None,
        },
    }
}

fn clone_text(o: &Option<String>) -> (r: Option<String>)
    ensures
        r == *o,
{
    match o {
        Some(s) => Some(s.clone()),
        None => None,
    }
}

/// The genre and composer tags of a list of items.
pub fn item_tags(items: &Vec<RawItem>) -> (r: Vec<(String, String)>)
    ensures
        r@.len() == tag_pairs(items@).len(),
        forall|i: int|
            0 <= i < r@.len() ==> ((#[trigger] r@[i]).0@, r@[i].1@) == tag_pairs(items@)[i],
{
    let mut out: Vec<(String, String)> = Vec::new();
    let mut i: usize = 0;
    while i < items.len()
        invariant
            i <= items@.len(),
            out@.len() == tag_pairs(items@.take(i as int)).len(),
            forall|k: int|
                0 <= k < out@.len() ==> ((#[trigger] out@[k]).0@, out@[k].1@) == tag_pairs(
                    items@.take(i as int),
                )[k],
        decreases items@.len() - i,
    {
        let it = &items[i];
        proof {
            assert(items@.take(i + 1).drop_last() =~= items@.take(i as int));
            assert(items@.take(i + 1).last() == *it);
        }
        let ns: Option<&str> = match it.kind {
            ItemKind::Genre => Some("genre"),
            ItemKind::Composer => Some("composer"),
            ItemKind::Other => None,
        };
        match (ns, &it.text) {
            (Some(n), Some(t)) => {
                let v = trim(t.as_str());
                if v.unicode_len() > 0 {
                    out.push((String::from_str(n), String::from_str(v)));
                }
            },
            _ => {},
        }
        i = i + 1;
    }
    proof {
        assert(items@.take(items@.len() as int) =~= items@);
    }
    out
}

/// The tag a scan reads: the primary tag, else the first one.
pub open spec fn chosen_tag(raw: &RawFile) -> Option<RawTag> {
    match raw.primary_tag {
        Some(t) => Some(t),
        None => raw.first_tag,
    }
}

/// Extracts the metadata stored with a track from what reading its file gave.
pub fn parse_metadata(raw: &RawFile) -> (p: Parsed)
    ensures
        p.duration_ms == Some(raw.properties.duration_ms as i64),
        p.bitrate == match raw.properties.audio_bitrate {
            Some(b) => Some(b as i64),
            None => None::<i64>,
        },
        p.sample_rate == match raw.properties.sample_rate {
            Some(s) => Some(s as i64),
            None => None::<i64>,
        },
        p.channels == match raw.properties.channels {
            Some(c) => Some(c as i64),
            None => None::<i64>,
        },
        match chosen_tag(raw) {
            Some(t) => {
                &&& p.title == t.title
                &&& p.album == t.album
                &&& p.artist == t.artist
                &&& p.album_artist == t.album_artist
                &&& p.track_no == match t.track_number {
                    Some(s) => leading_number_of(s@),
                    None => None,
                }
                &&& p.disc_no == match t.disc_number {
                    Some(s) => leading_number_of(s@),
                    None => None,
                }
                &&& p.year == year_of(opt_view(t.year), opt_view(t.recording_date))
                &&& p.tags@.len() == tag_pairs(t.items@).len()
                &&& forall|i: int|
                    0 <= i < p.tags@.len() ==> ((#[trigger] p.tags@[i]).0@, p.tags@[i].1@)
                        == tag_pairs(t.items@)[i]
            },
            None => {
                &&& p.title is None && p.album is None && p.artist is None
                &&& p.album_artist is None && p.track_no is None && p.disc_no is None
                &&& p.year is None && p.tags@.len() == 0
            },
        },
{
    let props = &raw.properties;
    let duration_ms = Some(props.duration_ms as i64);
    let bitrate = match props.audio_bitrate {
        Some(b) => Some(b as i64),
        None => None,
    };
    let sample_rate = match props.sample_rate {
        Some(s) => Some(s as i64),
        None => None,
    };
    let channels = match props.channels {
        Some(c) => Some(c as i64),
        None => None,
    };
    let tag = match &raw.primary_tag {
        Some(t) => Some(t),
        None => match &raw.first_tag {
            Some(t) => Some(t),
            None => None,
        },
    };
    match tag {
        Some(t) => {
            let track_no = match &t.track_number {
                Some(s) => leading_number(s.as_str()),
                None => None,
            };
            let disc_no = match &t.disc_number {
                Some(s) => leading_number(s.as_str()),
                None => None,
            };
            let year = tag_year(
                match &t.year {
                    Some(y) => Some(y.as_str()),
                    None => None,
                },
                match &t.recording_date {
                    Some(d) => Some(d.as_str()),
                    None => None,
                },
            );
            Parsed {
                title: clone_text(&t.title),
                album: clone_text(&t.album),
                artist: clone_text(&t.artist),
                album_artist: clone_text(&t.album_artist),
                track_no,
                disc_no,
                duration_ms,
                year,
                bitrate,
                sample_rate,
                channels,
                tags: item_tags(&t.items),
            }
        },
        None => Parsed {
            title: None,
            album: None,
            artist: None,
            album_artist: None,
            track_no: None,
            disc_no: None,
            duration_ms,
            year: None,
            bitrate,
            sample_rate,
            channels,
            tags: Vec::new(),
        },
    }
}

} // verus!
