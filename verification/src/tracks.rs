//! Track listings: the rows served, paging, and the SQL of a filtered listing.
use vstd::prelude::*;

verus! {

broadcast use vstd::string::group_string_axioms;

/// A track row.
pub struct Track {
    pub id: i64,
    pub library_id: i64,
    pub path: String,
    pub title: Option<String>,
    pub album: Option<String>,
    pub artist: Option<String>,
    pub album_artist: Option<String>,
    pub track_no: Option<i64>,
    pub disc_no: Option<i64>,
    pub duration_ms: Option<i64>,
    pub year: Option<i64>,
    pub bitrate: Option<i64>,
    pub sample_rate: Option<i64>,
    pub channels: Option<i64>,
    pub added_at: i64,
}

/// The query string of a track listing.
pub struct ListQuery {
    pub limit: Option<i64>,
    pub offset: Option<i64>,
    pub album: Option<String>,
    pub artist: Option<String>,
    pub album_artist: Option<String>,
}

/// An album: its name, album artist, earliest year and number of tracks.
pub struct AlbumRow {
    pub album: Option<String>,
    pub album_artist: Option<String>,
    pub year: Option<i64>,
    pub track_count: i64,
}

/// An artist and its number of tracks.
pub struct ArtistRow {
    pub artist: Option<String>,
    pub track_count: i64,
}

/// A SQL statement with the text values bound to its first placeholders,
/// followed by the page's limit and offset.
pub struct SqlQuery {
    pub sql: String,
    pub binds: Vec<String>,
    pub limit: i64,
    pub offset: i64,
}

/// The page size: 100 by default, clamped to `1..=1000`.
pub open spec fn limit_of(limit: Option<i64>) -> i64 {
    let l = match limit {
        Some(l) => l,
        None => 100,
    };
    if l < 1 {
        1
    } else if l > 1000 {
        1000
    } else {
        l
    }
}

/// The page offset: 0 by default, and never negative.
pub open spec fn offset_of(offset: Option<i64>) -> i64 {
    let o = match offset {
        Some(o) => o,
        None => 0,
    };
    if o < 0 {
        0
    } else {
        o
    }
}

/// Pages hold 100 tracks unless asked otherwise; a requested size is used
/// as is within 1..=1000 and clamped to the nearest bound outside it. The
/// offset is 0 unless given, and a negative one counts as 0.
pub proof fn lemma_paging(l: i64, o: i64)
    ensures
        limit_of(None) == 100,
        1 <= l <= 1000 ==> limit_of(Some(l)) == l,
        l < 1 ==> limit_of(Some(l)) == 1,
        l > 1000 ==> limit_of(Some(l)) == 1000,
        offset_of(None) == 0,
        o >= 0 ==> offset_of(Some(o)) == o,
        o < 0 ==> offset_of(Some(o)) == 0,
{
}

pub fn page_limit(limit: Option<i64>) -> (r: i64)
    ensures
        r == limit_of(limit),
        1 <= r <= 1000,
{
    let l = match limit {
        Some(l) => l,
        None => 100,
    };
    if l < 1 {
        1
    } else if l > 1000 {
        1000
    } else {
        l
    }
}

pub fn page_offset(offset: Option<i64>) -> (r: i64)
    ensures
        r == offset_of(offset),
        r >= 0,
{
    let o = match offset {
        Some(o) => o,
        None => 0,
    };
    if o < 0 {
        0
    } else {
        o
    }
}

/// The ordering and paging that closes every track listing.
pub open spec fn track_order_text() -> Seq<char> {
    " ORDER BY album_artist, album, disc_no, track_no, title LIMIT ? OFFSET ?"@
}

/// `SELECT <track columns> FROM tracks`.
pub open spec fn select_tracks_text() -> Seq<char> {
    "SELECT id, library_id, path, title, album, artist, album_artist, track_no, disc_no, duration_ms, year, bitrate, sample_rate, channels, added_at FROM tracks"@
}

fn select_tracks() -> (s: String)
    ensures
        s@ == select_tracks_text(),
{
    String::from_str(
        "SELECT id, library_id, path, title, album, artist, album_artist, track_no, disc_no, duration_ms, year, bitrate, sample_rate, channels, added_at FROM tracks",
    )
}

/// The SQL of one track of a library; binds: the library id, then the track id.
pub fn track_by_id_sql() -> (s: String)
    ensures
        s@ == select_tracks_text() + " WHERE library_id = ? AND id = ?"@,
{
    let mut s = select_tracks();
    s.append(" WHERE library_id = ? AND id = ?");
    s
}

/// The filter that an optional equality on `clause` adds.
pub open spec fn filter_text(v: Option<String>, clause: Seq<char>) -> Seq<char> {
    match v {
        Some(_) => clause,
        None => Seq::empty(),
    }
}

pub open spec fn filter_binds(v: Option<String>) -> Seq<Seq<char>> {
    match v {
        Some(s) => seq![s@],
        None => Seq::empty(),
    }
}

/// The listing of a library's tracks, filtered by whichever of album,
/// artist and album artist the query gives, in that order. The library id is
/// bound before the text values.
pub fn plan_track_list(q: &ListQuery) -> (p: SqlQuery)
    ensures
        p.sql@ == select_tracks_text() + " WHERE library_id = ?"@ + filter_text(
            q.album,
            " AND album = ?"@,
        ) + filter_text(q.artist, " AND artist = ?"@) + filter_text(
            q.album_artist,
            " AND album_artist = ?"@,
        ) + track_order_text(),
        p.binds@.map_values(|b: String| b@) == filter_binds(q.album) + filter_binds(q.artist)
            + filter_binds(q.album_artist),
        p.limit == limit_of(q.limit),
        p.offset == offset_of(q.offset),
{
    let limit = page_limit(q.limit);
    let offset = page_offset(q.offset);
    let mut sql = select_tracks();
    sql.append(" WHERE library_id = ?");
    let ghost base = sql@;
    let mut binds: Vec<String> = Vec::new();
    match &q.album {
        Some(v) => {
            sql.append(" AND album = ?");
            binds.push(v.clone());
        },
        None => {},
    }
    proof {
        assert(sql@ =~= base + filter_text(q.album, " AND album = ?"@));
        assert(binds@.map_values(|b: String| b@) =~= filter_binds(q.album));
    }
    let ghost s1 = sql@;
    let ghost b1 = binds@.map_values(|b: String| b@);
    match &q.artist {
        Some(v) => {
            sql.append(" AND artist = ?");
            binds.push(v.clone());
        },
        None => {},
    }
    proof {
        assert(sql@ =~= s1 + filter_text(q.artist, " AND artist = ?"@));
        assert(binds@.map_values(|b: String| b@) =~= b1 + filter_binds(q.artist));
    }
    let ghost s2 = sql@;
    let ghost b2 = binds@.map_values(|b: String| b@);
    match &q.album_artist {
        Some(v) => {
            sql.append(" AND album_artist = ?");
            binds.push(v.clone());
        },
        None => {},
    }
    proof {
        assert(sql@ =~= s2 + filter_text(q.album_artist, " AND album_artist = ?"@));
        assert(binds@.map_values(|b: String| b@) =~= b2 + filter_binds(q.album_artist));
    }
    sql.append(" ORDER BY album_artist, album, disc_no, track_no, title LIMIT ? OFFSET ?");
    SqlQuery { sql, binds, limit, offset }
}

} // verus!
