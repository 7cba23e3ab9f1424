use muserv::search::{parse_query, plan_search, SearchQuery};
use muserv::tracks::{page_limit, page_offset, plan_track_list, track_by_id_sql, ListQuery};

const SELECT: &str = "SELECT id, path, title, album, artist, album_artist, track_no, disc_no, duration_ms, year, bitrate, sample_rate, channels FROM tracks t WHERE 1=1";
const EXISTS: &str = "EXISTS (SELECT 1 FROM track_tags tt JOIN tags tg ON tg.id = tt.tag_id WHERE tt.track_id = t.id AND tg.namespace = ? AND tg.value = ?)";
const ORDER: &str = " ORDER BY album_artist, album, disc_no, track_no, title LIMIT ? OFFSET ?";

#[test]
fn tokens() {
    let t = parse_query("genre:rock  -composer:bach x:a:b").ok().unwrap();
    assert_eq!(t.len(), 3);
    assert!(!t[0].negated);
    assert_eq!((t[0].namespace.as_str(), t[0].value.as_str()), ("genre", "rock"));
    assert!(t[1].negated);
    assert_eq!((t[1].namespace.as_str(), t[1].value.as_str()), ("composer", "bach"));
    assert_eq!((t[2].namespace.as_str(), t[2].value.as_str()), ("x", "a:b"));
    let t = parse_query(":v").ok().unwrap();
    assert_eq!(t[0].namespace, "");
}

#[test]
fn token_errors() {
    let e = parse_query("genre:rock oops").err().unwrap();
    assert_eq!(e.status, 400);
    assert_eq!(e.message, "token 'oops' missing ':'");
    let e = parse_query("-genre: a:").err().unwrap();
    assert_eq!(e.message, "token '-genre:' has empty value");
    assert!(parse_query("   ").ok().unwrap().is_empty());
}

#[test]
fn search_plan() {
    let q = SearchQuery { q: "genre:rock -mood:sad".into(), limit: None, offset: Some(-5) };
    let p = plan_search(&q).ok().unwrap();
    assert_eq!(p.sql, format!("{SELECT} AND {EXISTS} AND NOT {EXISTS}{ORDER}"));
    assert_eq!(p.binds, vec!["genre", "rock", "mood", "sad"]);
    assert_eq!((p.limit, p.offset), (100, 0));
}

#[test]
fn search_plan_errors() {
    let e = plan_search(&SearchQuery { q: " ".into(), limit: None, offset: None }).err().unwrap();
    assert_eq!((e.status, e.message.as_str()), (400, "query is empty"));
    let e = plan_search(&SearchQuery { q: "x".into(), limit: None, offset: None }).err().unwrap();
    assert_eq!(e.message, "token 'x' missing ':'");
}

#[test]
fn paging() {
    assert_eq!(page_limit(None), 100);
    assert_eq!(page_limit(Some(0)), 1);
    assert_eq!(page_limit(Some(5000)), 1000);
    assert_eq!(page_limit(Some(50)), 50);
    assert_eq!(page_offset(None), 0);
    assert_eq!(page_offset(Some(-1)), 0);
    assert_eq!(page_offset(Some(30)), 30);
}

#[test]
fn track_list_plan() {
    let cols = "SELECT id, library_id, path, title, album, artist, album_artist, track_no, disc_no, duration_ms, year, bitrate, sample_rate, channels, added_at FROM tracks";
    let q = ListQuery { limit: Some(10), offset: None, album: Some("A".into()), artist: None, album_artist: Some("B".into()) };
    let p = plan_track_list(&q);
    assert_eq!(p.sql, format!("{cols} WHERE library_id = ? AND album = ? AND album_artist = ?{ORDER}"));
    assert_eq!(p.binds, vec!["A", "B"]);
    assert_eq!((p.limit, p.offset), (10, 0));
    let p = plan_track_list(&ListQuery { limit: None, offset: None, album: None, artist: Some("C".into()), album_artist: None });
    assert_eq!(p.sql, format!("{cols} WHERE library_id = ? AND artist = ?{ORDER}"));
    assert_eq!(track_by_id_sql(), format!("{cols} WHERE library_id = ? AND id = ?"));
}

#[test]
fn query_round_trip() {
    let words = vec![("genre", "rock", false), ("mood", "sad:ish", true), ("", "x", false), ("-n", "v", true)];
    let text = words
        .iter()
        .map(|(ns, v, neg)| format!("{}{}:{}", if *neg { "-" } else { "" }, ns, v))
        .collect::<Vec<_>>()
        .join(" ");
    let t = parse_query(&text).ok().unwrap();
    assert_eq!(t.len(), words.len());
    for (tok, (ns, v, neg)) in t.iter().zip(words.iter()) {
        assert_eq!((tok.namespace.as_str(), tok.value.as_str(), tok.negated), (*ns, *v, *neg));
    }
}
