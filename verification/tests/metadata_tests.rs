use muserv::metadata::{
    item_tags, leading_number, parse_metadata, tag_year, ItemKind, RawFile, RawItem, RawProperties,
    RawTag,
};

fn empty_tag() -> RawTag {
    RawTag {
        title: None,
        album: None,
        artist: None,
        album_artist: None,
        track_number: None,
        disc_number: None,
        year: None,
        recording_date: None,
        items: vec![],
    }
}

#[test]
fn leading_numbers() {
    assert_eq!(leading_number("3/12"), Some(3));
    assert_eq!(leading_number(" 7 "), Some(7));
    assert_eq!(leading_number("/12"), None);
    assert_eq!(leading_number("a/1"), None);
    assert_eq!(leading_number("-2"), Some(-2));
}

#[test]
fn years() {
    assert_eq!(tag_year(Some(" 1999 "), None), Some(1999));
    assert_eq!(tag_year(Some("x"), Some("2003-05-01")), Some(2003));
    assert_eq!(tag_year(None, Some("2003")), Some(2003));
    assert_eq!(tag_year(None, Some("203")), None);
    assert_eq!(tag_year(None, Some("ab12")), None);
    assert_eq!(tag_year(None, Some("éé")), None);
    assert_eq!(tag_year(None, None), None);
}

#[test]
fn genre_and_composer_items() {
    let items = vec![
        RawItem { kind: ItemKind::Genre, text: Some(" Rock ".into()) },
        RawItem { kind: ItemKind::Other, text: Some("x".into()) },
        RawItem { kind: ItemKind::Composer, text: Some("   ".into()) },
        RawItem { kind: ItemKind::Composer, text: None },
        RawItem { kind: ItemKind::Composer, text: Some("Bach".into()) },
    ];
    assert_eq!(
        item_tags(&items),
        vec![("genre".to_string(), "Rock".to_string()), ("composer".to_string(), "Bach".to_string())]
    );
}

#[test]
fn metadata_from_primary_tag() {
    let mut t = empty_tag();
    t.title = Some("T".into());
    t.track_number = Some("4/10".into());
    t.disc_number = Some("1".into());
    t.year = Some("2001".into());
    let mut first = empty_tag();
    first.title = Some("other".into());
    let raw = RawFile {
        properties: RawProperties {
            duration_ms: 183_000,
            audio_bitrate: Some(320),
            sample_rate: Some(44100),
            channels: Some(2),
        },
        primary_tag: Some(t),
        first_tag: Some(first),
    };
    let p = parse_metadata(&raw);
    assert_eq!(p.title.as_deref(), Some("T"));
    assert_eq!(p.track_no, Some(4));
    assert_eq!(p.disc_no, Some(1));
    assert_eq!(p.year, Some(2001));
    assert_eq!(p.duration_ms, Some(183_000));
    assert_eq!(p.bitrate, Some(320));
    assert_eq!(p.sample_rate, Some(44100));
    assert_eq!(p.channels, Some(2));
}

#[test]
fn metadata_falls_back_to_first_tag() {
    let mut first = empty_tag();
    first.album = Some("A".into());
    let raw = RawFile {
        properties: RawProperties { duration_ms: 1, audio_bitrate: None, sample_rate: None, channels: None },
        primary_tag: None,
        first_tag: Some(first),
    };
    let p = parse_metadata(&raw);
    assert_eq!(p.album.as_deref(), Some("A"));
    assert_eq!(p.bitrate, None);
}

#[test]
fn metadata_without_tags() {
    let raw = RawFile {
        properties: RawProperties { duration_ms: 5, audio_bitrate: None, sample_rate: None, channels: None },
        primary_tag: None,
        first_tag: None,
    };
    let p = parse_metadata(&raw);
    assert!(p.title.is_none() && p.year.is_none() && p.tags.is_empty());
    assert_eq!(p.duration_ms, Some(5));
}
