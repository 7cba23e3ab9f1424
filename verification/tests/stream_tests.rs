use muserv::stream::{parse_range, plan_byte_range, plan_stream, stream_response};

#[test]
fn parse_range_reads_first_range() {
    assert_eq!(parse_range("bytes=0-99"), Some((0, Some(99))));
    assert_eq!(parse_range("bytes=100-"), Some((100, None)));
    assert_eq!(parse_range("bytes= 5 - 9 "), Some((5, Some(9))));
    assert_eq!(parse_range("bytes=0-1,5-9"), Some((0, Some(1))));
}

#[test]
fn parse_range_refuses() {
    assert_eq!(parse_range("bytes=-500"), None);
    assert_eq!(parse_range("items=0-1"), None);
    assert_eq!(parse_range("bytes=5"), None);
    assert_eq!(parse_range("bytes=a-1"), None);
    assert_eq!(parse_range("bytes=1-b"), None);
    assert_eq!(parse_range("Bytes=0-1"), None);
}

#[test]
fn plan_whole_file_without_range() {
    let p = plan_byte_range(None, 1000).ok().unwrap();
    assert_eq!((p.status, p.start, p.end, p.length), (200, 0, 999, 1000));
    let p = plan_byte_range(Some("garbage"), 10).ok().unwrap();
    assert_eq!((p.status, p.start, p.end, p.length), (200, 0, 9, 10));
}

#[test]
fn plan_empty_file_announces_one_byte() {
    let p = plan_byte_range(None, 0).ok().unwrap();
    assert_eq!((p.status, p.start, p.end, p.length), (200, 0, 0, 1));
}

#[test]
fn plan_partial() {
    let p = plan_byte_range(Some("bytes=10-19"), 100).ok().unwrap();
    assert_eq!((p.status, p.start, p.end, p.length), (206, 10, 19, 10));
    let p = plan_byte_range(Some("bytes=90-"), 100).ok().unwrap();
    assert_eq!((p.status, p.start, p.end, p.length), (206, 90, 99, 10));
}

#[test]
fn plan_unsatisfiable() {
    for h in ["bytes=100-", "bytes=5-100", "bytes=9-3"] {
        let e = plan_byte_range(Some(h), 100).err().unwrap();
        assert_eq!(e.status, 416);
        assert_eq!(e.message, "invalid range");
    }
}

#[test]
fn response_headers() {
    let r = stream_response("audio/mpeg".to_string(), Some("bytes=10-19"), 100).ok().unwrap();
    assert_eq!(r.status, 206);
    assert_eq!(r.content_length, "10");
    assert_eq!(r.content_range.as_deref(), Some("bytes 10-19/100"));
    assert_eq!(r.content_type, "audio/mpeg");
    let r = stream_response("x/y".to_string(), None, 5).ok().unwrap();
    assert_eq!(r.status, 200);
    assert_eq!(r.content_length, "5");
    assert!(r.content_range.is_none());
}

#[test]
fn content_type_from_extension() {
    let r = plan_stream("/music/a/song.mp3", None, 3).ok().unwrap();
    assert_eq!(r.content_type, "audio/mpeg");
    let r = plan_stream("/music/a/song.flac", None, 3).ok().unwrap();
    assert_ne!(r.content_type, "/music/a/song.flac");
    let r = plan_stream("/music/noext", None, 3).ok().unwrap();
    assert_eq!(r.content_type, "application/octet-stream");
}

#[test]
fn range_round_trip() {
    for (s, e) in [(0u64, Some(0u64)), (5, Some(99)), (123456789, None), (u64::MAX, Some(u64::MAX))] {
        let header = match e {
            Some(e) => format!("bytes={s}-{e}"),
            None => format!("bytes={s}-"),
        };
        assert_eq!(parse_range(&header), Some((s, e)));
    }
}
