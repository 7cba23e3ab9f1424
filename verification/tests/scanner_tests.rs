use muserv::scanner::{
    decide_scan, import_result, is_audio_file_name, scan_summary, FileStamp,
    ScanDecision, ScanProgress, ScanResult, ScanStats,
};

#[test]
fn audio_names() {
    for n in ["a.mp3", "b.FLAC", "c.Opus", "x.y.m4b", "d.wav", "e.MKA"] {
        assert!(is_audio_file_name(n), "{n}");
    }
    for n in [".mp3", "mp3", "a.mp3.txt", "a.", "..", ".", "cover.jpg", "a.mp33", ""] {
        assert!(!is_audio_file_name(n), "{n}");
    }
}

#[test]
fn audio_names_case_insensitive() {
    for n in ["Song.MP3", "song.mp3", "X.AiFf", "readme.TXT"] {
        assert_eq!(is_audio_file_name(n), is_audio_file_name(&n.to_ascii_lowercase()));
    }
}

#[test]
fn progress_counts() {
    let mut p = ScanProgress::new();
    assert!(!p.on_entry(false, "dir.mp3", "/m/dir.mp3".into()));
    assert!(!p.on_entry(true, "cover.jpg", "/m/cover.jpg".into()));
    assert!(p.on_entry(true, "a.mp3", "/m/a.mp3".into()));
    p.on_imported(Ok(ScanResult::Inserted));
    assert!(p.on_entry(true, "b.ogg", "/m/b.ogg".into()));
    p.on_imported(Ok(ScanResult::Updated));
    assert!(p.on_entry(true, "c.flac", "/m/c.flac".into()));
    p.on_imported(Ok(ScanResult::Unchanged));
    assert!(p.on_entry(true, "d.wav", "/m/d.wav".into()));
    p.on_imported(Err("probe failed".into()));
    assert!(!p.awaiting_import());
    p.on_walk_error();
    assert_eq!(p.walk_errors, 1);
    for path in ["/m/a.mp3", "/m/b.ogg", "/m/c.flac", "/m/d.wav"] {
        assert!(p.has_seen(path));
    }
    assert!(!p.has_seen("/m/cover.jpg"));
    assert!(!p.has_seen("/m/dir.mp3"));
    let gone = p.rows_to_remove(vec![(1, "/m/a.mp3".to_string()), (2, "/m/old.mp3".to_string())]);
    assert_eq!(gone, vec![(2, "/m/old.mp3".to_string())]);
    let s = p.finish(2);
    assert_eq!((s.seen, s.inserted, s.updated, s.unchanged, s.removed, s.failed), (4, 1, 1, 1, 2, 2));
    assert_eq!(s.failures.len(), 1);
    assert_eq!(s.inserted + s.updated + s.unchanged + s.failures.len() as u64, s.seen);
    assert_eq!(s.failures[0].path, "/m/d.wav");
    assert_eq!(s.failures[0].reason, "probe failed");
}

#[test]
fn decisions() {
    let st = FileStamp::new(100, 5);
    assert!(matches!(decide_scan(None, &st), ScanDecision::Import { existed: false }));
    assert!(matches!(decide_scan(Some((1, 5, 100)), &st), ScanDecision::Unchanged));
    assert!(matches!(decide_scan(Some((1, 6, 100)), &st), ScanDecision::Import { existed: true }));
    assert!(matches!(decide_scan(Some((1, 5, 99)), &st), ScanDecision::Import { existed: true }));
    assert!(matches!(import_result(true), ScanResult::Updated));
    assert!(matches!(import_result(false), ScanResult::Inserted));
}

#[test]
fn stamp_wraps_like_a_cast() {
    let st = FileStamp::new(u64::MAX, 1);
    assert_eq!(st.file_size, -1);
    assert_eq!(st.mtime, 1);
}

#[test]
fn removal_keeps_seen_rows() {
    let mut p = ScanProgress::new();
    assert!(p.on_entry(true, "b.mp3", "/b.mp3".into()));
    assert!(p.awaiting_import());
    p.on_imported(Ok(ScanResult::Unchanged));
    let rows = vec![(1, "/a.mp3".to_string()), (2, "/b.mp3".to_string()), (3, "/c.mp3".to_string())];
    let gone = p.rows_to_remove(rows);
    assert_eq!(gone, vec![(1, "/a.mp3".to_string()), (3, "/c.mp3".to_string())]);
    assert!(p.rows_to_remove(vec![(1, "/b.mp3".to_string())]).is_empty());
}

#[test]
fn summary_lines() {
    let mut s = ScanStats::default();
    s.seen = 3;
    s.inserted = 1;
    s.updated = 1;
    s.failed = 1;
    let lines = scan_summary(&s);
    assert_eq!(lines, vec!["scan: seen=3 inserted=1 updated=1 unchanged=0 removed=0 failed=1"]);
    s.failures.push(muserv::scanner::ScanFailure { path: "/m/x.mp3".into(), reason: "bad".into() });
    let lines = scan_summary(&s);
    assert_eq!(lines[1], "");
    assert_eq!(lines[2], "1 file skipped (not imported):");
    assert_eq!(lines[3], "  /m/x.mp3: bad");
    s.failures.push(muserv::scanner::ScanFailure { path: "/m/y.mp3".into(), reason: "worse".into() });
    let lines = scan_summary(&s);
    assert_eq!(lines.len(), 5);
    assert_eq!(lines[2], "2 files skipped (not imported):");
}
