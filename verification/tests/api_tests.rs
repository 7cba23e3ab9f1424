use muserv::auth::bearer_authorized;
use muserv::error::ApiError;
use muserv::scans::{ScanState, ScanStates, ScanStatsView};
use muserv::scanner::ScanStats;
use muserv::tags::{added_tag, require_track_found, tag_removal_status, validate_new_tag, NewTag};

#[test]
fn error_constructors() {
    let e = ApiError::not_found("track");
    assert_eq!((e.status, e.message.as_str()), (404, "track not found"));
    let e = ApiError::bad_request("nope".to_string());
    assert_eq!((e.status, e.message.as_str()), (400, "nope"));
    assert_eq!(ApiError::database_error().message, "database error");
    assert_eq!(ApiError::io_error().status, 500);
}

#[test]
fn new_tags() {
    let t = validate_new_tag(&NewTag { namespace: " mood ".into(), value: " calm ".into() }).ok().unwrap();
    assert_eq!((t.namespace.as_str(), t.value.as_str()), ("mood", "calm"));
    let e = validate_new_tag(&NewTag { namespace: "mood".into(), value: "  ".into() }).err().unwrap();
    assert_eq!((e.status, e.message.as_str()), (400, "value must be non-empty"));
    let a = added_tag(9, t);
    assert_eq!((a.tag_id, a.namespace.as_str(), a.value.as_str()), (9, "mood", "calm"));
}

#[test]
fn removal_and_presence() {
    assert_eq!(tag_removal_status(1).ok(), Some(204));
    let e = tag_removal_status(0).err().unwrap();
    assert_eq!((e.status, e.message.as_str()), (404, "tag on track not found"));
    assert!(require_track_found(Some(3)).is_ok());
    assert_eq!(require_track_found(None).err().unwrap().message, "track not found");
}

#[test]
fn scan_state_cycle() {
    let mut st = ScanStates::new();
    let idle = st.status(7);
    assert!(!idle.running && idle.started_at.is_none());
    let s = st.begin(7, 100).ok().unwrap();
    assert!(s.running);
    assert_eq!(s.started_at, Some(100));
    let e = st.begin(7, 101).err().unwrap();
    assert_eq!((e.status, e.message.as_str()), (409, "scan already running"));
    assert!(st.status(8).running == false);
    let mut stats = ScanStats::default();
    stats.seen = 4;
    st.finish(7, 150, Ok(ScanStatsView::from_stats(&stats)));
    let s = st.status(7);
    assert!(!s.running);
    assert_eq!(s.finished_at, Some(150));
    assert_eq!(s.last_stats.unwrap().seen, 4);
    let s = st.begin(7, 200).ok().unwrap();
    assert!(s.finished_at.is_none() && s.last_stats.is_some());
    st.finish(7, 210, Err("walk failed".into()));
    let s = st.status(7);
    assert_eq!(s.last_error.as_deref(), Some("walk failed"));
    assert_eq!(s.last_stats.unwrap().seen, 4);
}

#[test]
fn default_scan_state() {
    let s = ScanState::default();
    assert!(!s.running && s.last_error.is_none());

}

#[test]
fn only_one_scan_at_a_time() {
    let mut st = ScanStates::new();
    let results: Vec<bool> = (0..5).map(|t| st.begin(3, 1000 + t).is_ok()).collect();
    assert_eq!(results, vec![true, false, false, false, false]);
    let s = st.status(3);
    assert!(s.running);
    assert_eq!(s.started_at, Some(1000));
    assert!(!st.status(4).running);
}

#[test]
fn bearer_tokens() {
    assert!(bearer_authorized(None, None));
    assert!(bearer_authorized(None, Some("junk")));
    assert!(bearer_authorized(Some("s3"), Some("Bearer s3")));
    assert!(!bearer_authorized(Some("s3"), Some("Bearer s4")));
    assert!(!bearer_authorized(Some("s3"), Some("bearer s3")));
    assert!(!bearer_authorized(Some("s3"), None));
}
