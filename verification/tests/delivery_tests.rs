use kiwi_downloader::delivery::{
    cache_records, pick_sent_file, plan_cached_sends, plan_downloaded_sends, progress_bar,
    send_method_for_download, supports_media_group, FileRef, ProgressThrottle, SendMethod, SendStep, SentFile,
};
use kiwi_downloader::models::{DownloadKind, MediaKind};

fn fr(id: &str, uid: &str) -> FileRef {
    FileRef { id: id.to_string(), unique_id: uid.to_string() }
}

#[test]
fn media_group_kinds() {
    assert!(supports_media_group(MediaKind::Photo));
    assert!(supports_media_group(MediaKind::Video));
    assert!(!supports_media_group(MediaKind::Audio));
    assert!(!supports_media_group(MediaKind::Document));
}

#[test]
fn cached_plans() {
    assert_eq!(plan_cached_sends(&[MediaKind::Audio]), vec![SendStep::Single(0)]);
    assert_eq!(
        plan_cached_sends(&[MediaKind::Photo, MediaKind::Document]),
        vec![SendStep::Single(0), SendStep::Single(1)]
    );
    assert_eq!(plan_cached_sends(&[MediaKind::Photo, MediaKind::Video]), vec![SendStep::Group(0, 2)]);
    assert_eq!(plan_cached_sends(&[]), vec![]);
    let eleven = vec![MediaKind::Photo; 11];
    assert_eq!(plan_cached_sends(&eleven), vec![SendStep::Group(0, 10), SendStep::Single(10)]);
    let twenty_three = vec![MediaKind::Video; 23];
    assert_eq!(
        plan_cached_sends(&twenty_three),
        vec![SendStep::Group(0, 10), SendStep::Group(10, 20), SendStep::Group(20, 23)]
    );
}

#[test]
fn downloaded_plans() {
    assert_eq!(
        plan_downloaded_sends(&[MediaKind::Video, MediaKind::Video], DownloadKind::Audio),
        vec![SendStep::Single(0), SendStep::Single(1)]
    );
    assert_eq!(plan_downloaded_sends(&[MediaKind::Video], DownloadKind::Video), vec![SendStep::Single(0)]);
    assert_eq!(
        plan_downloaded_sends(&[MediaKind::Photo, MediaKind::Photo, MediaKind::Video], DownloadKind::Video),
        vec![SendStep::Group(0, 3)]
    );
    assert_eq!(
        plan_downloaded_sends(&[MediaKind::Photo, MediaKind::Audio], DownloadKind::Video),
        vec![SendStep::Single(0), SendStep::Single(1)]
    );
}

#[test]
fn send_methods() {
    assert_eq!(send_method_for_download(DownloadKind::Audio, MediaKind::Video), SendMethod::Audio);
    assert_eq!(send_method_for_download(DownloadKind::Video, MediaKind::Photo), SendMethod::Photo);
    assert_eq!(send_method_for_download(DownloadKind::Video, MediaKind::Video), SendMethod::Video);
    assert_eq!(send_method_for_download(DownloadKind::Video, MediaKind::Audio), SendMethod::Document);
}

#[test]
fn sent_file_is_picked_by_priority() {
    let a = pick_sent_file(Some(fr("a", "ua")), Some(fr("v", "uv")), None, None).unwrap();
    assert_eq!((a.kind, a.file_id.as_str(), a.file_unique_id.as_deref()), (MediaKind::Audio, "a", Some("ua")));
    let v = pick_sent_file(None, Some(fr("v", "uv")), Some(vec![fr("p", "up")]), None).unwrap();
    assert_eq!(v.kind, MediaKind::Video);
    let p = pick_sent_file(None, None, Some(vec![fr("small", "1"), fr("large", "2")]), Some(fr("d", "ud"))).unwrap();
    assert_eq!((p.kind, p.file_id.as_str()), (MediaKind::Photo, "large"));
    assert!(pick_sent_file(None, None, Some(vec![]), Some(fr("d", "ud"))).is_none());
    let d = pick_sent_file(None, None, None, Some(fr("d", "ud"))).unwrap();
    assert_eq!(d.kind, MediaKind::Document);
    assert!(pick_sent_file(None, None, None, None).is_none());
}

#[test]
fn cache_records_follow_sent_messages() {
    let sent = vec![
        Some(SentFile { kind: MediaKind::Photo, file_id: "f0".to_string(), file_unique_id: Some("u0".to_string()) }),
        None,
        Some(SentFile { kind: MediaKind::Video, file_id: "f2".to_string(), file_unique_id: None }),
        Some(SentFile { kind: MediaKind::Audio, file_id: "f3".to_string(), file_unique_id: None }),
    ];
    let records = cache_records(&[5, 6, 7], sent);
    let got: Vec<(i64, MediaKind, String)> =
        records.iter().map(|r| (r.item_index, r.file_type, r.file_id.clone())).collect();
    assert_eq!(
        got,
        vec![(5, MediaKind::Photo, "f0".to_string()), (7, MediaKind::Video, "f2".to_string()), (3, MediaKind::Audio, "f3".to_string())]
    );
    assert_eq!(records[0].file_unique_id, Some("u0".to_string()));
}

#[test]
fn progress_bars() {
    assert_eq!(progress_bar(0), "[------------]");
    assert_eq!(progress_bar(50), "[######------]");
    assert_eq!(progress_bar(100), "[############]");
    assert_eq!(progress_bar(9), "[#-----------]");
    assert_eq!(progress_bar(8), "[------------]");
}

#[test]
fn progress_is_throttled() {
    let mut t = ProgressThrottle::new(10_000);
    assert!(t.should_report(0, 10_000));
    assert!(!t.should_report(5, 10_500));
    assert!(t.should_report(6, 10_900));
    assert!(!t.should_report(6, 12_000));
    assert!(t.should_report(6, 12_900));
    assert!(t.should_report(100, 12_901));
    assert!(!t.should_report(100, 12_902));
}

#[test]
fn first_progress_shown_at_once() {
    let mut t = ProgressThrottle::new(0);
    assert!(t.should_report(1, 0));
}
