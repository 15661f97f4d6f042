use std::collections::BTreeSet;

use kiwi_downloader::media::{
    codec_present, collect_formats, media_info_from_raw, qualities_from_heights, MediaInfo, YtDlpFormat,
    YtDlpInfo,
};
use kiwi_downloader::models::VideoQuality;
use kiwi_downloader::source::Source;

fn fmt(height: Option<u32>, vcodec: Option<&str>, acodec: Option<&str>) -> YtDlpFormat {
    YtDlpFormat {
        height,
        vcodec: vcodec.map(|s| s.to_string()),
        acodec: acodec.map(|s| s.to_string()),
    }
}

fn info(formats: Vec<YtDlpFormat>, entries: Vec<Option<YtDlpInfo>>) -> YtDlpInfo {
    YtDlpInfo {
        id: Some("abc".to_string()),
        title: None,
        uploader: Some("someone".to_string()),
        duration_seconds: Some(61),
        height: None,
        vcodec: None,
        acodec: None,
        webpage_url: None,
        original_url: None,
        formats,
        entries,
    }
}

#[test]
fn codec_presence() {
    assert!(codec_present(&Some("avc1".to_string())));
    assert!(!codec_present(&Some("none".to_string())));
    assert!(!codec_present(&Some("NoNe".to_string())));
    assert!(!codec_present(&None));
    assert!(fmt(None, Some("vp9"), Some("none")).has_video());
    assert!(!fmt(None, Some("vp9"), Some("none")).has_audio());
    assert!(fmt(None, None, Some("opus")).has_audio());
}

#[test]
fn top_eight_heights_greatest_first() {
    let heights: BTreeSet<u32> = [144, 240, 360, 480, 720, 1080, 1440, 2160, 4320, 90].into_iter().collect();
    let qs = qualities_from_heights(&heights);
    let expected: Vec<VideoQuality> =
        [4320, 2160, 1440, 1080, 720, 480, 360, 240].into_iter().map(VideoQuality::Height).collect();
    assert_eq!(qs, expected);
}

#[test]
fn no_heights_offers_best() {
    let qs = qualities_from_heights(&BTreeSet::new());
    assert_eq!(qs, vec![VideoQuality::Best]);
}

#[test]
fn formats_without_video_or_height_are_skipped() {
    let raw = info(
        vec![
            fmt(Some(720), Some("avc1"), Some("mp4a")),
            fmt(Some(1080), Some("none"), None),
            fmt(Some(0), Some("avc1"), None),
            fmt(None, Some("avc1"), None),
            fmt(Some(720), Some("vp9"), None),
            fmt(Some(360), Some("vp9"), None),
        ],
        vec![],
    );
    let mut heights = BTreeSet::new();
    let mut has_audio = false;
    collect_formats(&raw, &mut heights, &mut has_audio);
    assert_eq!(heights.into_iter().collect::<Vec<_>>(), vec![360, 720]);
    assert!(has_audio);
}

#[test]
fn entries_contribute_recursively() {
    let mut inner = info(vec![fmt(Some(1920), Some("h264"), Some("aac"))], vec![]);
    inner.height = Some(640);
    inner.vcodec = Some("h264".to_string());
    let raw = info(vec![], vec![Some(inner), None, Some(info(vec![], vec![]))]);
    let m = media_info_from_raw("https://www.instagram.com/p/x/", Source::Instagram, raw);
    assert_eq!(m.qualities, vec![VideoQuality::Height(1920), VideoQuality::Height(640)]);
    assert!(m.has_audio);
    assert_eq!(m.entries_count, 2);
    assert!(m.is_carousel());
}

#[test]
fn summary_fields() {
    let mut raw = info(vec![fmt(Some(480), Some("avc1"), Some("none"))], vec![]);
    raw.original_url = Some("https://youtu.be/orig".to_string());
    let m = media_info_from_raw("https://youtu.be/given", Source::YouTube, raw);
    assert_eq!(m.source, Source::YouTube);
    assert_eq!(m.webpage_url, "https://youtu.be/orig");
    assert_eq!(m.title, Some("abc".to_string()));
    assert_eq!(m.uploader, Some("someone".to_string()));
    assert_eq!(m.duration_seconds, Some(61));
    assert!(!m.has_audio);
    assert_eq!(m.entries_count, 0);
    assert!(!m.is_carousel());
    assert_eq!(m.title_or_url(), "abc");
}

#[test]
fn page_url_falls_back_to_input() {
    let mut raw = info(vec![], vec![]);
    raw.id = None;
    raw.webpage_url = Some("https://page".to_string());
    raw.original_url = Some("https://orig".to_string());
    let m = media_info_from_raw("https://given", Source::TikTok, raw);
    assert_eq!(m.webpage_url, "https://page");
    assert_eq!(m.title, None);
    assert_eq!(m.title_or_url(), "https://page");
    let m2 = media_info_from_raw("https://given", Source::TikTok, info(vec![], vec![]));
    assert_eq!(m2.webpage_url, "https://given");
    assert_eq!(m2.qualities, vec![VideoQuality::Best]);
}

#[test]
fn carousel_needs_instagram_and_two_entries() {
    let base = MediaInfo {
        source: Source::Instagram,
        webpage_url: String::new(),
        title: Some("t".to_string()),
        uploader: None,
        duration_seconds: None,
        qualities: vec![VideoQuality::Best],
        entries_count: 1,
        has_audio: false,
    };
    assert!(!base.is_carousel());
    let two = MediaInfo { entries_count: 2, ..base.clone() };
    assert!(two.is_carousel());
    let tiktok = MediaInfo { source: Source::TikTok, ..two };
    assert!(!tiktok.is_carousel());
}
