use kiwi_downloader::handlers::{
    classify_message, decide_format, decide_quality, extract_url, format_keyboard, parse_format_callback, pending_job,
    parse_quality_callback, quality_keyboard, quality_list, route_callback, CallbackAction, FormatDecision,
    MessageAction, QualityDecision,
};
use kiwi_downloader::jobs::PendingJob;
use kiwi_downloader::media::MediaInfo;
use kiwi_downloader::models::{DownloadKind, VideoQuality};
use kiwi_downloader::source::Source;

fn job(source: Source, entries: usize, has_audio: bool) -> PendingJob {
    PendingJob {
        url: "https://x/y".to_string(),
        info: MediaInfo {
            source,
            webpage_url: "https://x/y".to_string(),
            title: Some("Title".to_string()),
            uploader: Some("Up".to_string()),
            duration_seconds: Some(3),
            qualities: vec![VideoQuality::Height(720), VideoQuality::Height(360)],
            entries_count: entries,
            has_audio,
        },
        language_code: "de".to_string(),
        user_id: 42,
    }
}

#[test]
fn extract_url_finds_first_link() {
    assert_eq!(extract_url("look https://youtu.be/a and http://b"), Some("https://youtu.be/a".to_string()));
    assert_eq!(extract_url("(https://youtu.be/a),"), None);
    assert_eq!(extract_url("see https://youtu.be/a),"), Some("https://youtu.be/a".to_string()));
    assert_eq!(extract_url("http://x.com/p]};{ more"), Some("http://x.com/p".to_string()));
    assert_eq!(extract_url("no link here"), None);
    assert_eq!(extract_url(""), None);
    assert_eq!(extract_url("ftp://x https:"), None);
    assert_eq!(extract_url("\u{3000}https://a.b\u{00a0}rest"), Some("https://a.b".to_string()));
    assert_eq!(extract_url("xhttps://a https://b"), Some("https://b".to_string()));
}

#[test]
fn messages_are_classified() {
    assert!(matches!(classify_message(None), MessageAction::NotALink));
    assert!(matches!(classify_message(Some("/start")), MessageAction::Welcome));
    assert!(matches!(classify_message(Some("/start@bot https://youtu.be/a")), MessageAction::Welcome));
    assert!(matches!(classify_message(Some("/language")), MessageAction::LanguageMenu));
    assert!(matches!(classify_message(Some("/lang")), MessageAction::LanguageMenu));
    assert!(matches!(classify_message(Some("hello")), MessageAction::NotALink));
    assert!(matches!(classify_message(Some("see https://example.com/v")), MessageAction::Unsupported));
    match classify_message(Some("watch https://youtu.be/abc!")) {
        MessageAction::Analyze(u) => assert_eq!(u, "https://youtu.be/abc!"),
        _ => panic!("expected a link"),
    }
}

#[test]
fn format_callbacks_parse() {
    assert_eq!(parse_format_callback("format:tok:audio"), Some(("tok".to_string(), DownloadKind::Audio)));
    assert_eq!(parse_format_callback("format:tok:video"), Some(("tok".to_string(), DownloadKind::Video)));
    assert_eq!(parse_format_callback("format::video"), Some((String::new(), DownloadKind::Video)));
    assert_eq!(parse_format_callback("format:tok:gif"), None);
    assert_eq!(parse_format_callback("format:tok:audio:x"), None);
    assert_eq!(parse_format_callback("quality:tok:audio"), None);
}

#[test]
fn quality_callbacks_parse() {
    assert_eq!(parse_quality_callback("quality:t:720"), Some(("t".to_string(), VideoQuality::Height(720))));
    assert_eq!(parse_quality_callback("quality:t:best"), Some(("t".to_string(), VideoQuality::Best)));
    assert_eq!(parse_quality_callback("quality:t:720p"), None);
    assert_eq!(parse_quality_callback("quality:t"), None);
}

#[test]
fn callbacks_are_routed() {
    assert!(matches!(route_callback(None, true), CallbackAction::Nothing));
    match route_callback(Some("lang:de"), false) {
        CallbackAction::Language(c) => assert_eq!(c, "de"),
        _ => panic!("expected a language"),
    }
    assert!(matches!(route_callback(Some("format:t:audio"), false), CallbackAction::Nothing));
    match route_callback(Some("format:t:audio"), true) {
        CallbackAction::Format(t, k) => {
            assert_eq!(t, "t");
            assert_eq!(k, DownloadKind::Audio);
        }
        _ => panic!("expected a format"),
    }
    match route_callback(Some("quality:t:1080"), true) {
        CallbackAction::Quality(t, q) => {
            assert_eq!(t, "t");
            assert_eq!(q, VideoQuality::Height(1080));
        }
        _ => panic!("expected a quality"),
    }
    assert!(matches!(route_callback(Some("other"), true), CallbackAction::Nothing));
}

#[test]
fn keyboard_buttons_route_back() {
    let rows = quality_keyboard("abc", &[VideoQuality::Best, VideoQuality::Height(720)]);
    for b in rows.iter().flatten() {
        assert!(matches!(route_callback(Some(&b.data), true), CallbackAction::Quality(_, _)));
    }
    let rows = format_keyboard("abc", "Video".to_string(), "Audio".to_string());
    assert_eq!(rows.len(), 1);
    assert_eq!(rows[0][0].text, "Video");
    assert_eq!(rows[0][0].data, "format:abc:video");
    assert_eq!(rows[0][1].data, "format:abc:audio");
}

#[test]
fn quality_keyboard_rows_of_three() {
    let qs: Vec<VideoQuality> = [2160, 1440, 1080, 720, 480, 360, 240].into_iter().map(VideoQuality::Height).collect();
    let rows = quality_keyboard("t", &qs);
    let sizes: Vec<usize> = rows.iter().map(|r| r.len()).collect();
    assert_eq!(sizes, vec![3, 3, 1]);
    assert_eq!(rows[0][0].text, "2160p");
    assert_eq!(rows[0][0].data, "quality:t:2160");
    assert_eq!(rows[2][0].data, "quality:t:240");
    assert!(quality_keyboard("t", &[]).is_empty());
}

#[test]
fn quality_list_joins_labels() {
    assert_eq!(quality_list(&[VideoQuality::Height(720), VideoQuality::Height(360)]), "720p, 360p");
    assert_eq!(quality_list(&[VideoQuality::Best]), "best");
    assert_eq!(quality_list(&[]), "");
}

#[test]
fn format_decisions() {
    let j = job(Source::YouTube, 0, true);
    assert!(matches!(decide_format(None, 42, DownloadKind::Audio), FormatDecision::Expired));
    assert!(matches!(decide_format(Some(&j), 7, DownloadKind::Audio), FormatDecision::NotYourRequest));
    assert!(matches!(decide_format(Some(&j), 42, DownloadKind::Video), FormatDecision::ChooseQuality));
    let silent = job(Source::YouTube, 0, false);
    assert!(matches!(decide_format(Some(&silent), 42, DownloadKind::Audio), FormatDecision::AudioNotAvailable));
    match decide_format(Some(&j), 42, DownloadKind::Audio) {
        FormatDecision::Download(p) => {
            assert_eq!(p.url, "https://x/y");
            assert_eq!(p.kind, DownloadKind::Audio);
            assert_eq!(p.quality_key, "mp3");
            assert_eq!(p.quality, None);
            assert_eq!(p.language_code, "de");
            assert!(!p.carousel);
            assert_eq!(p.expected_cache_items, 1);
            assert_eq!(p.title, Some("Title".to_string()));
            assert_eq!(p.performer, Some("Up".to_string()));
            assert!(p.cache_is_complete(1));
            assert!(!p.cache_is_complete(0));
        }
        _ => panic!("expected a download"),
    }
}

#[test]
fn quality_decisions() {
    assert!(matches!(decide_quality(None, 42, VideoQuality::Best), QualityDecision::Expired));
    assert!(matches!(
        decide_quality(Some(job(Source::YouTube, 0, true)), 1, VideoQuality::Best),
        QualityDecision::NotYourRequest
    ));
    match decide_quality(Some(job(Source::Instagram, 5, true)), 42, VideoQuality::Height(720)) {
        QualityDecision::Download(p) => {
            assert_eq!(p.kind, DownloadKind::Video);
            assert_eq!(p.quality_key, "720p");
            assert_eq!(p.quality, Some(VideoQuality::Height(720)));
            assert!(p.carousel);
            assert_eq!(p.expected_cache_items, 5);
            assert!(!p.cache_is_complete(4));
            assert!(p.cache_is_complete(5));
        }
        _ => panic!("expected a download"),
    }
    match decide_quality(Some(job(Source::Instagram, 1, true)), 42, VideoQuality::Best) {
        QualityDecision::Download(p) => {
            assert!(!p.carousel);
            assert_eq!(p.expected_cache_items, 1);
            assert_eq!(p.quality_key, "best");
        }
        _ => panic!("expected a download"),
    }
}

#[test]
fn pending_job_needs_a_sender() {
    let info = job(Source::YouTube, 0, true).info;
    assert!(pending_job("u".to_string(), info.clone(), "en".to_string(), None).is_none());
    let j = pending_job("u".to_string(), info, "de".to_string(), Some(42)).unwrap();
    assert_eq!(j.url, "u");
    assert_eq!(j.language_code, "de");
    assert_eq!(j.user_id, 42);
}
