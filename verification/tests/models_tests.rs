use kiwi_downloader::db::CachedFile;
use kiwi_downloader::models::{DownloadKind, MediaKind, VideoQuality};

#[test]
fn download_kind_names() {
    assert_eq!(DownloadKind::Audio.as_str(), "audio");
    assert_eq!(DownloadKind::Video.as_str(), "video");
}

#[test]
fn media_kind_names_round_trip() {
    for kind in [MediaKind::Audio, MediaKind::Video, MediaKind::Photo, MediaKind::Document] {
        assert_eq!(MediaKind::from_str(kind.as_str()), kind);
    }
    assert_eq!(MediaKind::Document.as_str(), "document");
}

#[test]
fn media_kind_unknown_name_is_document() {
    assert_eq!(MediaKind::from_str("sticker"), MediaKind::Document);
    assert_eq!(MediaKind::from_str("Audio"), MediaKind::Document);
    assert_eq!(MediaKind::from_str(""), MediaKind::Document);
}

#[test]
fn media_kind_from_extension_groups() {
    for ext in ["mp3", "m4a", "aac", "opus", "ogg"] {
        assert_eq!(MediaKind::from_extension(ext), MediaKind::Audio);
    }
    for ext in ["mp4", "m4v", "mov", "webm", "mkv"] {
        assert_eq!(MediaKind::from_extension(ext), MediaKind::Video);
    }
    for ext in ["jpg", "jpeg", "png", "webp"] {
        assert_eq!(MediaKind::from_extension(ext), MediaKind::Photo);
    }
    assert_eq!(MediaKind::from_extension("pdf"), MediaKind::Document);
    assert_eq!(MediaKind::from_extension(""), MediaKind::Document);
}

#[test]
fn media_kind_from_extension_ignores_case() {
    assert_eq!(MediaKind::from_extension("MP4"), MediaKind::Video);
    assert_eq!(MediaKind::from_extension("JpEg"), MediaKind::Photo);
    assert_eq!(MediaKind::from_extension("OPUS"), MediaKind::Audio);
}

#[test]
fn quality_cache_keys() {
    assert_eq!(VideoQuality::Best.cache_key(), "best");
    assert_eq!(VideoQuality::Height(720).cache_key(), "720p");
    assert_eq!(VideoQuality::Height(0).cache_key(), "0p");
    assert_eq!(VideoQuality::Height(4294967295).cache_key(), "4294967295p");
}

#[test]
fn quality_labels_match_display() {
    assert_eq!(VideoQuality::Best.label(), "best");
    assert_eq!(VideoQuality::Height(1080).label(), "1080p");
}

#[test]
fn quality_callback_values() {
    assert_eq!(VideoQuality::Best.callback_value(), "best");
    assert_eq!(VideoQuality::Height(360).callback_value(), "360");
}

#[test]
fn quality_from_callback_reads_values() {
    assert_eq!(VideoQuality::from_callback("best"), Some(VideoQuality::Best));
    assert_eq!(VideoQuality::from_callback("480"), Some(VideoQuality::Height(480)));
    assert_eq!(VideoQuality::from_callback("+480"), Some(VideoQuality::Height(480)));
    assert_eq!(VideoQuality::from_callback("007"), Some(VideoQuality::Height(7)));
    assert_eq!(VideoQuality::from_callback("4294967295"), Some(VideoQuality::Height(4294967295)));
}

#[test]
fn quality_from_callback_refuses_others() {
    assert_eq!(VideoQuality::from_callback("4294967296"), None);
    assert_eq!(VideoQuality::from_callback("-1"), None);
    assert_eq!(VideoQuality::from_callback(""), None);
    assert_eq!(VideoQuality::from_callback("+"), None);
    assert_eq!(VideoQuality::from_callback("720p"), None);
    assert_eq!(VideoQuality::from_callback("Best"), None);
}

#[test]
fn quality_callback_round_trip() {
    for q in [VideoQuality::Best, VideoQuality::Height(1), VideoQuality::Height(2160), VideoQuality::Height(u32::MAX)] {
        assert_eq!(VideoQuality::from_callback(&q.callback_value()), Some(q));
    }
}

#[test]
fn quality_format_selectors() {
    assert_eq!(VideoQuality::Best.format_selector(), "bv*[ext=mp4]+ba[ext=m4a]/b[ext=mp4]/best");
    assert_eq!(
        VideoQuality::Height(720).format_selector(),
        "bv*[height<=720][ext=mp4]+ba[ext=m4a]/b[height<=720][ext=mp4]/best[height<=720]/best"
    );
}

#[test]
fn cached_file_kind_reads_file_type() {
    let file = CachedFile {
        url: "https://youtu.be/x".to_string(),
        media_kind: "video".to_string(),
        quality: "720p".to_string(),
        item_index: 0,
        file_type: "photo".to_string(),
        file_id: "AgAD".to_string(),
        file_unique_id: None,
    };
    assert_eq!(file.kind(), MediaKind::Photo);
    let other = CachedFile { file_type: "gif".to_string(), ..file };
    assert_eq!(other.kind(), MediaKind::Document);
}
