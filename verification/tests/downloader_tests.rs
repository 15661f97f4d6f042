use kiwi_downloader::downloader::{
    after_probe_attempt, collect_downloaded_files, download_failure_message, downloaded_set, spotify_title,
    ProbeStep, SpotifyError, PROBE_RETRY_DELAY_MS, keeps_downloaded_file, percent_line_accepted,
    percent_text, probe_failure_message, probe_request, spotify_probe, spotify_search, DownloadError,
    DownloadedFile, DownloadedSet, YtDlp, PROBE_ATTEMPTS,
};
use kiwi_downloader::models::{MediaKind, VideoQuality};
use kiwi_downloader::source::{Source, SourceError};

fn s(v: &[&str]) -> Vec<String> {
    v.iter().map(|x| x.to_string()).collect()
}

#[test]
fn new_keeps_settings() {
    let y = YtDlp::new("yt-dlp".to_string(), "downloads".to_string(), Some("c.txt".to_string()));
    assert_eq!(y.bin, "yt-dlp");
    assert_eq!(y.download_root, "downloads");
    assert_eq!(y.cookies, Some("c.txt".to_string()));
}

#[test]
fn probe_arguments() {
    let y = YtDlp::new("yt-dlp".to_string(), "d".to_string(), None);
    assert_eq!(
        y.probe_args(Source::YouTube, "https://youtu.be/a"),
        s(&["--dump-single-json", "--no-warnings", "--skip-download", "--extractor-args",
            "youtube:player_client=ios", "--no-playlist", "https://youtu.be/a"])
    );
    let c = YtDlp::new("yt-dlp".to_string(), "d".to_string(), Some("cookies.txt".to_string()));
    assert_eq!(
        c.probe_args(Source::Instagram, "u"),
        s(&["--dump-single-json", "--no-warnings", "--skip-download", "--extractor-args",
            "youtube:player_client=ios", "--cookies", "cookies.txt", "u"])
    );
}

#[test]
fn audio_arguments() {
    let y = YtDlp::new("yt-dlp".to_string(), "d".to_string(), None);
    let base = s(&["--no-warnings", "--no-colors", "--newline", "--progress", "--progress-template",
        "download:%(progress._percent_str)s", "--restrict-filenames", "-o", "T",
        "--extractor-args", "youtube:player_client=ios"]);
    assert_eq!(y.base_download_args("T"), base);
    let mut yt = base.clone();
    yt.extend(s(&["--extract-audio", "--audio-format", "mp3", "--audio-quality", "0", "--no-playlist", "U"]));
    assert_eq!(y.audio_args("T", Source::YouTube, "U"), yt);
    let mut sp = base.clone();
    sp.extend(s(&["--extract-audio", "--audio-format", "mp3", "--audio-quality", "0", "U"]));
    assert_eq!(y.audio_args("T", Source::Spotify, "U"), sp);
    assert_eq!(y.audio_args("T", Source::Instagram, "U"), sp);
}

#[test]
fn video_arguments() {
    let y = YtDlp::new("yt-dlp".to_string(), "d".to_string(), Some("k".to_string()));
    let base = y.base_download_args("T");
    assert_eq!(&base[base.len() - 2..], &s(&["--cookies", "k"])[..]);
    let mut carousel = base.clone();
    carousel.extend(s(&["--merge-output-format", "mp4", "U"]));
    assert_eq!(y.video_args("T", Source::Instagram, VideoQuality::Best, true, "U"), carousel);
    let mut pin = base.clone();
    pin.extend(s(&["--merge-output-format", "mp4", "--no-playlist", "U"]));
    assert_eq!(y.video_args("T", Source::Pinterest, VideoQuality::Height(720), false, "U"), pin);
    let mut yt = base.clone();
    yt.push("--format".to_string());
    yt.push(VideoQuality::Height(720).format_selector());
    yt.extend(s(&["--merge-output-format", "mp4", "--no-playlist", "U"]));
    assert_eq!(y.video_args("T", Source::YouTube, VideoQuality::Height(720), false, "U"), yt);
}

#[test]
fn spotify_search_text() {
    assert_eq!(spotify_search("Song - Artist"), "ytsearch1:Song - Artist");
    assert_eq!(spotify_probe("x"), (Source::YouTube, "ytsearch1:x".to_string()));
}

#[test]
fn probe_request_trims_link() {
    assert_eq!(
        probe_request("  https://youtu.be/a \n"),
        Ok((Source::YouTube, "https://youtu.be/a".to_string()))
    );
    assert_eq!(probe_request("https://example.com"), Err(SourceError::Unsupported));
}

#[test]
fn output_template_and_work_dir() {
    assert_eq!(YtDlp::output_template("work/abc"), "work/abc/%(playlist_index)s-%(id)s.%(ext)s");
    let y = YtDlp::new("yt-dlp".to_string(), "downloads".to_string(), None);
    let a = y.next_work_dir();
    let b = y.next_work_dir();
    assert!(a.starts_with("downloads/"));
    assert_eq!(a.len(), "downloads/".len() + 36);
    assert_ne!(a, b);
}

#[test]
fn downloaded_files_numbered_in_order() {
    let files = collect_downloaded_files(s(&["w/1-a.MP4", "w/2-b.jpg", "w/x.srt", "w/noext"]));
    let kinds: Vec<MediaKind> = files.iter().map(|f| f.media_kind).collect();
    assert_eq!(kinds, vec![MediaKind::Video, MediaKind::Photo, MediaKind::Document, MediaKind::Document]);
    let idx: Vec<i64> = files.iter().map(|f| f.item_index).collect();
    assert_eq!(idx, vec![0, 1, 2, 3]);
    assert_eq!(files[0].path, "w/1-a.MP4");
}

#[test]
fn leftover_files_are_skipped() {
    assert!(!keeps_downloaded_file("w/a.mp4.part", 10));
    assert!(!keeps_downloaded_file("w/a.YTDL", 10));
    assert!(!keeps_downloaded_file("w/a.tmp", 10));
    assert!(!keeps_downloaded_file("w/a.info.json", 10));
    assert!(!keeps_downloaded_file("w/a.mp4", 0));
    assert!(keeps_downloaded_file("w/a.mp4", 1));
    assert!(keeps_downloaded_file("w/noext", 5));
}

#[test]
fn empty_download_is_an_error() {
    let e = DownloadedSet::from_files("w".to_string(), vec![]);
    assert!(matches!(e, Err(DownloadError::NoMediaFiles)));
    assert_eq!(DownloadError::NoMediaFiles.message(), "yt-dlp finished but produced no media files");
    let f = DownloadedFile { path: "w/a.mp3".to_string(), media_kind: MediaKind::Audio, item_index: 0 };
    let ok = DownloadedSet::from_files("w".to_string(), vec![f]).unwrap();
    assert_eq!(ok.work_dir, "w");
    assert_eq!(ok.files.len(), 1);
}

#[test]
fn failure_messages() {
    assert_eq!(probe_failure_message("  ERROR: bad\n"), "yt-dlp metadata probe failed: ERROR: bad");
    assert_eq!(download_failure_message("oops\n"), "yt-dlp download failed: oops");
    assert_eq!(PROBE_ATTEMPTS, 3);
}

#[test]
fn percent_text_of_progress_lines() {
    assert_eq!(percent_text("download:  42.5%"), Some("42.5".to_string()));
    assert_eq!(percent_text("download:100%"), Some("100".to_string()));
    assert_eq!(percent_text("12% then 7.0%"), Some("7.0".to_string()));
    assert_eq!(percent_text("no percent here"), None);
    assert_eq!(percent_text("download: %"), Some(String::new()));
    assert!(percent_line_accepted("download: 3%"));
    assert!(!percent_line_accepted("é3%"));
    assert!(percent_line_accepted("3%"));
}

fn is_lower_hex(c: char) -> bool {
    c.is_ascii_digit() || ('a'..='f').contains(&c)
}

#[test]
fn work_dir_name_is_a_v4_uuid() {
    let y = YtDlp::new("yt-dlp".to_string(), "downloads".to_string(), None);
    let dir = y.next_work_dir();
    let name: Vec<char> = dir["downloads/".len()..].chars().collect();
    assert_eq!(name.len(), 36);
    for (i, c) in name.iter().enumerate() {
        if [8, 13, 18, 23].contains(&i) {
            assert_eq!(*c, '-');
        } else {
            assert!(is_lower_hex(*c));
        }
    }
    assert_eq!(name[14], '4');
    assert!(['8', '9', 'a', 'b'].contains(&name[19]));
}

#[test]
fn probe_retries_then_gives_up() {
    assert!(matches!(after_probe_attempt(1, true, ""), ProbeStep::Parse));
    assert!(matches!(after_probe_attempt(1, false, "x"), ProbeStep::Retry));
    assert!(matches!(after_probe_attempt(2, false, "x"), ProbeStep::Retry));
    match after_probe_attempt(PROBE_ATTEMPTS, false, "  ERROR: gone \n") {
        ProbeStep::GiveUp(m) => assert_eq!(m, "yt-dlp metadata probe failed: ERROR: gone"),
        _ => panic!("expected to give up"),
    }
    assert!(matches!(after_probe_attempt(PROBE_ATTEMPTS, true, ""), ProbeStep::Parse));
    assert_eq!(PROBE_RETRY_DELAY_MS, 500);
}

#[test]
fn spotify_title_from_oembed() {
    assert_eq!(spotify_title(br#"{"title":"Song - Artist","type":"rich"}"#), Ok("Song - Artist".to_string()));
    assert_eq!(spotify_title(b"not json"), Err(SpotifyError::InvalidJson));
    assert_eq!(spotify_title(br#"{"type":"rich"}"#), Err(SpotifyError::MissingTitle));
    assert_eq!(spotify_title(br#"{"title":5}"#), Err(SpotifyError::MissingTitle));
    assert_eq!(spotify_title(b"[1,2]"), Err(SpotifyError::MissingTitle));
    assert_eq!(SpotifyError::InvalidJson.message(), "failed to parse Spotify oEmbed JSON");
    assert_eq!(SpotifyError::MissingTitle.message(), "Spotify oEmbed JSON missing title");
}

#[test]
fn downloaded_set_is_numbered_then_ordered_by_path() {
    let set = downloaded_set("w".to_string(), s(&["w/b.mp4", "w/a.jpg", "w/a/c.mp3"])).unwrap();
    assert_eq!(set.work_dir, "w");
    let seen: Vec<(String, MediaKind, i64)> =
        set.files.iter().map(|f| (f.path.clone(), f.media_kind, f.item_index)).collect();
    assert_eq!(
        seen,
        vec![
            ("w/a/c.mp3".to_string(), MediaKind::Audio, 2),
            ("w/a.jpg".to_string(), MediaKind::Photo, 1),
            ("w/b.mp4".to_string(), MediaKind::Video, 0),
        ]
    );
    assert!(matches!(downloaded_set("w".to_string(), Vec::new()), Err(DownloadError::NoMediaFiles)));
}
