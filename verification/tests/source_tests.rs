use kiwi_downloader::source::{is_domain_or_subdomain, Source, SourceError};

#[test]
fn domain_or_subdomain_matches() {
    assert!(is_domain_or_subdomain("youtube.com", "youtube.com"));
    assert!(is_domain_or_subdomain("m.youtube.com", "youtube.com"));
    assert!(!is_domain_or_subdomain("notyoutube.com", "youtube.com"));
    assert!(!is_domain_or_subdomain("youtube.com.evil.org", "youtube.com"));
    assert!(!is_domain_or_subdomain("com", "youtube.com"));
}

#[test]
fn sources_by_host() {
    assert_eq!(Source::from_url("https://www.youtube.com/watch?v=abc"), Ok(Source::YouTube));
    assert_eq!(Source::from_url("https://youtu.be/abc"), Ok(Source::YouTube));
    assert_eq!(Source::from_url("https://vm.tiktok.com/xyz/"), Ok(Source::TikTok));
    assert_eq!(Source::from_url("https://www.instagram.com/p/abc/"), Ok(Source::Instagram));
    assert_eq!(Source::from_url("https://pin.it/abc"), Ok(Source::Pinterest));
    assert_eq!(Source::from_url("https://www.pinterest.com/pin/1/"), Ok(Source::Pinterest));
    assert_eq!(Source::from_url("https://open.spotify.com/track/1"), Ok(Source::Spotify));
}

#[test]
fn source_host_case_is_ignored() {
    assert_eq!(Source::from_url("https://WWW.YouTube.COM/watch?v=abc"), Ok(Source::YouTube));
}

#[test]
fn source_errors() {
    assert_eq!(Source::from_url("not a url"), Err(SourceError::InvalidUrl));
    assert_eq!(Source::from_url("mailto:someone@example.com"), Err(SourceError::NoHost));
    assert_eq!(Source::from_url("https://example.com/video"), Err(SourceError::Unsupported));
    assert_eq!(Source::from_url("https://pin.it.example.com/"), Err(SourceError::Unsupported));
}

#[test]
fn source_error_messages() {
    assert_eq!(SourceError::InvalidUrl.message(), "invalid URL");
    assert_eq!(SourceError::NoHost.message(), "URL has no host");
    assert_eq!(SourceError::Unsupported.message(), "unsupported media source");
}

#[test]
fn source_from_lookup_decides_from_parsed_host() {
    assert_eq!(Source::from_lookup(None), Err(SourceError::InvalidUrl));
    assert_eq!(Source::from_lookup(Some(None)), Err(SourceError::NoHost));
    assert_eq!(Source::from_lookup(Some(Some("TikTok.com".to_string()))), Ok(Source::TikTok));
    assert_eq!(Source::from_lookup(Some(Some("example.org".to_string()))), Err(SourceError::Unsupported));
    assert_eq!(Source::from_host("music.youtube.com"), Some(Source::YouTube));
    assert_eq!(Source::from_host("spotify.co"), None);
}
