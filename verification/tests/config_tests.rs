use kiwi_downloader::config::{Config, ConfigError, ConfigSources};

fn none() -> ConfigSources {
    ConfigSources {
        telegram_bot_token: None,
        teloxide_token: None,
        bot_token: None,
        database_url: None,
        download_dir: None,
        yt_dlp_bin: None,
        yt_dlp_cookies: None,
        cookies_file_exists: false,
    }
}

#[test]
fn missing_token_is_an_error() {
    assert!(matches!(Config::from_sources(none()), Err(ConfigError::MissingToken)));
    assert_eq!(ConfigError::MissingToken.message(), "set TELEGRAM_BOT_TOKEN, TELOXIDE_TOKEN, or BOT_TOKEN");
}

#[test]
fn defaults_apply() {
    let c = Config::from_sources(ConfigSources { bot_token: Some("b".to_string()), ..none() }).unwrap();
    assert_eq!(c.telegram_bot_token, "b");
    assert_eq!(c.database_url, "sqlite://kiwi_cache.sqlite?mode=rwc");
    assert_eq!(c.download_dir, "downloads");
    assert_eq!(c.yt_dlp_bin, "yt-dlp");
    assert_eq!(c.yt_dlp_cookies, None);
}

#[test]
fn first_token_wins_and_values_are_kept() {
    let c = Config::from_sources(ConfigSources {
        telegram_bot_token: Some("a".to_string()),
        teloxide_token: Some("b".to_string()),
        database_url: Some("sqlite://x".to_string()),
        download_dir: Some("/tmp/d".to_string()),
        yt_dlp_bin: Some("/bin/yt".to_string()),
        cookies_file_exists: true,
        ..none()
    })
    .unwrap();
    assert_eq!(c.telegram_bot_token, "a");
    assert_eq!(c.database_url, "sqlite://x");
    assert_eq!(c.download_dir, "/tmp/d");
    assert_eq!(c.yt_dlp_bin, "/bin/yt");
    assert_eq!(c.yt_dlp_cookies, Some("cookies.txt".to_string()));
    let d = Config::from_sources(ConfigSources {
        teloxide_token: Some("t".to_string()),
        yt_dlp_cookies: Some("mine.txt".to_string()),
        cookies_file_exists: true,
        ..none()
    })
    .unwrap();
    assert_eq!(d.telegram_bot_token, "t");
    assert_eq!(d.yt_dlp_cookies, Some("mine.txt".to_string()));
}
