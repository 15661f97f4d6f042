//! The bot's settings, from the values its environment provides.

use vstd::prelude::*;

verus! {

/// The bot's settings.
#[derive(Debug, Clone)]
pub struct Config {
    pub telegram_bot_token: String,
    pub database_url: String,
    pub download_dir: String,
    pub yt_dlp_bin: String,
    pub yt_dlp_cookies: Option<String>,
}

/// Why the settings are incomplete.
#[derive(Debug, Clone, Copy, PartialEq, Eq, Structural)]
pub enum ConfigError {
    /// None of the token variables is set.
    MissingToken,
}

impl ConfigError {
    pub fn message(self) -> (r: String)
        ensures
            r@ == "set TELEGRAM_BOT_TOKEN, TELOXIDE_TOKEN, or BOT_TOKEN"@,
    {
        "set TELEGRAM_BOT_TOKEN, TELOXIDE_TOKEN, or BOT_TOKEN".to_owned()
    }
}

/// The values the settings are read from: each environment variable that is set
/// (and valid Unicode), and whether a `cookies.txt` file exists.
pub struct ConfigSources {
    pub telegram_bot_token: Option<String>,
    pub teloxide_token: Option<String>,
    pub bot_token: Option<String>,
    pub database_url: Option<String>,
    pub download_dir: Option<String>,
    pub yt_dlp_bin: Option<String>,
    pub yt_dlp_cookies: Option<String>,
    pub cookies_file_exists: bool,
}

/// The first of the values that is set.
pub open spec fn first_set(a: Option<String>, b: Option<String>, c: Option<String>) -> Option<String> {
    if a is Some {
        a
    } else if b is Some {
        b
    } else {
        c
    }
}

/// The settings for the given sources: the token from the first variable set;
/// defaults for the database, download directory and yt-dlp; cookies from
/// `YT_DLP_COOKIES`, else `cookies.txt` when that file exists.
pub open spec fn config_from_spec(src: ConfigSources, c: Config) -> bool {
    &&& first_set(src.telegram_bot_token, src.teloxide_token, src.bot_token) == Some(c.telegram_bot_token)
    &&& c.database_url@ == match src.database_url {
        Some(u) => u@,
        None => "sqlite://kiwi_cache.sqlite?mode=rwc"@,
    }
    &&& c.download_dir@ == match src.download_dir {
        Some(d) => d@,
        None => "downloads"@,
    }
    &&& c.yt_dlp_bin@ == match src.yt_dlp_bin {
        Some(b) => b@,
        None => "yt-dlp"@,
    }
    &&& c.yt_dlp_cookies.deep_view() == match src.yt_dlp_cookies {
        Some(p) => Some(p@),
        None => if src.cookies_file_exists {
            Some("cookies.txt"@)
        } else {
            None
        },
    }
}

impl Config {
    /// The settings from the environment's values; an error when no token is set.
    pub fn from_sources(src: ConfigSources) -> (r: Result<Config, ConfigError>)
        ensures
            match r {
                Ok(c) => config_from_spec(src, c),
                Err(e) => e == ConfigError::MissingToken && first_set(
                    src.telegram_bot_token,
                    src.teloxide_token,
                    src.bot_token,
                ) is None,
            },
    {
        let ghost s0 = src;
        let token = match src.telegram_bot_token {
            Some(t) => t,
            None => match src.teloxide_token {
                Some(t) => t,
                None => match src.bot_token {
                    Some(t) => t,
                    None => {
                        return Err(ConfigError::MissingToken);
                    },
                },
            },
        };
        let database_url = match src.database_url {
            Some(u) => u,
            None => "sqlite://kiwi_cache.sqlite?mode=rwc".to_owned(),
        };
        let download_dir = match src.download_dir {
            Some(d) => d,
            None => "downloads".to_owned(),
        };
        let yt_dlp_bin = match src.yt_dlp_bin {
            Some(b) => b,
            None => "yt-dlp".to_owned(),
        };
        let yt_dlp_cookies = match src.yt_dlp_cookies {
            Some(p) => Some(p),
            None => if src.cookies_file_exists {
                Some("cookies.txt".to_owned())
            } else {
                None
            },
        };
        Ok(Config { telegram_bot_token: token, database_url, download_dir, yt_dlp_bin, yt_dlp_cookies })
    }
}

} // verus!
