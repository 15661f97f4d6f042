//! Verified core of a Telegram media downloader bot: the rules that decide
//! what a chat message or button press asks for, how yt-dlp is invoked, how
//! media metadata is summarised, which pending requests are still alive, and
//! how downloaded files are grouped and cached.

pub mod text;
pub mod config;
pub mod db;
pub mod models;
pub mod source;
pub mod order;
pub mod media;
pub mod downloader;
pub mod jobs;
pub mod handlers;
pub mod delivery;
pub mod locales;
