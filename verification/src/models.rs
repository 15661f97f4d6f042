//! What a request asks for (audio or video), what kind of media a file is,
//! and which video quality a user picked.

use vstd::prelude::*;
use crate::text::{ascii_lower, decimal, decimal_string, is_digit, lemma_decimal, lemma_parse_decimal, parse_u32, parse_u32_spec, push_decimal, str_eq, to_ascii_lowercase};

verus! {

/// What the user asked to download.
#[derive(Debug, Clone, Copy, PartialEq, Eq, Structural)]
pub enum DownloadKind {
    Audio,
    Video,
}

/// The name under which a download kind is stored in the cache.
pub open spec fn download_kind_name(k: DownloadKind) -> Seq<char> {
    match k {
        DownloadKind::Audio => "audio"@,
        DownloadKind::Video => "video"@,
    }
}

impl DownloadKind {
    pub fn as_str(self) -> (r: &'static str)
        ensures
            r@ == download_kind_name(self),
    {
        match self {
            DownloadKind::Audio => "audio",
            DownloadKind::Video => "video",
        }
    }
}

/// The kind of a media file, which decides how it is sent to the chat.
#[derive(Debug, Clone, Copy, PartialEq, Eq, Structural)]
pub enum MediaKind {
    Audio,
    Video,
    Photo,
    Document,
}

/// The name under which a media kind is stored in the cache.
pub open spec fn media_kind_name(k: MediaKind) -> Seq<char> {
    match k {
        MediaKind::Audio => "audio"@,
        MediaKind::Video => "video"@,
        MediaKind::Photo => "photo"@,
        MediaKind::Document => "document"@,
    }
}

/// Reading a stored name back: any unknown name is a document.
pub open spec fn media_kind_from_name(v: Seq<char>) -> MediaKind {
    if v == "audio"@ {
        MediaKind::Audio
    } else if v == "video"@ {
        MediaKind::Video
    } else if v == "photo"@ {
        MediaKind::Photo
    } else {
        MediaKind::Document
    }
}

/// The media kind of a file by its (already lower-cased) extension.
pub open spec fn media_kind_for_extension(e: Seq<char>) -> MediaKind {
    if e == "mp3"@ || e == "m4a"@ || e == "aac"@ || e == "opus"@ || e == "ogg"@ {
        MediaKind::Audio
    } else if e == "mp4"@ || e == "m4v"@ || e == "mov"@ || e == "webm"@ || e == "mkv"@ {
        MediaKind::Video
    } else if e == "jpg"@ || e == "jpeg"@ || e == "png"@ || e == "webp"@ {
        MediaKind::Photo
    } else {
        MediaKind::Document
    }
}

impl MediaKind {
    pub fn as_str(self) -> (r: &'static str)
        ensures
            r@ == media_kind_name(self),
    {
        match self {
            MediaKind::Audio => "audio",
            MediaKind::Video => "video",
            MediaKind::Photo => "photo",
            MediaKind::Document => "document",
        }
    }

    pub fn from_str(value: &str) -> (r: Self)
        ensures
            r == media_kind_from_name(value@),
    {
        if str_eq(value, "audio") {
            MediaKind::Audio
        } else if str_eq(value, "video") {
            MediaKind::Video
        } else if str_eq(value, "photo") {
            MediaKind::Photo
        } else {
            MediaKind::Document
        }
    }

    /// Classifies a file extension, ignoring ASCII case.
    pub fn from_extension(extension: &str) -> (r: Self)
        ensures
            r == media_kind_for_extension(ascii_lower(extension@)),
    {
        let lowered = to_ascii_lowercase(extension);
        let e = lowered.as_str();
        if str_eq(e, "mp3") || str_eq(e, "m4a") || str_eq(e, "aac") || str_eq(e, "opus") || str_eq(
            e,
            "ogg",
        ) {
            MediaKind::Audio
        } else if str_eq(e, "mp4") || str_eq(e, "m4v") || str_eq(e, "mov") || str_eq(e, "webm")
            || str_eq(e, "mkv") {
            MediaKind::Video
        } else if str_eq(e, "jpg") || str_eq(e, "jpeg") || str_eq(e, "png") || str_eq(e, "webp") {
            MediaKind::Photo
        } else {
            MediaKind::Document
        }
    }
}

/// Reading back the stored name of a media kind gives the same kind.
pub proof fn lemma_media_kind_name_roundtrip(k: MediaKind)
    ensures
        media_kind_from_name(media_kind_name(k)) == k,
{
    reveal_strlit("audio");
    reveal_strlit("video");
    reveal_strlit("photo");
    reveal_strlit("document");
    assert("audio"@[0] != "video"@[0]);
    assert("audio"@[0] != "photo"@[0]);
    assert("video"@[0] != "photo"@[0]);
    assert("document"@.len() != "audio"@.len());
    assert("document"@.len() != "video"@.len());
    assert("document"@.len() != "photo"@.len());
}

/// A video quality: the best available, or a maximum height in pixels.
#[derive(Debug, Clone, Copy, PartialEq, Eq, Structural)]
pub enum VideoQuality {
    Best,
    Height(u32),
}

/// The key under which a quality's downloads are cached; also how it is shown.
pub open spec fn quality_cache_key(q: VideoQuality) -> Seq<char> {
    match q {
        VideoQuality::Best => "best"@,
        VideoQuality::Height(h) => decimal(h as nat) + "p"@,
    }
}

/// The value a quality button carries in its callback data.
pub open spec fn quality_callback_value(q: VideoQuality) -> Seq<char> {
    match q {
        VideoQuality::Best => "best"@,
        VideoQuality::Height(h) => decimal(h as nat),
    }
}

/// Reading a quality back from callback data.
pub open spec fn quality_from_callback(v: Seq<char>) -> Option<VideoQuality> {
    if v == "best"@ {
        Some(VideoQuality::Best)
    } else {
        match parse_u32_spec(v) {
            Some(h) => Some(VideoQuality::Height(h)),
            None => None,
        }
    }
}

/// The yt-dlp format selector for a quality.
pub open spec fn quality_format_selector(q: VideoQuality) -> Seq<char> {
    match q {
        VideoQuality::Best => "bv*[ext=mp4]+ba[ext=m4a]/b[ext=mp4]/best"@,
        VideoQuality::Height(h) => "bv*[height<="@ + decimal(h as nat) + "][ext=mp4]+ba[ext=m4a]/b[height<="@
            + decimal(h as nat) + "][ext=mp4]/best[height<="@ + decimal(h as nat) + "]/best"@,
    }
}

impl VideoQuality {
    pub fn cache_key(self) -> (r: String)
        ensures
            r@ == quality_cache_key(self),
    {
        match self {
            VideoQuality::Best => "best".to_owned(),
            VideoQuality::Height(height) => {
                let mut s = decimal_string(height);
                s.append("p");
                s
            },
        }
    }

    /// How the quality is shown on its button (the `Display` text).
    pub fn label(self) -> (r: String)
        ensures
            r@ == quality_cache_key(self),
    {
        self.cache_key()
    }

    pub fn callback_value(self) -> (r: String)
        ensures
            r@ == quality_callback_value(self),
    {
        match self {
            VideoQuality::Best => "best".to_owned(),
            VideoQuality::Height(height) => decimal_string(height),
        }
    }

    pub fn from_callback(value: &str) -> (r: Option<Self>)
        ensures
            r == quality_from_callback(value@),
    {
        if str_eq(value, "best") {
            return Some(VideoQuality::Best);
        }
        match parse_u32(value) {
            Some(h) => Some(VideoQuality::Height(h)),
            None => None,
        }
    }

    pub fn format_selector(self) -> (r: String)
        ensures
            r@ == quality_format_selector(self),
    {
        match self {
            VideoQuality::Best => "bv*[ext=mp4]+ba[ext=m4a]/b[ext=mp4]/best".to_owned(),
            VideoQuality::Height(height) => {
                let mut s = "bv*[height<=".to_owned();
                push_decimal(&mut s, height);
                s.append("][ext=mp4]+ba[ext=m4a]/b[height<=");
                push_decimal(&mut s, height);
                s.append("][ext=mp4]/best[height<=");
                push_decimal(&mut s, height);
                s.append("]/best");
                s
            },
        }
    }
}

/// A quality read back from the value its button carries is the same quality.
pub proof fn lemma_quality_callback_roundtrip(q: VideoQuality)
    ensures
        quality_from_callback(quality_callback_value(q)) == Some(q),
{
    reveal_strlit("best");
    if let VideoQuality::Height(h) = q {
        lemma_decimal(h as nat);
        lemma_parse_decimal(h);
        assert(decimal(h as nat) != "best"@) by {
            assert(is_digit(decimal(h as nat)[0]));
        }
    }
}

/// Distinct qualities are cached under distinct keys.
pub proof fn lemma_cache_key_injective(a: VideoQuality, b: VideoQuality)
    requires
        quality_cache_key(a) == quality_cache_key(b),
    ensures
        a == b,
{
    reveal_strlit("best");
    reveal_strlit("p");
    match (a, b) {
        (VideoQuality::Height(x), VideoQuality::Height(y)) => {
            let kx = decimal(x as nat) + "p"@;
            let ky = decimal(y as nat) + "p"@;
            assert(kx.drop_last() =~= decimal(x as nat));
            assert(ky.drop_last() =~= decimal(y as nat));
            lemma_decimal(x as nat);
            lemma_decimal(y as nat);
        },
        (VideoQuality::Height(x), VideoQuality::Best) => {
            let kx = decimal(x as nat) + "p"@;
            assert(kx.last() == 'p');
            assert("best"@.last() == 't');
        },
        (VideoQuality::Best, VideoQuality::Height(y)) => {
            let ky = decimal(y as nat) + "p"@;
            assert(ky.last() == 'p');
            assert("best"@.last() == 't');
        },
        _ => {},
    }
}

} // verus!
