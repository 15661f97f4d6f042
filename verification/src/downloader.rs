//! How yt-dlp is invoked, and what is made of the files it leaves behind.

use vstd::prelude::*;
use crate::text::{uuid_v4_hyphenated, is_digit, ascii_lower, chars_of, lower_chars, str_eq, string_of, trim_by, trim_whitespace, TrimSet};
use crate::source::{source_from_lookup, url_host_of, Source, SourceError};
use crate::models::{media_kind_for_extension, MediaKind, VideoQuality, quality_format_selector};
use crate::order::{file_view, ordered_by_path, sort_by_path};

verus! {

/// What `Path::new(dir).join(name)` gives, as text.
pub uninterp spec fn path_join_of(dir: Seq<char>, name: Seq<char>) -> Seq<char>;

/// What `Path::new(path).extension()` gives, as text (`None` also when the
/// extension is not valid UTF-8).
pub uninterp spec fn path_extension_of(path: Seq<char>) -> Option<Seq<char>>;

/// `std::path::Path::join`, read back with `to_string_lossy`. The result is
/// taken to depend on the two texts alone; its form is not stated.
#[verifier::external_body]
fn join_path(dir: &str, name: &str) -> (r: String)
    ensures
        r@ == path_join_of(dir@, name@),
{
    std::path::Path::new(dir).join(name).to_string_lossy().into_owned()
}

/// `std::path::Path::extension`, as UTF-8 text. The result is taken to depend
/// on the path alone; which part is the extension is not stated.
#[verifier::external_body]
fn file_extension(path: &str) -> (r: Option<String>)
    ensures
        r.deep_view() == path_extension_of(path@),
{
    std::path::Path::new(path).extension().and_then(|e| e.to_str()).map(|e| e.to_string())
}

/// `uuid::Uuid::new_v4()` in its hyphenated text form: a fresh random name, a
/// random UUID with its version and variant bits set, printed in lower-case hex
/// with hyphens. Which digits is left to chance.
#[verifier::external_body]
fn random_uuid_text() -> (r: String)
    ensures
        uuid_v4_hyphenated(r@),
{
    uuid::Uuid::new_v4().to_string()
}

/// Appends one argument.
fn push_arg(args: &mut Vec<String>, a: &str)
    ensures
        final(args).deep_view() == old(args).deep_view().push(a@),
{
    args.push(a.to_owned());
    assert(final(args).deep_view() =~= old(args).deep_view().push(a@));
}

/// The options that pass a cookies file to yt-dlp, if there is one.
pub open spec fn cookie_args(cookies: Option<Seq<char>>) -> Seq<Seq<char>> {
    match cookies {
        Some(path) => seq!["--cookies"@, path],
        None => seq![],
    }
}

/// The arguments of a metadata probe.
pub open spec fn probe_args_spec(cookies: Option<Seq<char>>, source: Source, url: Seq<char>) -> Seq<Seq<char>> {
    seq!["--dump-single-json"@, "--no-warnings"@, "--skip-download"@, "--extractor-args"@, "youtube:player_client=ios"@]
        + cookie_args(cookies) + (if source != Source::Instagram {
        seq!["--no-playlist"@]
    } else {
        seq![]
    }) + seq![url]
}

/// The arguments every download starts with; `template` is the output template.
pub open spec fn base_args_spec(template: Seq<char>, cookies: Option<Seq<char>>) -> Seq<Seq<char>> {
    seq!["--no-warnings"@, "--no-colors"@, "--newline"@, "--progress"@, "--progress-template"@,
        "download:%(progress._percent_str)s"@, "--restrict-filenames"@, "-o"@, template,
        "--extractor-args"@, "youtube:player_client=ios"@] + cookie_args(cookies)
}

/// The arguments added for an audio download.
pub open spec fn audio_args_spec(source: Source, url: Seq<char>) -> Seq<Seq<char>> {
    seq!["--extract-audio"@, "--audio-format"@, "mp3"@, "--audio-quality"@, "0"@] + (if source
        != Source::Instagram && source != Source::Spotify {
        seq!["--no-playlist"@]
    } else {
        seq![]
    }) + seq![url]
}

/// The arguments added for a video download.
pub open spec fn video_args_spec(source: Source, quality: VideoQuality, carousel: bool, url: Seq<char>) -> Seq<Seq<char>> {
    if carousel {
        seq!["--merge-output-format"@, "mp4"@, url]
    } else if source == Source::Pinterest {
        seq!["--merge-output-format"@, "mp4"@, "--no-playlist"@, url]
    } else {
        seq!["--format"@, quality_format_selector(quality), "--merge-output-format"@, "mp4"@,
            "--no-playlist"@, url]
    }
}

/// The link given to yt-dlp for a Spotify track: a YouTube search for its title.
pub open spec fn spotify_search_spec(title: Seq<char>) -> Seq<char> {
    "ytsearch1:"@ + title
}

/// What Spotify's oEmbed reply gives for a body: `None` when it is not JSON,
/// else the `title` field when it is a string.
pub uninterp spec fn oembed_title_of(body: Seq<u8>) -> Option<Option<Seq<char>>>;

/// Reads an oEmbed reply with `serde_json::from_slice` into a
/// `serde_json::Value` and takes its `title` with `Value::as_str`. The outcome
/// depends on the bytes alone; the JSON grammar is not stated.
#[verifier::external_body]
fn parse_oembed_title(body: &[u8]) -> (r: Option<Option<String>>)
    ensures
        r.deep_view() == oembed_title_of(body@),
{
    serde_json::from_slice::<serde_json::Value>(body).ok().map(|v| v["title"].as_str().map(|t| t.to_string()))
}

/// Why a Spotify track's title could not be read.
#[derive(Debug, Clone, Copy, PartialEq, Eq, Structural)]
pub enum SpotifyError {
    /// The oEmbed reply is not JSON.
    InvalidJson,
    /// The oEmbed reply has no text `title`.
    MissingTitle,
}

impl SpotifyError {
    /// The error's message.
    pub fn message(self) -> (r: String)
        ensures
            r@ == match self {
                SpotifyError::InvalidJson => "failed to parse Spotify oEmbed JSON"@,
                SpotifyError::MissingTitle => "Spotify oEmbed JSON missing title"@,
            },
    {
        match self {
            SpotifyError::InvalidJson => "failed to parse Spotify oEmbed JSON".to_owned(),
            SpotifyError::MissingTitle => "Spotify oEmbed JSON missing title".to_owned(),
        }
    }
}

/// The title of a Spotify track from the body of its oEmbed reply.
pub fn spotify_title(body: &[u8]) -> (r: Result<String, SpotifyError>)
    ensures
        match oembed_title_of(body@) {
            None => r == Err::<String, SpotifyError>(SpotifyError::InvalidJson),
            Some(None) => r == Err::<String, SpotifyError>(SpotifyError::MissingTitle),
            Some(Some(t)) => r is Ok && r->Ok_0@ == t,
        },
{
    match parse_oembed_title(body) {
        None => Err(SpotifyError::InvalidJson),
        Some(None) => Err(SpotifyError::MissingTitle),
        Some(Some(t)) => Ok(t),
    }
}

/// A YouTube search for a Spotify track's title.
pub fn spotify_search(title: &str) -> (r: String)
    ensures
        r@ == spotify_search_spec(title@),
{
    let mut s = "ytsearch1:".to_owned();
    s.append(title);
    s
}

/// The file name pattern of downloads inside a work directory.
pub open spec fn output_pattern() -> Seq<char> {
    "%(playlist_index)s-%(id)s.%(ext)s"@
}

/// Where and how yt-dlp runs.
#[derive(Clone)]
pub struct YtDlp {
    pub bin: String,
    pub download_root: String,
    pub cookies: Option<String>,
}

impl YtDlp {
    pub fn new(bin: String, download_root: String, cookies: Option<String>) -> (r: Self)
        ensures
            r.bin == bin,
            r.download_root == download_root,
            r.cookies == cookies,
    {
        YtDlp { bin, download_root, cookies }
    }

    fn push_cookie_args(&self, args: &mut Vec<String>)
        ensures
            final(args).deep_view() == old(args).deep_view() + cookie_args(self.cookies.deep_view()),
    {
        match &self.cookies {
            Some(path) => {
                push_arg(args, "--cookies");
                push_arg(args, path.as_str());
            },
            None => {},
        }
        assert(final(args).deep_view() =~= old(args).deep_view() + cookie_args(self.cookies.deep_view()));
    }

    /// The arguments of a metadata probe of `url`, which points to `source`.
    pub fn probe_args(&self, source: Source, url: &str) -> (args: Vec<String>)
        ensures
            args.deep_view() == probe_args_spec(self.cookies.deep_view(), source, url@),
    {
        let mut args: Vec<String> = Vec::new();
        push_arg(&mut args, "--dump-single-json");
        push_arg(&mut args, "--no-warnings");
        push_arg(&mut args, "--skip-download");
        push_arg(&mut args, "--extractor-args");
        push_arg(&mut args, "youtube:player_client=ios");
        self.push_cookie_args(&mut args);
        if source != Source::Instagram {
            push_arg(&mut args, "--no-playlist");
        }
        push_arg(&mut args, url);
        assert(args.deep_view() =~= probe_args_spec(self.cookies.deep_view(), source, url@));
        args
    }

    /// The arguments every download starts with.
    pub fn base_download_args(&self, template: &str) -> (args: Vec<String>)
        ensures
            args.deep_view() == base_args_spec(template@, self.cookies.deep_view()),
    {
        let mut args: Vec<String> = Vec::new();
        push_arg(&mut args, "--no-warnings");
        push_arg(&mut args, "--no-colors");
        push_arg(&mut args, "--newline");
        push_arg(&mut args, "--progress");
        push_arg(&mut args, "--progress-template");
        push_arg(&mut args, "download:%(progress._percent_str)s");
        push_arg(&mut args, "--restrict-filenames");
        push_arg(&mut args, "-o");
        push_arg(&mut args, template);
        push_arg(&mut args, "--extractor-args");
        push_arg(&mut args, "youtube:player_client=ios");
        self.push_cookie_args(&mut args);
        assert(args.deep_view() =~= base_args_spec(template@, self.cookies.deep_view()));
        args
    }

    /// The arguments of an audio download of `url` (already rewritten for
    /// Spotify) into the output template `template`.
    pub fn audio_args(&self, template: &str, source: Source, url: &str) -> (args: Vec<String>)
        ensures
            args.deep_view() == base_args_spec(template@, self.cookies.deep_view()) + audio_args_spec(
                source,
                url@,
            ),
    {
        let mut args = self.base_download_args(template);
        let ghost base = args.deep_view();
        push_arg(&mut args, "--extract-audio");
        push_arg(&mut args, "--audio-format");
        push_arg(&mut args, "mp3");
        push_arg(&mut args, "--audio-quality");
        push_arg(&mut args, "0");
        if source != Source::Instagram && source != Source::Spotify {
            push_arg(&mut args, "--no-playlist");
        }
        push_arg(&mut args, url);
        assert(args.deep_view() =~= base + audio_args_spec(source, url@));
        args
    }

    /// The arguments of a video download of `url` (already rewritten for
    /// Spotify) into the output template `template`.
    pub fn video_args(
        &self,
        template: &str,
        source: Source,
        quality: VideoQuality,
        carousel: bool,
        url: &str,
    ) -> (args: Vec<String>)
        ensures
            args.deep_view() == base_args_spec(template@, self.cookies.deep_view()) + video_args_spec(
                source,
                quality,
                carousel,
                url@,
            ),
    {
        let mut args = self.base_download_args(template);
        let ghost base = args.deep_view();
        if carousel {
            push_arg(&mut args, "--merge-output-format");
            push_arg(&mut args, "mp4");
            push_arg(&mut args, url);
        } else if source == Source::Pinterest {
            push_arg(&mut args, "--merge-output-format");
            push_arg(&mut args, "mp4");
            push_arg(&mut args, "--no-playlist");
            push_arg(&mut args, url);
        } else {
            push_arg(&mut args, "--format");
            let selector = quality.format_selector();
            push_arg(&mut args, selector.as_str());
            push_arg(&mut args, "--merge-output-format");
            push_arg(&mut args, "mp4");
            push_arg(&mut args, "--no-playlist");
            push_arg(&mut args, url);
        }
        assert(args.deep_view() =~= base + video_args_spec(source, quality, carousel, url@));
        args
    }

    /// A fresh work directory for one download: a random name under the download root.
    pub fn next_work_dir(&self) -> (r: String)
        ensures
            exists|name: Seq<char>| uuid_v4_hyphenated(name) && r@ == path_join_of(self.download_root@, name),
    {
        let name = random_uuid_text();
        join_path(self.download_root.as_str(), name.as_str())
    }

    /// The output template of downloads into `work_dir`.
    pub fn output_template(work_dir: &str) -> (r: String)
        ensures
            r@ == path_join_of(work_dir@, output_pattern()),
    {
        join_path(work_dir, "%(playlist_index)s-%(id)s.%(ext)s")
    }
}

/// A file that a download produced.
#[derive(Debug, Clone)]
pub struct DownloadedFile {
    pub path: String,
    pub media_kind: MediaKind,
    pub item_index: i64,
}

/// The files of one download and the directory that holds them.
#[derive(Debug, Clone)]
pub struct DownloadedSet {
    pub work_dir: String,
    pub files: Vec<DownloadedFile>,
}

/// Why a download gave nothing to send.
#[derive(Debug, Clone, Copy, PartialEq, Eq, Structural)]
pub enum DownloadError {
    /// yt-dlp exited without error but left no media file.
    NoMediaFiles,
}

impl DownloadError {
    pub fn message(&self) -> (r: String)
        ensures
            r@ == "yt-dlp finished but produced no media files"@,
    {
        "yt-dlp finished but produced no media files".to_owned()
    }
}

/// The extension of a path, lower-cased, or empty when it has none.
pub open spec fn lower_extension(path: Seq<char>) -> Seq<char> {
    match path_extension_of(path) {
        Some(e) => ascii_lower(e),
        None => seq![],
    }
}

/// The media kind of a downloaded file, by its extension.
pub open spec fn kind_of_path(path: Seq<char>) -> MediaKind {
    media_kind_for_extension(lower_extension(path))
}

/// Extensions of yt-dlp's partial and side files, never sent.
pub open spec fn is_leftover_extension(e: Seq<char>) -> bool {
    e == "part"@ || e == "ytdl"@ || e == "tmp"@ || e == "json"@
}

/// The lower-cased extension of a path (empty when it has none).
fn lowered_extension(path: &str) -> (r: String)
    ensures
        r@ == lower_extension(path@),
{
    match file_extension(path) {
        Some(e) => {
            let l = lower_chars(chars_of(e.as_str()).as_slice());
            string_of(l.as_slice())
        },
        None => String::new(),
    }
}

/// Whether a file found in a work directory is a finished media file: not a
/// partial or side file, and not empty.
pub fn keeps_downloaded_file(path: &str, size: u64) -> (r: bool)
    ensures
        r == (!is_leftover_extension(lower_extension(path@)) && size > 0),
{
    let e = lowered_extension(path);
    let s = e.as_str();
    let leftover = str_eq(s, "part") || str_eq(s, "ytdl") || str_eq(s, "tmp") || str_eq(s, "json");
    !leftover && size > 0
}

/// The downloaded files, numbered in the order they were found.
pub fn collect_downloaded_files(paths: Vec<String>) -> (files: Vec<DownloadedFile>)
    requires
        paths@.len() <= i64::MAX,
    ensures
        files@.len() == paths@.len(),
        forall|i: int| 0 <= i < files@.len() ==> {
            &&& (#[trigger] files@[i]).path@ == paths@[i]@
            &&& files@[i].media_kind == kind_of_path(paths@[i]@)
            &&& files@[i].item_index == i
        },
{
    let mut files: Vec<DownloadedFile> = Vec::new();
    let mut i: usize = 0;
    while i < paths.len()
        invariant
            paths@.len() <= i64::MAX,
            i <= paths@.len(),
            files@.len() == i,
            forall|k: int| 0 <= k < i ==> {
                &&& (#[trigger] files@[k]).path@ == paths@[k]@
                &&& files@[k].media_kind == kind_of_path(paths@[k]@)
                &&& files@[k].item_index == k
            },
        decreases paths@.len() - i,
    {
        let path = paths[i].clone();
        let e = lowered_extension(path.as_str());
        let media_kind = MediaKind::from_extension(e.as_str());
        proof {
            assert(ascii_lower(e@) =~= e@);
        }
        files.push(DownloadedFile { path, media_kind, item_index: i as i64 });
        i = i + 1;
    }
    files
}

/// The files found in a work directory, as plain values: numbered in the order
/// they were found, each with the kind its extension gives.
pub open spec fn found_files(paths: Seq<String>) -> Seq<(Seq<char>, MediaKind, i64)> {
    Seq::new(paths.len(), |i: int| (paths[i]@, kind_of_path(paths[i]@), i as i64))
}

/// The result of a download whose work directory holds the files `paths`, in
/// the order they were found: the files, numbered in that order, then ordered
/// by path; an error when there are none.
pub fn downloaded_set(work_dir: String, paths: Vec<String>) -> (r: Result<DownloadedSet, DownloadError>)
    requires
        paths@.len() <= i64::MAX,
    ensures
        r is Err <==> paths@.len() == 0,
        match r {
            Ok(set) => set.work_dir == work_dir && set.files@.map_values(|f: DownloadedFile| file_view(f)).to_multiset()
                == found_files(paths@).to_multiset() && ordered_by_path(set.files@),
            Err(e) => e == DownloadError::NoMediaFiles,
        },
{
    let ghost ps = paths@;
    let mut files = collect_downloaded_files(paths);
    assert(files@.map_values(|f: DownloadedFile| file_view(f)) =~= found_files(ps));
    let ghost before = files@.map_values(|f: DownloadedFile| file_view(f));
    sort_by_path(&mut files);
    proof {
        broadcast use vstd::seq_lib::group_to_multiset_ensures;
        let after = files@.map_values(|f: DownloadedFile| file_view(f));
        assert(after.to_multiset().len() == before.to_multiset().len());
        assert(files@.len() == after.len());
    }
    DownloadedSet::from_files(work_dir, files)
}

impl DownloadedSet {
    /// The result of a download whose files were found in `work_dir`: an error
    /// when there are none.
    pub fn from_files(work_dir: String, files: Vec<DownloadedFile>) -> (r: Result<DownloadedSet, DownloadError>)
        ensures
            files@.len() == 0 ==> r == Err::<DownloadedSet, DownloadError>(DownloadError::NoMediaFiles),
            files@.len() > 0 ==> r == Ok::<DownloadedSet, DownloadError>(DownloadedSet { work_dir, files }),
    {
        if files.len() == 0 {
            Err(DownloadError::NoMediaFiles)
        } else {
            Ok(DownloadedSet { work_dir, files })
        }
    }
}

/// How many times a metadata probe is tried before giving up.
pub const PROBE_ATTEMPTS: usize = 3;

/// The message of a failed metadata probe, from yt-dlp's last error output.
pub open spec fn probe_failure_spec(stderr: Seq<char>) -> Seq<char> {
    "yt-dlp metadata probe failed: "@ + trim_by(stderr, TrimSet::Whitespace)
}

/// How long to wait after a failed metadata probe, in milliseconds.
pub const PROBE_RETRY_DELAY_MS: u64 = 500;

/// What comes after a metadata probe attempt. After a failed attempt the caller
/// first waits `PROBE_RETRY_DELAY_MS`, whether it tries again or gives up.
pub enum ProbeStep {
    /// The attempt succeeded: read its output.
    Parse,
    /// Try again.
    Retry,
    /// Give up with this message.
    GiveUp(String),
}

/// The step after attempt number `attempt` (counting from one) ended, with
/// `succeeded` telling whether yt-dlp exited successfully and `stderr` its
/// error output: read the output on success; after a failure try again while
/// fewer than `PROBE_ATTEMPTS` attempts were made, else give up with the
/// failure message of that last attempt.
pub fn after_probe_attempt(attempt: usize, succeeded: bool, stderr: &str) -> (r: ProbeStep)
    ensures
        succeeded ==> r is Parse,
        !succeeded && attempt < PROBE_ATTEMPTS ==> r is Retry,
        !succeeded && attempt >= PROBE_ATTEMPTS ==> (r matches ProbeStep::GiveUp(m) && m@ == probe_failure_spec(stderr@)),
{
    if succeeded {
        ProbeStep::Parse
    } else if attempt < PROBE_ATTEMPTS {
        ProbeStep::Retry
    } else {
        ProbeStep::GiveUp(probe_failure_message(stderr))
    }
}

/// The message of a failed download, from yt-dlp's error output.
pub open spec fn download_failure_spec(stderr: Seq<char>) -> Seq<char> {
    "yt-dlp download failed: "@ + trim_by(stderr, TrimSet::Whitespace)
}

/// The message of a failed metadata probe.
pub fn probe_failure_message(stderr: &str) -> (r: String)
    ensures
        r@ == probe_failure_spec(stderr@),
{
    let mut s = "yt-dlp metadata probe failed: ".to_owned();
    let t = trim_whitespace(stderr);
    s.append(t.as_str());
    s
}

/// The message of a failed download.
pub fn download_failure_message(stderr: &str) -> (r: String)
    ensures
        r@ == download_failure_spec(stderr@),
{
    let mut s = "yt-dlp download failed: ".to_owned();
    let t = trim_whitespace(stderr);
    s.append(t.as_str());
    s
}

/// The position of the last `%` in a line.
pub open spec fn last_percent(s: Seq<char>) -> Option<int>
    decreases s.len(),
{
    if s.len() == 0 {
        None
    } else if s.last() == '%' {
        Some(s.len() - 1)
    } else {
        last_percent(s.drop_last())
    }
}

/// A character that can be part of a progress number.
pub open spec fn is_number_char(c: char) -> bool {
    is_digit(c) || c == '.'
}

/// Where the run of number characters at the end of `b` begins.
pub open spec fn number_start(b: Seq<char>) -> int
    decreases b.len(),
{
    if b.len() == 0 {
        0
    } else if !is_number_char(b.last()) {
        b.len() as int
    } else {
        number_start(b.drop_last())
    }
}

/// The number text in front of the last `%` of a progress line, if the line has a `%`.
pub open spec fn percent_text_spec(line: Seq<char>) -> Option<Seq<char>> {
    match last_percent(line) {
        None => None,
        Some(p) => {
            let b = line.subrange(0, p);
            Some(b.subrange(number_start(b), p))
        },
    }
}

/// The lines on which the number is found: the character just in front of the
/// number, if any, is ASCII (the progress lines of yt-dlp are). On other lines
/// the byte arithmetic of the search would cut a character in two.
pub open spec fn percent_line_ok(line: Seq<char>) -> bool {
    match last_percent(line) {
        None => true,
        Some(p) => {
            let b = line.subrange(0, p);
            let st = number_start(b);
            st == 0 || (b[st - 1] as u32) < 128
        },
    }
}

/// Whether `percent_text` accepts a line.
pub fn percent_line_accepted(line: &str) -> (r: bool)
    ensures
        r == percent_line_ok(line@),
{
    let v = chars_of(line);
    match find_percent(&v) {
        None => true,
        Some(p) => {
            let st = find_number_start(&v, p);
            st == 0 || (v[st - 1] as u32) < 128
        },
    }
}

fn find_percent(v: &Vec<char>) -> (r: Option<usize>)
    ensures
        match r {
            Some(p) => last_percent(v@) == Some(p as int) && p < v@.len(),
            None => last_percent(v@) is None,
        },
{
    let mut k: usize = v.len();
    assert(v@.subrange(0, k as int) =~= v@);
    while k > 0
        invariant
            k <= v@.len(),
            last_percent(v@) == last_percent(v@.subrange(0, k as int)),
        decreases k,
    {
        if v[k - 1] == '%' {
            return Some(k - 1);
        }
        assert(v@.subrange(0, k as int).drop_last() =~= v@.subrange(0, k - 1));
        k = k - 1;
    }
    None
}

fn find_number_start(v: &Vec<char>, p: usize) -> (st: usize)
    requires
        p <= v@.len(),
    ensures
        st == number_start(v@.subrange(0, p as int)),
        st <= p,
{
    let mut k: usize = p;
    while k > 0 && ('0' <= v[k - 1] && v[k - 1] <= '9' || v[k - 1] == '.')
        invariant
            k <= p <= v@.len(),
            number_start(v@.subrange(0, p as int)) == number_start(v@.subrange(0, k as int)),
        decreases k,
    {
        assert(v@.subrange(0, k as int).drop_last() =~= v@.subrange(0, k - 1));
        k = k - 1;
    }
    k
}

/// The text of the percentage in a yt-dlp progress line: the digits and dots
/// in front of its last `%`.
pub fn percent_text(line: &str) -> (r: Option<String>)
    requires
        percent_line_ok(line@),
    ensures
        r.deep_view() == percent_text_spec(line@),
{
    let v = chars_of(line);
    match find_percent(&v) {
        None => None,
        Some(p) => {
            let st = find_number_start(&v, p);
            let mut out: Vec<char> = Vec::new();
            let mut i: usize = st;
            while i < p
                invariant
                    st <= i <= p < v@.len(),
                    out@ == v@.subrange(st as int, i as int),
                decreases p - i,
            {
                out.push(v[i]);
                assert(out@ =~= v@.subrange(st as int, i + 1));
                i = i + 1;
            }
            assert(v@.subrange(0, p as int).subrange(st as int, p as int) =~= v@.subrange(st as int, p as int));
            Some(string_of(out.as_slice()))
        },
    }
}

/// What a metadata probe of a link starts from: the site and the link without
/// surrounding white space; an error when the link is refused.
pub fn probe_request(raw_url: &str) -> (r: Result<(Source, String), SourceError>)
    ensures
        match r {
            Ok((s, u)) => source_from_lookup(url_host_of(raw_url@)) == Ok::<Source, SourceError>(s)
                && u@ == trim_by(raw_url@, TrimSet::Whitespace),
            Err(e) => source_from_lookup(url_host_of(raw_url@)) == Err::<Source, SourceError>(e),
        },
{
    let source = Source::from_url(raw_url)?;
    Ok((source, trim_whitespace(raw_url)))
}

/// A Spotify link is probed as a YouTube search for the track's title.
pub fn spotify_probe(title: &str) -> (r: (Source, String))
    ensures
        r.0 == Source::YouTube,
        r.1@ == spotify_search_spec(title@),
{
    (Source::YouTube, spotify_search(title))
}

/// An audio download always asks yt-dlp to extract the audio as MP3 of the
/// best quality, whatever the site and the link: right after the common
/// arguments come `--extract-audio --audio-format mp3 --audio-quality 0`, and
/// the link comes last.
pub proof fn lemma_audio_is_extracted_as_mp3(source: Source, url: Seq<char>)
    ensures
        audio_args_spec(source, url).len() >= 6,
        audio_args_spec(source, url).subrange(0, 5) == seq![
            "--extract-audio"@,
            "--audio-format"@,
            "mp3"@,
            "--audio-quality"@,
            "0"@,
        ],
        audio_args_spec(source, url).last() == url,
{
    let a = audio_args_spec(source, url);
    assert(a.subrange(0, 5) =~= seq!["--extract-audio"@, "--audio-format"@, "mp3"@, "--audio-quality"@, "0"@]);
}

/// A video download that is neither an Instagram carousel nor from Pinterest
/// always asks for the quality the user picked: its arguments begin with
/// `--format` and the selector of that quality, they do not depend on which
/// such site it is, and the link comes last.
pub proof fn lemma_video_uses_picked_quality(
    source: Source,
    other: Source,
    quality: VideoQuality,
    url: Seq<char>,
)
    requires
        source != Source::Pinterest,
        other != Source::Pinterest,
    ensures
        video_args_spec(source, quality, false, url).len() >= 3,
        video_args_spec(source, quality, false, url)[0] == "--format"@,
        video_args_spec(source, quality, false, url)[1] == quality_format_selector(quality),
        video_args_spec(source, quality, false, url).last() == url,
        video_args_spec(source, quality, false, url) == video_args_spec(other, quality, false, url),
{
}

} // verus!
