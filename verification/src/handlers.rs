//! What a chat message or a button press asks the bot to do.

use vstd::prelude::*;
use crate::source::{source_from_lookup, url_host_of, Source};
use crate::jobs::PendingJob;
use crate::media::MediaInfo;
use crate::models::{
    download_kind_name, quality_cache_key, quality_callback_value, quality_from_callback, DownloadKind,
    VideoQuality,
};
use crate::text::{
    char_vecs_view, chars_eq, lacks, lemma_split_append, lemma_split_single, split_chars, split_on,
    chars_of, has_prefix, in_trim_set, trim_end_by, is_white, is_whitespace, leading_word, lemma_leading_word,
    lemma_trim_start_suffix, starts_with, string_of, trim_by, trim_chars, trim_start_by, TrimSet,
};

verus! {

/// A word that is a web link.
pub open spec fn is_link(t: Seq<char>) -> bool {
    has_prefix(t, "http://"@) || has_prefix(t, "https://"@)
}

/// The first white-space separated word of `s` that is a web link.
pub open spec fn first_link(s: Seq<char>) -> Option<Seq<char>>
    decreases s.len(),
{
    let s1 = trim_start_by(s, TrimSet::Whitespace);
    if s1.len() == 0 {
        None
    } else {
        let w = leading_word(s1);
        if is_link(w) {
            Some(w)
        } else {
            proof {
                lemma_trim_start_suffix(s, TrimSet::Whitespace);
                lemma_leading_word(s1);
            }
            first_link(s1.subrange(w.len() as int, s1.len() as int))
        }
    }
}

/// The link a message carries: its first word that starts with `http://` or
/// `https://`, without the brackets, commas and semicolons around it.
pub open spec fn extracted_url(s: Seq<char>) -> Option<Seq<char>> {
    match first_link(s) {
        Some(w) => Some(trim_by(w, TrimSet::LinkPunctuation)),
        None => None,
    }
}

/// The link in a message text, if there is one.
pub fn extract_url(text: &str) -> (r: Option<String>)
    ensures
        r.deep_view() == extracted_url(text@),
{
    let v = chars_of(text);
    let n = v.len();
    let mut i: usize = 0;
    assert(v@.subrange(0, n as int) =~= v@);
    let http = chars_of("http://");
    let https = chars_of("https://");
    while i < n
        invariant
            n == v@.len(),
            i <= n,
            v@ == text@,
            http@ == "http://"@,
            https@ == "https://"@,
            first_link(v@) == first_link(v@.subrange(i as int, n as int)),
        decreases n - i,
    {
        let ghost start = i;
        let mut a: usize = i;
        while a < n && is_whitespace(v[a])
            invariant
                n == v@.len(),
                start <= a <= n,
                trim_start_by(v@.subrange(start as int, n as int), TrimSet::Whitespace) == trim_start_by(
                    v@.subrange(a as int, n as int),
                    TrimSet::Whitespace,
                ),
            decreases n - a,
        {
            assert(v@.subrange(a as int, n as int).drop_first() =~= v@.subrange(a + 1, n as int));
            a = a + 1;
        }
        let ghost s1 = v@.subrange(a as int, n as int);
        assert(trim_start_by(s1, TrimSet::Whitespace) == s1);
        if a == n {
            assert(s1.len() == 0);
            i = n;
            assert(first_link(v@.subrange(start as int, n as int)) is None);
            return None;
        }
        let mut b: usize = a;
        while b < n && !is_whitespace(v[b])
            invariant
                n == v@.len(),
                a <= b <= n,
                forall|k: int| a <= k < b ==> !is_white(#[trigger] v@[k]),
            decreases n - b,
        {
            b = b + 1;
        }
        let mut word: Vec<char> = Vec::new();
        let mut k: usize = a;
        while k < b
            invariant
                a <= k <= b <= n,
                n == v@.len(),
                word@ == v@.subrange(a as int, k as int),
            decreases b - k,
        {
            word.push(v[k]);
            assert(word@ =~= v@.subrange(a as int, k + 1));
            k = k + 1;
        }
        proof {
            lemma_leading_word(s1);
            let l = leading_word(s1).len() as int;
            if l < b - a {
                assert(!is_white(v@[a + l]));
                assert(s1[l] == v@[a + l]);
            }
            if l > b - a {
                assert(s1[b - a] == v@[b as int]);
                assert(!is_white(s1[b - a]));
            }
            assert(leading_word(s1) =~= word@);
        }
        if starts_with(word.as_slice(), http.as_slice()) || starts_with(word.as_slice(), https.as_slice()) {
            let t = trim_chars(word.as_slice(), TrimSet::LinkPunctuation);
            return Some(string_of(t.as_slice()));
        }
        assert(s1.subrange((b - a) as int, s1.len() as int) =~= v@.subrange(b as int, n as int));
        i = b;
    }
    assert(v@.subrange(n as int, n as int).len() == 0);
    assert(trim_start_by(v@.subrange(n as int, n as int), TrimSet::Whitespace).len() == 0);
    None
}

/// What a button press asks for, over plain character sequences.
pub enum CallbackRequest {
    /// Save this language as the user's choice.
    Language(Seq<char>),
    /// Download the pending request under this token as audio or video.
    Format(Seq<char>, DownloadKind),
    /// Download the pending request under this token as video of this quality.
    Quality(Seq<char>, VideoQuality),
    /// Nothing to do.
    Nothing,
}

/// What a button press asks the bot to do.
pub enum CallbackAction {
    Language(String),
    Format(String, DownloadKind),
    Quality(String, VideoQuality),
    Nothing,
}

impl View for CallbackAction {
    type V = CallbackRequest;

    open spec fn view(&self) -> CallbackRequest {
        match self {
            CallbackAction::Language(c) => CallbackRequest::Language(c@),
            CallbackAction::Format(t, k) => CallbackRequest::Format(t@, *k),
            CallbackAction::Quality(t, q) => CallbackRequest::Quality(t@, *q),
            CallbackAction::Nothing => CallbackRequest::Nothing,
        }
    }
}

/// `format:<token>:audio` or `format:<token>:video`, exactly three parts.
pub open spec fn parsed_format(data: Seq<char>) -> Option<(Seq<char>, DownloadKind)> {
    let p = split_on(data, ':');
    if p.len() == 3 && p[0] == "format"@ && p[2] == "audio"@ {
        Some((p[1], DownloadKind::Audio))
    } else if p.len() == 3 && p[0] == "format"@ && p[2] == "video"@ {
        Some((p[1], DownloadKind::Video))
    } else {
        None
    }
}

/// `quality:<token>:<value>`, exactly three parts, with a value that reads as a quality.
pub open spec fn parsed_quality(data: Seq<char>) -> Option<(Seq<char>, VideoQuality)> {
    let p = split_on(data, ':');
    if p.len() == 3 && p[0] == "quality"@ {
        match quality_from_callback(p[2]) {
            Some(q) => Some((p[1], q)),
            None => None,
        }
    } else {
        None
    }
}

/// What a button press asks for. `lang:` presses count without a message; the
/// others only when the press came from a regular message of the bot.
pub open spec fn callback_request(data: Option<Seq<char>>, has_message: bool) -> CallbackRequest {
    match data {
        None => CallbackRequest::Nothing,
        Some(d) => if has_prefix(d, "lang:"@) {
            CallbackRequest::Language(d.subrange(5, d.len() as int))
        } else if !has_message {
            CallbackRequest::Nothing
        } else {
            match parsed_format(d) {
                Some((t, k)) => CallbackRequest::Format(t, k),
                None => match parsed_quality(d) {
                    Some((t, q)) => CallbackRequest::Quality(t, q),
                    None => CallbackRequest::Nothing,
                },
            }
        },
    }
}

/// Reads `format:<token>:<kind>` callback data.
pub fn parse_format_callback(data: &str) -> (r: Option<(String, DownloadKind)>)
    ensures
        match r {
            Some((t, k)) => parsed_format(data@) == Some((t@, k)),
            None => parsed_format(data@) is None,
        },
{
    let v = chars_of(data);
    let parts = split_chars(v.as_slice(), ':');
    if parts.len() != 3 {
        return None;
    }
    let ghost pv = char_vecs_view(parts@);
    assert(pv[0] == parts@[0]@ && pv[1] == parts@[1]@ && pv[2] == parts@[2]@);
    let fmt = chars_of("format");
    if !chars_eq(parts[0].as_slice(), fmt.as_slice()) {
        return None;
    }
    let audio = chars_of("audio");
    let video = chars_of("video");
    if chars_eq(parts[2].as_slice(), audio.as_slice()) {
        Some((string_of(parts[1].as_slice()), DownloadKind::Audio))
    } else if chars_eq(parts[2].as_slice(), video.as_slice()) {
        Some((string_of(parts[1].as_slice()), DownloadKind::Video))
    } else {
        None
    }
}

/// Reads `quality:<token>:<value>` callback data.
pub fn parse_quality_callback(data: &str) -> (r: Option<(String, VideoQuality)>)
    ensures
        match r {
            Some((t, q)) => parsed_quality(data@) == Some((t@, q)),
            None => parsed_quality(data@) is None,
        },
{
    let v = chars_of(data);
    let parts = split_chars(v.as_slice(), ':');
    if parts.len() != 3 {
        return None;
    }
    let ghost pv = char_vecs_view(parts@);
    assert(pv[0] == parts@[0]@ && pv[1] == parts@[1]@ && pv[2] == parts@[2]@);
    let qual = chars_of("quality");
    if !chars_eq(parts[0].as_slice(), qual.as_slice()) {
        return None;
    }
    let value = string_of(parts[2].as_slice());
    match VideoQuality::from_callback(value.as_str()) {
        Some(q) => Some((string_of(parts[1].as_slice()), q)),
        None => None,
    }
}

/// Decides what a button press asks for; `has_message` tells whether it came
/// from a regular message of the bot.
pub fn route_callback(data: Option<&str>, has_message: bool) -> (r: CallbackAction)
    ensures
        r@ == callback_request(data.deep_view(), has_message),
{
    match data {
        None => CallbackAction::Nothing,
        Some(d) => {
            let v = chars_of(d);
            let lang = chars_of("lang:");
            if starts_with(v.as_slice(), lang.as_slice()) {
                let mut rest: Vec<char> = Vec::new();
                let mut i: usize = 5;
                proof {
                    reveal_strlit("lang:");
                }
                assert(lang@.len() == 5);
                while i < v.len()
                    invariant
                        5 <= i <= v@.len(),
                        rest@ == v@.subrange(5, i as int),
                    decreases v@.len() - i,
                {
                    rest.push(v[i]);
                    assert(rest@ =~= v@.subrange(5, i + 1));
                    i = i + 1;
                }
                return CallbackAction::Language(string_of(rest.as_slice()));
            }
            if !has_message {
                return CallbackAction::Nothing;
            }
            match parse_format_callback(d) {
                Some((t, k)) => CallbackAction::Format(t, k),
                None => match parse_quality_callback(d) {
                    Some((t, q)) => CallbackAction::Quality(t, q),
                    None => CallbackAction::Nothing,
                },
            }
        },
    }
}

/// An inline keyboard button: its text and the data it sends back.
pub struct Button {
    pub text: String,
    pub data: String,
}

impl View for Button {
    type V = (Seq<char>, Seq<char>);

    open spec fn view(&self) -> (Seq<char>, Seq<char>) {
        (self.text@, self.data@)
    }
}

/// The rows of a keyboard, each button by its text and data.
pub open spec fn keyboard_view(rows: Seq<Vec<Button>>) -> Seq<Seq<(Seq<char>, Seq<char>)>> {
    rows.map_values(|r: Vec<Button>| r@.map_values(|b: Button| b@))
}

/// `rows` lays out `items` in rows of `n`: read in order they give back the
/// items, every row but the last is full, and no row is empty or too long.
pub open spec fn laid_out<T>(rows: Seq<Seq<T>>, items: Seq<T>, n: nat) -> bool {
    &&& rows.flatten() == items
    &&& forall|r: int| 0 <= r < rows.len() - 1 ==> (#[trigger] rows[r]).len() == n
    &&& forall|r: int| 0 <= r < rows.len() ==> 0 < (#[trigger] rows[r]).len() <= n
}

/// The data of the button that downloads a pending request as `kind`.
pub open spec fn format_button_data(token: Seq<char>, kind: DownloadKind) -> Seq<char> {
    "format:"@ + token + ":"@ + download_kind_name(kind)
}

/// The data of the button that downloads a pending request in quality `q`.
pub open spec fn quality_button_data(token: Seq<char>, q: VideoQuality) -> Seq<char> {
    "quality:"@ + token + ":"@ + quality_callback_value(q)
}

/// The data of the button that picks a language.
pub open spec fn language_button_data(code: Seq<char>) -> Seq<char> {
    "lang:"@ + code
}

/// The button of a quality.
pub open spec fn quality_button(token: Seq<char>, q: VideoQuality) -> (Seq<char>, Seq<char>) {
    (quality_cache_key(q), quality_button_data(token, q))
}

fn make_button(text: String, data: String) -> (b: Button)
    ensures
        b@ == (text@, data@),
{
    Button { text, data }
}

/// The keyboard that asks for audio or video.
pub fn format_keyboard(token: &str, video_text: String, audio_text: String) -> (rows: Vec<Vec<Button>>)
    ensures
        keyboard_view(rows@) == seq![
            seq![
                (video_text@, format_button_data(token@, DownloadKind::Video)),
                (audio_text@, format_button_data(token@, DownloadKind::Audio)),
            ],
        ],
{
    let mut vd = "format:".to_owned();
    vd.append(token);
    vd.append(":video");
    let mut ad = "format:".to_owned();
    ad.append(token);
    ad.append(":audio");
    proof {
        reveal_strlit("video");
        reveal_strlit("audio");
        reveal_strlit(":video");
        reveal_strlit(":audio");
        reveal_strlit(":");
        assert(vd@ =~= format_button_data(token@, DownloadKind::Video));
        assert(ad@ =~= format_button_data(token@, DownloadKind::Audio));
    }
    let mut row: Vec<Button> = Vec::new();
    row.push(make_button(video_text, vd));
    row.push(make_button(audio_text, ad));
    let mut rows: Vec<Vec<Button>> = Vec::new();
    rows.push(row);
    assert(keyboard_view(rows@) =~~= seq![
        seq![
            (video_text@, format_button_data(token@, DownloadKind::Video)),
            (audio_text@, format_button_data(token@, DownloadKind::Audio)),
        ],
    ]);
    rows
}

/// The keyboard of quality buttons, three to a row.
pub fn quality_keyboard(token: &str, qualities: &[VideoQuality]) -> (rows: Vec<Vec<Button>>)
    ensures
        laid_out(keyboard_view(rows@), qualities@.map_values(|q: VideoQuality| quality_button(token@, q)), 3),
{
    let ghost items = qualities@.map_values(|q: VideoQuality| quality_button(token@, q));
    let mut rows: Vec<Vec<Button>> = Vec::new();
    let mut cur: Vec<Button> = Vec::new();
    let mut i: usize = 0;
    while i < qualities.len()
        invariant
            i <= qualities@.len(),
            items == qualities@.map_values(|q: VideoQuality| quality_button(token@, q)),
            keyboard_view(rows@).flatten() + cur@.map_values(|b: Button| b@) == items.subrange(0, i as int),
            forall|r: int| 0 <= r < rows@.len() ==> (#[trigger] keyboard_view(rows@)[r]).len() == 3,
            cur@.len() < 3,
        decreases qualities@.len() - i,
    {
        let q = qualities[i];
        let text = q.label();
        let mut data = "quality:".to_owned();
        data.append(token);
        data.append(":");
        let value = q.callback_value();
        data.append(value.as_str());
        let b = make_button(text, data);
        assert(b@ == items[i as int]);
        let ghost before_rows = keyboard_view(rows@);
        let ghost before_cur = cur@.map_values(|b: Button| b@);
        cur.push(b);
        assert(cur@.map_values(|b: Button| b@) =~= before_cur.push(items[i as int]));
        assert(items.subrange(0, i + 1) =~= items.subrange(0, i as int).push(items[i as int]));
        if cur.len() == 3 {
            let full = cur;
            cur = Vec::new();
            rows.push(full);
            proof {
                assert(keyboard_view(rows@) =~= before_rows.push(full@.map_values(|b: Button| b@)));
                before_rows.lemma_flatten_push(full@.map_values(|b: Button| b@));
                assert(cur@.map_values(|b: Button| b@) =~= Seq::<(Seq<char>, Seq<char>)>::empty());
            }
        }
        i = i + 1;
    }
    let ghost before_rows = keyboard_view(rows@);
    if cur.len() > 0 {
        let last = cur;
        rows.push(last);
        proof {
            assert(keyboard_view(rows@) =~= before_rows.push(last@.map_values(|b: Button| b@)));
            before_rows.lemma_flatten_push(last@.map_values(|b: Button| b@));
        }
    } else {
        assert(before_rows.flatten() + Seq::<(Seq<char>, Seq<char>)>::empty() =~= before_rows.flatten());
    }
    assert(items.subrange(0, qualities@.len() as int) =~= items);
    rows
}

/// Pressing the audio or video button of a pending request asks for exactly that
/// request and kind (tokens never contain `:`).
pub proof fn lemma_format_button_routes(token: Seq<char>, kind: DownloadKind)
    requires
        lacks(token, ':'),
    ensures
        callback_request(Some(format_button_data(token, kind)), true) == CallbackRequest::Format(token, kind),
{
    reveal_strlit("format:");
    reveal_strlit("format");
    reveal_strlit(":");
    reveal_strlit("audio");
    reveal_strlit("video");
    reveal_strlit("lang:");
    let name = download_kind_name(kind);
    let d = format_button_data(token, kind);
    assert("format:"@ =~= "format"@ + seq![':']);
    assert(d =~= ("format"@ + seq![':'] + token) + seq![':'] + name);
    assert(lacks("format"@, ':'));
    assert(lacks(name, ':'));
    lemma_split_single("format"@, ':');
    lemma_split_append("format"@, ':', token);
    lemma_split_append("format"@ + seq![':'] + token, ':', name);
    assert(split_on(d, ':') =~= seq!["format"@, token, name]);
    assert(!has_prefix(d, "lang:"@)) by {
        assert(d[0] == 'f');
        assert("lang:"@[0] == 'l');
        if d.len() >= 5 {
            assert(d.subrange(0, 5)[0] == d[0]);
        }
    }
    assert("audio"@ != "video"@) by {
        assert("audio"@[0] != "video"@[0]);
    }
}

/// Pressing the button of a quality asks for exactly that request and quality.
pub proof fn lemma_quality_button_routes(token: Seq<char>, q: VideoQuality)
    requires
        lacks(token, ':'),
    ensures
        callback_request(Some(quality_button_data(token, q)), true) == CallbackRequest::Quality(token, q),
{
    reveal_strlit("quality:");
    reveal_strlit("quality");
    reveal_strlit(":");
    reveal_strlit("best");
    reveal_strlit("lang:");
    reveal_strlit("format");
    let value = quality_callback_value(q);
    let d = quality_button_data(token, q);
    assert("quality:"@ =~= "quality"@ + seq![':']);
    assert(d =~= ("quality"@ + seq![':'] + token) + seq![':'] + value);
    assert(lacks("quality"@, ':'));
    assert(lacks(value, ':')) by {
        if let VideoQuality::Height(h) = q {
            crate::text::lemma_decimal(h as nat);
            assert forall|i: int| 0 <= i < value.len() implies value[i] != ':' by {
                assert(crate::text::is_digit(value[i]));
            }
        }
    }
    lemma_split_single("quality"@, ':');
    lemma_split_append("quality"@, ':', token);
    lemma_split_append("quality"@ + seq![':'] + token, ':', value);
    assert(split_on(d, ':') =~= seq!["quality"@, token, value]);
    assert(!has_prefix(d, "lang:"@)) by {
        assert(d[0] == 'q');
        assert("lang:"@[0] == 'l');
        if d.len() >= 5 {
            assert(d.subrange(0, 5)[0] == d[0]);
        }
    }
    assert("quality"@ != "format"@) by {
        assert("quality"@[0] != "format"@[0]);
    }
    crate::models::lemma_quality_callback_roundtrip(q);
}

/// Pressing a language button asks for exactly that language, whatever message
/// it came from.
pub proof fn lemma_language_button_routes(code: Seq<char>, has_message: bool)
    ensures
        callback_request(Some(language_button_data(code)), has_message) == CallbackRequest::Language(code),
{
    reveal_strlit("lang:");
    let d = language_button_data(code);
    assert(d.subrange(0, 5) =~= "lang:"@);
    assert(d.subrange(5, d.len() as int) =~= code);
}

/// What a chat message asks for, over plain character sequences.
pub enum MessageRequest {
    /// No text, or no link in it.
    NotALink,
    /// `/start`: greet and offer the languages.
    Welcome,
    /// `/language` or `/lang`: offer the languages.
    LanguageMenu,
    /// A link to a site the bot does not serve.
    Unsupported,
    /// A link to analyse.
    Analyze(Seq<char>),
}

/// What a chat message asks the bot to do.
pub enum MessageAction {
    NotALink,
    Welcome,
    LanguageMenu,
    Unsupported,
    Analyze(String),
}

impl View for MessageAction {
    type V = MessageRequest;

    open spec fn view(&self) -> MessageRequest {
        match self {
            MessageAction::NotALink => MessageRequest::NotALink,
            MessageAction::Welcome => MessageRequest::Welcome,
            MessageAction::LanguageMenu => MessageRequest::LanguageMenu,
            MessageAction::Unsupported => MessageRequest::Unsupported,
            MessageAction::Analyze(u) => MessageRequest::Analyze(u@),
        }
    }
}

/// What a message with this text (or without text) asks for.
pub open spec fn message_request(text: Option<Seq<char>>) -> MessageRequest {
    match text {
        None => MessageRequest::NotALink,
        Some(t) => if has_prefix(t, "/start"@) {
            MessageRequest::Welcome
        } else if has_prefix(t, "/language"@) || has_prefix(t, "/lang"@) {
            MessageRequest::LanguageMenu
        } else {
            match extracted_url(t) {
                None => MessageRequest::NotALink,
                Some(u) => if source_from_lookup(url_host_of(u)) is Err {
                    MessageRequest::Unsupported
                } else {
                    MessageRequest::Analyze(u)
                },
            }
        },
    }
}

/// Decides what a chat message asks for.
pub fn classify_message(text: Option<&str>) -> (r: MessageAction)
    ensures
        r@ == message_request(text.deep_view()),
{
    match text {
        None => MessageAction::NotALink,
        Some(t) => {
            let v = chars_of(t);
            let start = chars_of("/start");
            let language = chars_of("/language");
            let lang = chars_of("/lang");
            if starts_with(v.as_slice(), start.as_slice()) {
                MessageAction::Welcome
            } else if starts_with(v.as_slice(), language.as_slice()) || starts_with(
                v.as_slice(),
                lang.as_slice(),
            ) {
                MessageAction::LanguageMenu
            } else {
                match extract_url(t) {
                    None => MessageAction::NotALink,
                    Some(u) => {
                        if Source::from_url(u.as_str()).is_err() {
                            MessageAction::Unsupported
                        } else {
                            MessageAction::Analyze(u)
                        }
                    },
                }
            }
        },
    }
}

/// The request kept for a probed link, for the user who sent it: none when the
/// message has no sender, and the bot then answers that it works in private
/// chats only.
pub fn pending_job(url: String, info: MediaInfo, language_code: String, sender: Option<u64>) -> (r: Option<PendingJob>)
    ensures
        match sender {
            None => r is None,
            Some(id) => r == Some((PendingJob { url, info, language_code, user_id: id })),
        },
{
    match sender {
        None => None,
        Some(id) => Some(PendingJob { url, info, language_code, user_id: id }),
    }
}

/// Everything a download needs once the user has chosen.
pub struct DownloadPlan {
    pub url: String,
    pub kind: DownloadKind,
    /// The cache key of the quality: `mp3` for audio.
    pub quality_key: String,
    pub quality: Option<VideoQuality>,
    pub language_code: String,
    pub carousel: bool,
    /// How many cached files make a complete cache hit.
    pub expected_cache_items: usize,
    /// Title and performer shown with a sent audio file.
    pub title: Option<String>,
    pub performer: Option<String>,
}

/// The plan of an audio download of a pending request.
pub open spec fn is_audio_plan(p: DownloadPlan, job: PendingJob) -> bool {
    &&& p.url@ == job.url@
    &&& p.kind == DownloadKind::Audio
    &&& p.quality_key@ == "mp3"@
    &&& p.quality is None
    &&& p.language_code@ == job.language_code@
    &&& !p.carousel
    &&& p.expected_cache_items == 1
    &&& p.title.deep_view() == job.info.title.deep_view()
    &&& p.performer.deep_view() == job.info.uploader.deep_view()
}

/// The plan of a video download of a pending request in quality `q`: an
/// Instagram carousel is complete in the cache with one file per slide.
pub open spec fn is_video_plan(p: DownloadPlan, job: PendingJob, q: VideoQuality) -> bool {
    let carousel = job.info.source == Source::Instagram && job.info.entries_count > 1;
    &&& p.url@ == job.url@
    &&& p.kind == DownloadKind::Video
    &&& p.quality_key@ == quality_cache_key(q)
    &&& p.quality == Some(q)
    &&& p.language_code@ == job.language_code@
    &&& p.carousel == carousel
    &&& p.expected_cache_items == (if carousel {
        if job.info.entries_count > 1 { job.info.entries_count } else { 1 }
    } else {
        1
    })
    &&& p.title.deep_view() == job.info.title.deep_view()
    &&& p.performer.deep_view() == job.info.uploader.deep_view()
}

fn clone_text(s: &Option<String>) -> (r: Option<String>)
    ensures
        r.deep_view() == s.deep_view(),
{
    match s {
        Some(t) => Some(t.clone()),
        None => None,
    }
}

/// What to do when the user picks audio or video.
pub enum FormatDecision {
    /// The request is gone or expired.
    Expired,
    /// Someone else pressed the button.
    NotYourRequest,
    /// Audio was asked for but the media has none.
    AudioNotAvailable,
    /// Download now.
    Download(DownloadPlan),
    /// Offer the qualities of the video.
    ChooseQuality,
}

/// Decides what picking `kind` does, given the pending request (if it is still
/// alive) and the user who pressed the button.
pub fn decide_format(job: Option<&PendingJob>, from_user: u64, kind: DownloadKind) -> (r: FormatDecision)
    ensures
        match job {
            None => r is Expired,
            Some(j) => if j.user_id != from_user {
                r is NotYourRequest
            } else if kind == DownloadKind::Video {
                r is ChooseQuality
            } else if !j.info.has_audio {
                r is AudioNotAvailable
            } else {
                r matches FormatDecision::Download(p) && is_audio_plan(p, *j)
            },
        },
{
    match job {
        None => FormatDecision::Expired,
        Some(j) => {
            if j.user_id != from_user {
                FormatDecision::NotYourRequest
            } else {
                match kind {
                    DownloadKind::Audio => {
                        if !j.info.has_audio {
                            FormatDecision::AudioNotAvailable
                        } else {
                            FormatDecision::Download(
                                DownloadPlan {
                                    url: j.url.clone(),
                                    kind: DownloadKind::Audio,
                                    quality_key: "mp3".to_owned(),
                                    quality: None,
                                    language_code: j.language_code.clone(),
                                    carousel: false,
                                    expected_cache_items: 1,
                                    title: clone_text(&j.info.title),
                                    performer: clone_text(&j.info.uploader),
                                },
                            )
                        }
                    },
                    DownloadKind::Video => FormatDecision::ChooseQuality,
                }
            }
        },
    }
}

/// What to do when the user picks a quality.
pub enum QualityDecision {
    Expired,
    NotYourRequest,
    Download(DownloadPlan),
}

/// Decides what picking quality `q` does, given the pending request taken out
/// of the store (if it was still alive) and the user who pressed the button.
pub fn decide_quality(job: Option<PendingJob>, from_user: u64, q: VideoQuality) -> (r: QualityDecision)
    ensures
        match job {
            None => r is Expired,
            Some(j) => if j.user_id != from_user {
                r is NotYourRequest
            } else {
                r matches QualityDecision::Download(p) && is_video_plan(p, j, q)
            },
        },
{
    match job {
        None => QualityDecision::Expired,
        Some(j) => {
            if j.user_id != from_user {
                QualityDecision::NotYourRequest
            } else {
                let carousel = j.info.is_carousel();
                let expected: usize = if carousel {
                    if j.info.entries_count > 1 {
                        j.info.entries_count
                    } else {
                        1
                    }
                } else {
                    1
                };
                let quality_key = q.cache_key();
                QualityDecision::Download(
                    DownloadPlan {
                        url: j.url,
                        kind: DownloadKind::Video,
                        quality_key,
                        quality: Some(q),
                        language_code: j.language_code,
                        carousel,
                        expected_cache_items: expected,
                        title: j.info.title,
                        performer: j.info.uploader,
                    },
                )
            }
        },
    }
}

impl DownloadPlan {
    /// Whether the files found in the cache are enough to answer from it.
    pub fn cache_is_complete(&self, cached_count: usize) -> (r: bool)
        ensures
            r == (cached_count >= self.expected_cache_items),
    {
        cached_count >= self.expected_cache_items
    }
}

/// The qualities as one line: their labels joined by `, `.
pub open spec fn quality_list_spec(qs: Seq<VideoQuality>) -> Seq<char>
    decreases qs.len(),
{
    if qs.len() == 0 {
        seq![]
    } else if qs.len() == 1 {
        quality_cache_key(qs[0])
    } else {
        quality_list_spec(qs.drop_last()) + ", "@ + quality_cache_key(qs.last())
    }
}

/// The qualities on offer as one line of text.
pub fn quality_list(qualities: &[VideoQuality]) -> (r: String)
    ensures
        r@ == quality_list_spec(qualities@),
{
    let mut s = String::new();
    let mut i: usize = 0;
    while i < qualities.len()
        invariant
            i <= qualities@.len(),
            s@ == quality_list_spec(qualities@.subrange(0, i as int)),
        decreases qualities@.len() - i,
    {
        let ghost pre = qualities@.subrange(0, i as int);
        let ghost post = qualities@.subrange(0, i + 1);
        assert(post.drop_last() =~= pre);
        let label = qualities[i].label();
        if i > 0 {
            s.append(", ");
        } else {
            assert(s@ =~= Seq::<char>::empty());
        }
        s.append(label.as_str());
        assert(s@ =~= quality_list_spec(post));
        i = i + 1;
    }
    assert(qualities@.subrange(0, qualities@.len() as int) =~= qualities@);
    s
}

proof fn lemma_first_link_is_link(s: Seq<char>)
    ensures
        first_link(s) matches Some(w) ==> is_link(w),
    decreases s.len(),
{
    let s1 = trim_start_by(s, TrimSet::Whitespace);
    if s1.len() > 0 {
        let w = leading_word(s1);
        if !is_link(w) {
            lemma_trim_start_suffix(s, TrimSet::Whitespace);
            lemma_leading_word(s1);
            lemma_first_link_is_link(s1.subrange(w.len() as int, s1.len() as int));
        }
    }
}

proof fn lemma_trim_end_keeps_prefix(s: Seq<char>, p: Seq<char>)
    requires
        has_prefix(s, p),
        p.len() > 0,
        !in_trim_set(p.last(), TrimSet::LinkPunctuation),
    ensures
        has_prefix(trim_end_by(s, TrimSet::LinkPunctuation), p),
    decreases s.len(),
{
    if s.len() > 0 && in_trim_set(s.last(), TrimSet::LinkPunctuation) {
        if s.len() == p.len() {
            assert(s.subrange(0, p.len() as int) == p);
            assert(s.last() == s.subrange(0, p.len() as int).last());
        }
        assert(s.drop_last().subrange(0, p.len() as int) =~= s.subrange(0, p.len() as int));
        lemma_trim_end_keeps_prefix(s.drop_last(), p);
    }
}

/// The link taken from a message always starts with `http://` or `https://`:
/// trimming brackets and punctuation never eats into the scheme.
pub proof fn lemma_extracted_url_is_link(text: Seq<char>)
    ensures
        extracted_url(text) matches Some(u) ==> is_link(u),
{
    lemma_first_link_is_link(text);
    if let Some(w) = first_link(text) {
        reveal_strlit("http://");
        reveal_strlit("https://");
        let p = if has_prefix(w, "http://"@) { "http://"@ } else { "https://"@ };
        assert(w[0] == w.subrange(0, p.len() as int)[0]);
        assert(w[0] == 'h');
        assert(trim_start_by(w, TrimSet::LinkPunctuation) == w);
        lemma_trim_end_keeps_prefix(w, p);
    }
}

} // verus!
