//! How downloaded or cached files are sent to the chat, what is remembered of
//! them, and how download progress is reported.

use vstd::prelude::*;
use crate::models::{DownloadKind, MediaKind};
use crate::text::push_char;

verus! {

/// Whether files of this kind can go into a Telegram media group.
pub open spec fn groupable(kind: MediaKind) -> bool {
    kind == MediaKind::Photo || kind == MediaKind::Video
}

/// Whether files of this kind can go into a Telegram media group.
pub fn supports_media_group(kind: MediaKind) -> (r: bool)
    ensures
        r == groupable(kind),
{
    match kind {
        MediaKind::Photo | MediaKind::Video => true,
        _ => false,
    }
}

/// One message to send: a single file, or a media group of the files with
/// indices `start..end`.
#[derive(Debug, Clone, Copy, PartialEq, Eq, Structural)]
pub enum SendStep {
    Single(usize),
    Group(usize, usize),
}

/// Telegram takes at most this many files in one media group.
pub const MEDIA_GROUP_LIMIT: usize = 10;

/// Each file on its own, in order.
pub open spec fn singles(n: nat) -> Seq<SendStep> {
    Seq::new(n, |i: int| SendStep::Single(i as usize))
}

/// Files `start..n` in media groups of ten; a chunk of one file goes alone.
pub open spec fn group_steps(n: nat, start: nat) -> Seq<SendStep>
    decreases n - start,
{
    if start >= n {
        seq![]
    } else {
        let end: nat = if start + 10 < n { start + 10 } else { n };
        let step = if end - start == 1 {
            SendStep::Single(start as usize)
        } else {
            SendStep::Group(start as usize, end as usize)
        };
        seq![step] + group_steps(n, end)
    }
}

/// Every kind in the list can go into a media group.
pub open spec fn all_groupable(kinds: Seq<MediaKind>) -> bool {
    forall|i: int| 0 <= i < kinds.len() ==> groupable(#[trigger] kinds[i])
}

/// How files found in the cache are sent: one file alone; a list with a file
/// that cannot be grouped one by one; otherwise in media groups of ten.
pub open spec fn cached_plan(kinds: Seq<MediaKind>) -> Seq<SendStep> {
    if kinds.len() == 1 {
        seq![SendStep::Single(0)]
    } else if !all_groupable(kinds) {
        singles(kinds.len())
    } else {
        group_steps(kinds.len(), 0)
    }
}

/// How freshly downloaded files are sent: audio, or a list with a file that
/// cannot be grouped, one by one; one file alone; otherwise in media groups of ten.
pub open spec fn downloaded_plan(kinds: Seq<MediaKind>, kind: DownloadKind) -> Seq<SendStep> {
    if kind == DownloadKind::Audio || !all_groupable(kinds) {
        singles(kinds.len())
    } else if kinds.len() == 1 {
        seq![SendStep::Single(0)]
    } else {
        group_steps(kinds.len(), 0)
    }
}

fn all_support_media_group(kinds: &[MediaKind]) -> (r: bool)
    ensures
        r == all_groupable(kinds@),
{
    let mut i: usize = 0;
    while i < kinds.len()
        invariant
            i <= kinds@.len(),
            forall|k: int| 0 <= k < i ==> groupable(#[trigger] kinds@[k]),
        decreases kinds@.len() - i,
    {
        if !supports_media_group(kinds[i]) {
            return false;
        }
        i = i + 1;
    }
    true
}

fn single_steps(n: usize) -> (r: Vec<SendStep>)
    ensures
        r@ == singles(n as nat),
{
    let mut r: Vec<SendStep> = Vec::new();
    let mut i: usize = 0;
    while i < n
        invariant
            i <= n,
            r@ == singles(i as nat),
        decreases n - i,
    {
        r.push(SendStep::Single(i));
        assert(r@ =~= singles((i + 1) as nat));
        i = i + 1;
    }
    r
}

fn grouped_steps(n: usize) -> (r: Vec<SendStep>)
    ensures
        r@ == group_steps(n as nat, 0),
{
    let mut r: Vec<SendStep> = Vec::new();
    let mut start: usize = 0;
    while start < n
        invariant
            start <= n,
            group_steps(n as nat, 0) == r@ + group_steps(n as nat, start as nat),
        decreases n - start,
    {
        let end: usize = if n - start > MEDIA_GROUP_LIMIT { start + MEDIA_GROUP_LIMIT } else { n };
        let step = if end - start == 1 {
            SendStep::Single(start)
        } else {
            SendStep::Group(start, end)
        };
        let ghost before = r@;
        r.push(step);
        assert(group_steps(n as nat, start as nat) == seq![step] + group_steps(n as nat, end as nat));
        assert(before + group_steps(n as nat, start as nat) =~= r@ + group_steps(n as nat, end as nat));
        start = end;
    }
    assert(r@ + group_steps(n as nat, start as nat) =~= r@);
    r
}

/// How to send the files found in the cache, by their kinds.
pub fn plan_cached_sends(kinds: &[MediaKind]) -> (r: Vec<SendStep>)
    ensures
        r@ == cached_plan(kinds@),
{
    if kinds.len() == 1 {
        let mut r: Vec<SendStep> = Vec::new();
        r.push(SendStep::Single(0));
        assert(r@ =~= seq![SendStep::Single(0)]);
        r
    } else if !all_support_media_group(kinds) {
        single_steps(kinds.len())
    } else {
        grouped_steps(kinds.len())
    }
}

/// How to send freshly downloaded files, by their kinds and what was asked for.
pub fn plan_downloaded_sends(kinds: &[MediaKind], kind: DownloadKind) -> (r: Vec<SendStep>)
    ensures
        r@ == downloaded_plan(kinds@, kind),
{
    if kind == DownloadKind::Audio || !all_support_media_group(kinds) {
        single_steps(kinds.len())
    } else if kinds.len() == 1 {
        let mut r: Vec<SendStep> = Vec::new();
        r.push(SendStep::Single(0));
        assert(r@ =~= seq![SendStep::Single(0)]);
        r
    } else {
        grouped_steps(kinds.len())
    }
}

/// The indices `a..b` in order.
pub open spec fn index_range(a: int, b: int) -> Seq<int> {
    Seq::new((if b > a { b - a } else { 0 }) as nat, |k: int| a + k)
}

/// The files that one step sends, by index.
pub open spec fn step_files(s: SendStep) -> Seq<int> {
    match s {
        SendStep::Single(i) => seq![i as int],
        SendStep::Group(a, b) => index_range(a as int, b as int),
    }
}

/// The files that a plan sends, by index, in sending order.
pub open spec fn plan_files(p: Seq<SendStep>) -> Seq<int> {
    p.map_values(|s: SendStep| step_files(s)).flatten()
}

/// Every media group of a plan has between two and ten files.
pub open spec fn groups_well_sized(p: Seq<SendStep>) -> bool {
    forall|i: int| 0 <= i < p.len() ==> match #[trigger] p[i] {
        SendStep::Group(a, b) => 2 <= b - a <= 10,
        SendStep::Single(_) => true,
    }
}

proof fn lemma_group_steps(n: nat, start: nat)
    requires
        start <= n <= usize::MAX,
    ensures
        plan_files(group_steps(n, start)) == index_range(start as int, n as int),
        groups_well_sized(group_steps(n, start)),
    decreases n - start,
{
    if start < n {
        let end: nat = if start + 10 < n { start + 10 } else { n };
        lemma_group_steps(n, end);
        let rest = group_steps(n, end);
        let step = group_steps(n, start)[0];
        assert(group_steps(n, start) =~= seq![step] + rest);
        let mapped = group_steps(n, start).map_values(|s: SendStep| step_files(s));
        assert(mapped =~= seq![step_files(step)] + rest.map_values(|s: SendStep| step_files(s)));
        assert(mapped.drop_first() =~= rest.map_values(|s: SendStep| step_files(s)));
        assert(step_files(step) =~= index_range(start as int, end as int));
        assert(index_range(start as int, end as int) + index_range(end as int, n as int) =~= index_range(
            start as int,
            n as int,
        ));
        assert forall|i: int| 0 <= i < group_steps(n, start).len() implies match #[trigger] group_steps(n, start)[i] {
            SendStep::Group(a, b) => 2 <= b - a <= 10,
            SendStep::Single(_) => true,
        } by {
            if i > 0 {
                assert(group_steps(n, start)[i] == rest[i - 1]);
            }
        }
    } else {
        assert(index_range(start as int, n as int) =~= Seq::<int>::empty());
        assert(group_steps(n, start).map_values(|s: SendStep| step_files(s)) =~= Seq::<Seq<int>>::empty());
    }
}

proof fn lemma_singles(n: nat)
    requires
        n <= usize::MAX,
    ensures
        plan_files(singles(n)) == index_range(0, n as int),
        groups_well_sized(singles(n)),
    decreases n,
{
    broadcast use Seq::lemma_flatten_push;
    if n > 0 {
        lemma_singles((n - 1) as nat);
        let m = (n - 1) as nat;
        assert(singles(n) =~= singles(m).push(SendStep::Single(m as usize)));
        assert(singles(n).map_values(|s: SendStep| step_files(s)) =~= singles(m).map_values(
            |s: SendStep| step_files(s),
        ).push(seq![m as int]));
        assert(index_range(0, n as int) =~= index_range(0, m as int).push(m as int));
    } else {
        assert(singles(0).map_values(|s: SendStep| step_files(s)) =~= Seq::<Seq<int>>::empty());
        assert(index_range(0, 0) =~= Seq::<int>::empty());
    }
}

/// Files found in the cache are each sent exactly once, in their order, and
/// every media group holds two to ten files.
pub proof fn lemma_cached_plan_sends_each_once(kinds: Seq<MediaKind>)
    requires
        kinds.len() <= usize::MAX,
    ensures
        plan_files(cached_plan(kinds)) == index_range(0, kinds.len() as int),
        groups_well_sized(cached_plan(kinds)),
{
    if kinds.len() == 1 {
        lemma_singles(1);
        assert(singles(1) =~= seq![SendStep::Single(0)]);
    } else if !all_groupable(kinds) {
        lemma_singles(kinds.len());
    } else {
        lemma_group_steps(kinds.len(), 0);
    }
}

/// Downloaded files are each sent exactly once, in their order, and every
/// media group holds two to ten files.
pub proof fn lemma_downloaded_plan_sends_each_once(kinds: Seq<MediaKind>, kind: DownloadKind)
    requires
        kinds.len() <= usize::MAX,
    ensures
        plan_files(downloaded_plan(kinds, kind)) == index_range(0, kinds.len() as int),
        groups_well_sized(downloaded_plan(kinds, kind)),
{
    if kind == DownloadKind::Audio || !all_groupable(kinds) {
        lemma_singles(kinds.len());
    } else if kinds.len() == 1 {
        lemma_singles(1);
        assert(singles(1) =~= seq![SendStep::Single(0)]);
    } else {
        lemma_group_steps(kinds.len(), 0);
    }
}

/// A Telegram file as a sent message reports it.
#[derive(Debug, Clone)]
pub struct FileRef {
    pub id: String,
    pub unique_id: String,
}

/// The file a sent message carries, as it is cached.
#[derive(Debug, Clone)]
pub struct SentFile {
    pub kind: MediaKind,
    pub file_id: String,
    pub file_unique_id: Option<String>,
}

/// The file a sent message carries, by what the message holds: its audio, else
/// its video, else its largest photo size (none when the sizes are empty), else
/// its document.
pub open spec fn sent_file_spec(
    audio: Option<FileRef>,
    video: Option<FileRef>,
    photo: Option<Seq<FileRef>>,
    document: Option<FileRef>,
) -> Option<(MediaKind, Seq<char>, Seq<char>)> {
    match audio {
        Some(f) => Some((MediaKind::Audio, f.id@, f.unique_id@)),
        None => match video {
            Some(f) => Some((MediaKind::Video, f.id@, f.unique_id@)),
            None => match photo {
                Some(sizes) => if sizes.len() == 0 {
                    None
                } else {
                    Some((MediaKind::Photo, sizes.last().id@, sizes.last().unique_id@))
                },
                None => match document {
                    Some(f) => Some((MediaKind::Document, f.id@, f.unique_id@)),
                    None => None,
                },
            },
        },
    }
}

/// The photo sizes of a message, as a sequence.
pub open spec fn photo_sizes(photo: Option<Vec<FileRef>>) -> Option<Seq<FileRef>> {
    match photo {
        Some(v) => Some(v@),
        None => None,
    }
}

fn sent(kind: MediaKind, f: FileRef) -> (r: SentFile)
    ensures
        r.kind == kind,
        r.file_id@ == f.id@,
        r.file_unique_id.deep_view() == Some(f.unique_id@),
{
    SentFile { kind, file_id: f.id, file_unique_id: Some(f.unique_id) }
}

/// Picks the file that a sent message carries.
pub fn pick_sent_file(
    audio: Option<FileRef>,
    video: Option<FileRef>,
    photo: Option<Vec<FileRef>>,
    document: Option<FileRef>,
) -> (r: Option<SentFile>)
    ensures
        match r {
            Some(f) => sent_file_spec(audio, video, photo_sizes(photo), document)
                == Some((f.kind, f.file_id@, f.file_unique_id.deep_view()->0)) && f.file_unique_id is Some,
            None => sent_file_spec(audio, video, photo_sizes(photo), document) is None,
        },
{
    match audio {
        Some(f) => Some(sent(MediaKind::Audio, f)),
        None => match video {
            Some(f) => Some(sent(MediaKind::Video, f)),
            None => match photo {
                Some(mut sizes) => {
                    if sizes.len() == 0 {
                        None
                    } else {
                        let last = sizes.pop().unwrap();
                        Some(sent(MediaKind::Photo, last))
                    }
                },
                None => match document {
                    Some(f) => Some(sent(MediaKind::Document, f)),
                    None => None,
                },
            },
        },
    }
}

/// A row to write into the file cache.
#[derive(Debug, Clone)]
pub struct CacheRecord {
    pub item_index: i64,
    pub file_type: MediaKind,
    pub file_id: String,
    pub file_unique_id: Option<String>,
}

/// The position under which the `i`-th sent message is cached: the item index of
/// the `i`-th downloaded file, or `i` itself when there is no such file.
pub open spec fn item_index_at(indices: Seq<i64>, i: int) -> int {
    if i < indices.len() {
        indices[i] as int
    } else {
        i
    }
}

/// The records cached for the sent messages: one for each message that carries
/// a file, in order.
pub open spec fn cache_records_spec(indices: Seq<i64>, sent: Seq<Option<SentFile>>) -> Seq<(int, MediaKind, Seq<char>, Option<Seq<char>>)>
    decreases sent.len(),
{
    if sent.len() == 0 {
        seq![]
    } else {
        let i = sent.len() - 1;
        cache_records_spec(indices, sent.drop_last()) + match sent.last() {
            Some(f) => seq![(item_index_at(indices, i), f.kind, f.file_id@, f.file_unique_id.deep_view())],
            None => seq![],
        }
    }
}

/// A cache record as plain values.
pub open spec fn record_view(r: CacheRecord) -> (int, MediaKind, Seq<char>, Option<Seq<char>>) {
    (r.item_index as int, r.file_type, r.file_id@, r.file_unique_id.deep_view())
}

/// The records to cache for the messages sent for a download whose files had
/// the item indices `indices`.
pub fn cache_records(indices: &[i64], sent: Vec<Option<SentFile>>) -> (r: Vec<CacheRecord>)
    requires
        sent@.len() <= i64::MAX,
    ensures
        r@.map_values(|c: CacheRecord| record_view(c)) == cache_records_spec(indices@, sent@),
{
    let ghost all = sent@;
    let n = sent.len();
    let mut rev: Vec<Option<SentFile>> = Vec::new();
    let mut rest = sent;
    while rest.len() > 0
        invariant
            rev@.len() + rest@.len() == n,
            n == all.len(),
            rest@ == all.subrange(0, rest@.len() as int),
            forall|k: int| 0 <= k < rev@.len() ==> rev@[k] == all[n - 1 - k],
        decreases rest@.len(),
    {
        let e = rest.pop().unwrap();
        rev.push(e);
    }
    let mut out: Vec<CacheRecord> = Vec::new();
    let mut i: usize = 0;
    while i < n
        invariant
            n == all.len(),
            n <= i64::MAX,
            i <= n,
            rev@.len() == n - i,
            forall|k: int| 0 <= k < rev@.len() ==> rev@[k] == all[n - 1 - k],
            out@.map_values(|c: CacheRecord| record_view(c)) == cache_records_spec(indices@, all.subrange(0, i as int)),
        decreases n - i,
    {
        let e = rev.pop().unwrap();
        assert(e == all[i as int]);
        let ghost before = out@.map_values(|c: CacheRecord| record_view(c));
        assert(all.subrange(0, i + 1).drop_last() =~= all.subrange(0, i as int));
        match e {
            Some(f) => {
                let item_index: i64 = if i < indices.len() { indices[i] } else { i as i64 };
                out.push(CacheRecord { item_index, file_type: f.kind, file_id: f.file_id, file_unique_id: f.file_unique_id });
                assert(out@.map_values(|c: CacheRecord| record_view(c)) =~= cache_records_spec(indices@, all.subrange(0, i + 1)));
            },
            None => {
                assert(out@.map_values(|c: CacheRecord| record_view(c)) =~= cache_records_spec(indices@, all.subrange(0, i + 1)));
            },
        }
        i = i + 1;
    }
    assert(all.subrange(0, n as int) =~= all);
    out
}

/// How a single file is sent.
#[derive(Debug, Clone, Copy, PartialEq, Eq, Structural)]
pub enum SendMethod {
    /// As audio, with title and performer.
    Audio,
    /// As streamable video, with the title as caption.
    Video,
    Photo,
    Document,
}

/// How a single downloaded file is sent: audio downloads as audio; otherwise by
/// the file's kind, with anything but photos and videos as a document.
pub open spec fn downloaded_method(kind: DownloadKind, media: MediaKind) -> SendMethod {
    match kind {
        DownloadKind::Audio => SendMethod::Audio,
        DownloadKind::Video => match media {
            MediaKind::Photo => SendMethod::Photo,
            MediaKind::Video => SendMethod::Video,
            _ => SendMethod::Document,
        },
    }
}

/// How a single downloaded file is sent.
pub fn send_method_for_download(kind: DownloadKind, media: MediaKind) -> (r: SendMethod)
    ensures
        r == downloaded_method(kind, media),
{
    match kind {
        DownloadKind::Audio => SendMethod::Audio,
        DownloadKind::Video => match media {
            MediaKind::Photo => SendMethod::Photo,
            MediaKind::Video => SendMethod::Video,
            _ => SendMethod::Document,
        },
    }
}

/// How many of the twelve cells of the progress bar are filled at `percent`.
pub open spec fn filled_cells(percent: u8) -> int {
    (percent as int * 12) / 100
}

/// The progress bar text: `[`, filled cells as `#`, empty ones as `-`, `]`.
pub open spec fn progress_bar_spec(percent: u8) -> Seq<char> {
    seq!['['] + Seq::new(filled_cells(percent) as nat, |i: int| '#') + Seq::new(
        (12 - filled_cells(percent)) as nat,
        |i: int| '-',
    ) + seq![']']
}

/// The text of a progress bar of twelve cells. Percentages over 108 would fill
/// more than twelve cells and are not accepted.
pub fn progress_bar(percent: u8) -> (r: String)
    requires
        filled_cells(percent) <= 12,
    ensures
        r@ == progress_bar_spec(percent),
{
    let filled: usize = (percent as usize * 12) / 100;
    let empty: usize = 12 - filled;
    let mut s = String::new();
    push_char(&mut s, '[');
    let mut i: usize = 0;
    while i < filled
        invariant
            i <= filled,
            s@ == seq!['['] + Seq::new(i as nat, |k: int| '#'),
        decreases filled - i,
    {
        push_char(&mut s, '#');
        assert(s@ =~= seq!['['] + Seq::new((i + 1) as nat, |k: int| '#'));
        i = i + 1;
    }
    let mut j: usize = 0;
    while j < empty
        invariant
            j <= empty,
            s@ == seq!['['] + Seq::new(filled as nat, |k: int| '#') + Seq::new(j as nat, |k: int| '-'),
        decreases empty - j,
    {
        push_char(&mut s, '-');
        assert(s@ =~= seq!['['] + Seq::new(filled as nat, |k: int| '#') + Seq::new((j + 1) as nat, |k: int| '-'));
        j = j + 1;
    }
    push_char(&mut s, ']');
    assert(s@ =~= progress_bar_spec(percent));
    s
}

/// The progress bar always has twelve cells between its brackets, and more
/// progress never fills fewer of them.
pub proof fn lemma_progress_bar_shape(p: u8, q: u8)
    requires
        filled_cells(q) <= 12,
        p <= q,
    ensures
        progress_bar_spec(q).len() == 14,
        filled_cells(p) <= filled_cells(q),
{
    assert(p as int * 12 <= q as int * 12);
    assert((p as int * 12) / 100 <= (q as int * 12) / 100) by (nonlinear_arith)
        requires
            p as int * 12 <= q as int * 12,
            0 <= p as int * 12;
}

/// When the progress message was last edited, and with which percentage.
pub struct ProgressThrottle {
    last_percent: u8,
    /// In milliseconds on the caller's clock; may lie up to five seconds before its zero.
    last_update_ms: i128,
}

/// Whether a new percentage is shown, `elapsed` milliseconds after the last
/// edit: not when nothing changed within two seconds, and, short of 100%, not
/// within 900 ms of the last edit.
pub open spec fn reports(last_percent: u8, elapsed: int, rounded: u8) -> bool {
    !(rounded == last_percent && elapsed < 2000) && !(elapsed < 900 && rounded < 100)
}

/// Time since an edit at `last`, read at `now`; a reading before `last` counts as none.
pub open spec fn elapsed_since(last: i128, now: u64) -> int {
    if now as int > last as int {
        now as int - last as int
    } else {
        0
    }
}

impl ProgressThrottle {
    #[verifier::type_invariant]
    spec fn clock_ok(self) -> bool {
        self.last_update_ms >= -5000
    }

    /// The percentage last shown.
    pub closed spec fn shown_percent(self) -> u8 {
        self.last_percent
    }

    /// When the last edit happened.
    pub closed spec fn shown_at(self) -> i128 {
        self.last_update_ms
    }

    /// A throttle that shows the first percentage at once: the last edit is
    /// taken to be five seconds before `now_ms`, at 0%.
    pub fn new(now_ms: u64) -> (r: Self)
        ensures
            r.shown_percent() == 0,
            r.shown_at() == now_ms as int - 5000,
    {
        ProgressThrottle { last_percent: 0, last_update_ms: now_ms as i128 - 5000 }
    }

    /// Whether to show `rounded` percent at `now_ms`; when it is shown it
    /// becomes the last edit.
    pub fn should_report(&mut self, rounded: u8, now_ms: u64) -> (r: bool)
        ensures
            r == reports(old(self).shown_percent(), elapsed_since(old(self).shown_at(), now_ms), rounded),
            r ==> final(self).shown_percent() == rounded && final(self).shown_at() == now_ms as int,
            !r ==> final(self).shown_percent() == old(self).shown_percent() && final(self).shown_at()
                == old(self).shown_at(),
    {
        proof {
            use_type_invariant(&*self);
        }
        let now: i128 = now_ms as i128;
        let elapsed: i128 = if now > self.last_update_ms { now - self.last_update_ms } else { 0 };
        if rounded == self.last_percent && elapsed < 2000 {
            return false;
        }
        if elapsed < 900 && rounded < 100 {
            return false;
        }
        self.last_percent = rounded;
        self.last_update_ms = now;
        true
    }
}

/// Which updates of a stream of progress updates (rounded percentage, clock
/// reading) a throttle shows, starting from the last edit `last_p` at
/// `last_t`: each is decided as `ProgressThrottle::should_report` decides it,
/// and a shown one becomes the last edit.
pub open spec fn shown_flags(last_p: u8, last_t: i128, ev: Seq<(u8, u64)>) -> Seq<bool>
    decreases ev.len(),
{
    if ev.len() == 0 {
        seq![]
    } else {
        let show = reports(last_p, elapsed_since(last_t, ev[0].1), ev[0].0);
        seq![show] + if show {
            shown_flags(ev[0].0, ev[0].1 as i128, ev.drop_first())
        } else {
            shown_flags(last_p, last_t, ev.drop_first())
        }
    }
}

/// A clock that does not go back and starts no earlier than `start`.
pub open spec fn steady_clock(start: int, ev: Seq<(u8, u64)>) -> bool {
    &&& forall|k: int| 0 <= k < ev.len() ==> start <= (#[trigger] ev[k]).1
    &&& forall|a: int, b: int| 0 <= a < b < ev.len() ==> (#[trigger] ev[a]).1 <= (#[trigger] ev[b]).1
}

proof fn lemma_shown_spacing(last_p: u8, last_t: i128, ev: Seq<(u8, u64)>)
    requires
        steady_clock(last_t as int, ev),
    ensures
        shown_flags(last_p, last_t, ev).len() == ev.len(),
        forall|j: int|
            0 <= j < ev.len() && #[trigger] shown_flags(last_p, last_t, ev)[j] && ev[j].0 < 100 ==> ev[j].1 >= last_t
                + 900,
        forall|i: int, j: int|
            0 <= i < j < ev.len() && #[trigger] shown_flags(last_p, last_t, ev)[i] && #[trigger] shown_flags(
                last_p,
                last_t,
                ev,
            )[j] && ev[j].0 < 100 ==> ev[j].1 >= ev[i].1 + 900,
    decreases ev.len(),
{
    if ev.len() > 0 {
        let f = shown_flags(last_p, last_t, ev);
        let rest = ev.drop_first();
        let show = reports(last_p, elapsed_since(last_t, ev[0].1), ev[0].0);
        let (np, nt) = if show { (ev[0].0, ev[0].1 as i128) } else { (last_p, last_t) };
        assert(steady_clock(nt as int, rest)) by {
            assert forall|k: int| 0 <= k < rest.len() implies nt <= (#[trigger] rest[k]).1 by {
                assert(rest[k] == ev[k + 1]);
                assert(ev[0].1 <= ev[k + 1].1);
            }
            assert forall|a: int, b: int| 0 <= a < b < rest.len() implies (#[trigger] rest[a]).1 <= (
            #[trigger] rest[b]).1 by {
                assert(rest[a] == ev[a + 1] && rest[b] == ev[b + 1]);
            }
        }
        lemma_shown_spacing(np, nt, rest);
        let g = shown_flags(np, nt, rest);
        assert(f == seq![show] + g);
        assert forall|j: int| 0 <= j < ev.len() && #[trigger] f[j] && ev[j].0 < 100 implies ev[j].1 >= last_t + 900 by {
            if j > 0 {
                assert(f[j] == g[j - 1]);
                assert(ev[j] == rest[j - 1]);
                assert(nt >= last_t) by {
                    assert(ev[0].1 >= last_t);
                }
            }
        }
        assert forall|i: int, j: int|
            0 <= i < j < ev.len() && #[trigger] f[i] && #[trigger] f[j] && ev[j].0 < 100 implies ev[j].1 >= ev[i].1 + 900 by {
            assert(f[j] == g[j - 1]);
            assert(ev[j] == rest[j - 1]);
            if i > 0 {
                assert(f[i] == g[i - 1]);
                assert(ev[i] == rest[i - 1]);
            }
        }
    }
}

/// Over a stream of progress updates read on a clock that does not go back,
/// with a throttle made by `ProgressThrottle::new(start)`: the first update is
/// always shown, and a shown update below 100% comes at least 900 ms after
/// every earlier shown one.
pub proof fn lemma_progress_stream(start: u64, ev: Seq<(u8, u64)>)
    requires
        steady_clock(start as int, ev),
    ensures
        shown_flags(0, (start - 5000) as i128, ev).len() == ev.len(),
        ev.len() > 0 ==> shown_flags(0, (start - 5000) as i128, ev)[0],
        forall|i: int, j: int|
            0 <= i < j < ev.len() && #[trigger] shown_flags(0, (start - 5000) as i128, ev)[i] && #[trigger] shown_flags(
                0,
                (start - 5000) as i128,
                ev,
            )[j] && ev[j].0 < 100 ==> ev[j].1 >= ev[i].1 + 900,
{
    let t0: i128 = (start - 5000) as i128;
    assert(steady_clock(t0 as int, ev)) by {
        assert forall|k: int| 0 <= k < ev.len() implies t0 <= (#[trigger] ev[k]).1 by {}
    }
    lemma_shown_spacing(0, t0, ev);
}

/// An audio download is always sent as audio (with its title and performer),
/// whatever kind of file yt-dlp left; a video download is sent by the kind of
/// each file: photos as photos, videos as streamable videos, anything else as a
/// document, and never as audio.
pub proof fn lemma_send_method_by_download(media: MediaKind)
    ensures
        downloaded_method(DownloadKind::Audio, media) == SendMethod::Audio,
        downloaded_method(DownloadKind::Video, media) != SendMethod::Audio,
        (downloaded_method(DownloadKind::Video, media) == SendMethod::Photo) == (media == MediaKind::Photo),
        (downloaded_method(DownloadKind::Video, media) == SendMethod::Video) == (media == MediaKind::Video),
        (downloaded_method(DownloadKind::Video, media) == SendMethod::Document) == (media == MediaKind::Audio
            || media == MediaKind::Document),
{
}

} // verus!
