//! What yt-dlp reports about a link, and the summary the bot keeps of it.

use vstd::prelude::*;
use std::collections::BTreeSet;
use vstd::std_specs::iter::IteratorSpec;
use crate::text::{ascii_lower, chars_of, lower_chars, chars_eq};
use crate::source::Source;
use crate::models::VideoQuality;
use crate::order::lemma_increasing_u32;

verus! {

broadcast use vstd::std_specs::btree::group_btree_axioms;

/// One format entry of yt-dlp's metadata.
pub struct YtDlpFormat {
    pub height: Option<u32>,
    pub vcodec: Option<String>,
    pub acodec: Option<String>,
}

/// yt-dlp's metadata of a link (`--dump-single-json`), with the duration
/// already rounded to whole seconds.
pub struct YtDlpInfo {
    pub id: Option<String>,
    pub title: Option<String>,
    pub uploader: Option<String>,
    pub duration_seconds: Option<u64>,
    pub height: Option<u32>,
    pub vcodec: Option<String>,
    pub acodec: Option<String>,
    pub webpage_url: Option<String>,
    pub original_url: Option<String>,
    pub formats: Vec<YtDlpFormat>,
    pub entries: Vec<Option<YtDlpInfo>>,
}

/// A codec field names a codec: present and not `none` in any ASCII case.
pub open spec fn codec_active(codec: Option<Seq<char>>) -> bool {
    match codec {
        Some(c) => ascii_lower(c) != "none"@,
        None => false,
    }
}

/// The heights that one format contributes: its positive height if it has video.
pub open spec fn format_height(f: YtDlpFormat) -> Option<u32> {
    if codec_active(f.vcodec.deep_view()) {
        match f.height {
            Some(h) => if h > 0 { Some(h) } else { None },
            None => None,
        }
    } else {
        None
    }
}

/// The heights found in an info and its formats, its entries left out.
pub open spec fn own_heights(raw: YtDlpInfo) -> Set<u32> {
    let top = if codec_active(raw.vcodec.deep_view()) {
        match raw.height {
            Some(h) => if h > 0 { set![h] } else { Set::empty() },
            None => Set::empty(),
        }
    } else {
        Set::empty()
    };
    top.union(Set::new(|h: u32| exists|i: int| 0 <= i < raw.formats@.len() && format_height(#[trigger] raw.formats@[i]) == Some(h)))
}

/// All heights of an info, its formats and, recursively, its entries.
pub open spec fn info_heights(raw: YtDlpInfo) -> Set<u32>
    decreases raw,
{
    own_heights(raw).union(entries_heights(raw.entries@))
}

/// All heights of a list of entries.
pub open spec fn entries_heights(es: Seq<Option<YtDlpInfo>>) -> Set<u32>
    decreases es,
{
    if es.len() == 0 {
        Set::empty()
    } else {
        let last = match es.last() {
            Some(e) => info_heights(e),
            None => Set::empty(),
        };
        entries_heights(es.drop_last()).union(last)
    }
}

/// Whether an info, one of its formats, or recursively one of its entries names an audio codec.
pub open spec fn info_has_audio(raw: YtDlpInfo) -> bool
    decreases raw,
{
    codec_active(raw.acodec.deep_view())
        || (exists|i: int| 0 <= i < raw.formats@.len() && codec_active(#[trigger] raw.formats@[i].acodec.deep_view()))
        || entries_have_audio(raw.entries@)
}

/// Whether one of a list of entries has audio.
pub open spec fn entries_have_audio(es: Seq<Option<YtDlpInfo>>) -> bool
    decreases es,
{
    if es.len() == 0 {
        false
    } else {
        entries_have_audio(es.drop_last()) || match es.last() {
            Some(e) => info_has_audio(e),
            None => false,
        }
    }
}

/// Whether a codec field names a codec (`Some` and not `none`, ignoring ASCII case).
pub fn codec_present(codec: &Option<String>) -> (r: bool)
    ensures
        r == codec_active(codec.deep_view()),
{
    match codec {
        Some(c) => {
            let lowered = lower_chars(chars_of(c.as_str()).as_slice());
            let none = chars_of("none");
            !chars_eq(lowered.as_slice(), none.as_slice())
        },
        None => false,
    }
}

impl YtDlpFormat {
    pub fn has_video(&self) -> (r: bool)
        ensures
            r == codec_active(self.vcodec.deep_view()),
    {
        codec_present(&self.vcodec)
    }

    pub fn has_audio(&self) -> (r: bool)
        ensures
            r == codec_active(self.acodec.deep_view()),
    {
        codec_present(&self.acodec)
    }
}

/// Adds the heights and audio presence of `raw`, its formats and, recursively,
/// its entries.
pub fn collect_formats(raw: &YtDlpInfo, heights: &mut BTreeSet<u32>, has_audio: &mut bool)
    ensures
        final(heights)@ == old(heights)@.union(info_heights(*raw)),
        *final(has_audio) == (*old(has_audio) || info_has_audio(*raw)),
    decreases raw,
{
    let ghost h0 = heights@;
    let ghost a0 = *has_audio;
    if codec_present(&raw.acodec) {
        *has_audio = true;
    }
    if codec_present(&raw.vcodec) {
        match raw.height {
            Some(h) => {
                if h > 0 {
                    heights.insert(h);
                }
            },
            None => {},
        }
    }
    let ghost top = heights@;
    let mut i: usize = 0;
    while i < raw.formats.len()
        invariant
            i <= raw.formats@.len(),
            heights@ == top.union(Set::new(|h: u32| exists|k: int| 0 <= k < i && format_height(#[trigger] raw.formats@[k]) == Some(h))),
            *has_audio == (a0 || codec_active(raw.acodec.deep_view()) || exists|k: int| 0 <= k < i && codec_active(#[trigger] raw.formats@[k].acodec.deep_view())),
        decreases raw.formats@.len() - i,
    {
        let f = &raw.formats[i];
        if f.has_audio() {
            *has_audio = true;
        }
        if f.has_video() {
            match f.height {
                Some(h) => {
                    if h > 0 {
                        heights.insert(h);
                    }
                },
                None => {},
            }
        }
        proof {
            assert(heights@ =~= top.union(Set::new(|h: u32| exists|k: int| 0 <= k < i + 1 && format_height(#[trigger] raw.formats@[k]) == Some(h))));
        }
        i = i + 1;
    }
    assert(heights@ =~= h0.union(own_heights(*raw)));
    let mut j: usize = 0;
    while j < raw.entries.len()
        invariant
            j <= raw.entries@.len(),
            heights@ == h0.union(own_heights(*raw)).union(entries_heights(raw.entries@.subrange(0, j as int))),
            *has_audio == (a0 || codec_active(raw.acodec.deep_view())
                || (exists|k: int| 0 <= k < raw.formats@.len() && codec_active(#[trigger] raw.formats@[k].acodec.deep_view()))
                || entries_have_audio(raw.entries@.subrange(0, j as int))),
        decreases raw.entries@.len() - j,
    {
        let ghost pre = raw.entries@.subrange(0, j as int);
        let ghost post = raw.entries@.subrange(0, j + 1);
        assert(post.drop_last() =~= pre);
        match &raw.entries[j] {
            Some(e) => {
                assert(decreases_to!(raw => raw.entries));
                collect_formats(e, heights, has_audio);
            },
            None => {},
        }
        proof {
            assert(heights@ =~= h0.union(own_heights(*raw)).union(entries_heights(post)));
        }
        j = j + 1;
    }
    assert(raw.entries@.subrange(0, raw.entries@.len() as int) =~= raw.entries@);
    assert(heights@ =~= h0.union(info_heights(*raw)));
}

/// The elements of a set of heights in increasing order.
fn ascending_heights(heights: &BTreeSet<u32>) -> (v: Vec<u32>)
    ensures
        v@.to_set() == heights@,
        v@.len() == heights@.len(),
        forall|i: int, j: int| 0 <= i < j < v@.len() ==> v@[i] < v@[j],
{
    let ghost ks = vstd::std_specs::btree::spec_btree_keys_iter(heights).remaining().unref();
    proof {
        lemma_increasing_u32(vstd::std_specs::btree::spec_btree_keys_iter(heights).remaining());
    }
    let mut v: Vec<u32> = Vec::new();
    for x in it: heights.iter()
        invariant
            it.seq().unref() == ks,
            v@ == ks.subrange(0, it.index()),
    {
        v.push(*x);
        proof {
            assert(v@ =~= ks.subrange(0, it.index() + 1));
        }
    }
    assert(v@ =~= ks);
    v
}

/// `q` holds the `limit` greatest elements of `hs` (all of them when there are
/// fewer), greatest first.
pub open spec fn top_heights(q: Seq<u32>, hs: Set<u32>, limit: nat) -> bool {
    &&& q.len() == (if hs.len() < limit { hs.len() } else { limit })
    &&& forall|i: int, j: int| 0 <= i < j < q.len() ==> q[i] > q[j]
    &&& forall|i: int| 0 <= i < q.len() ==> hs.contains(#[trigger] q[i])
    &&& forall|h: u32| hs.contains(h) && !q.contains(h) ==> q.len() > 0 && h < q.last()
}

/// The height a quality caps at (`Best` has none; 0 stands for it here).
pub open spec fn quality_height(q: VideoQuality) -> u32 {
    match q {
        VideoQuality::Height(h) => h,
        VideoQuality::Best => 0,
    }
}

/// The qualities offered for the heights found: the eight greatest heights,
/// greatest first, or only `Best` when no height was found.
pub open spec fn offered_qualities(qs: Seq<VideoQuality>, hs: Set<u32>) -> bool {
    if hs.len() == 0 {
        qs == seq![VideoQuality::Best]
    } else {
        &&& forall|i: int| 0 <= i < qs.len() ==> (#[trigger] qs[i]) is Height
        &&& top_heights(qs.map_values(|q: VideoQuality| quality_height(q)), hs, 8)
    }
}

/// The qualities to offer for a set of heights.
pub fn qualities_from_heights(heights: &BTreeSet<u32>) -> (qs: Vec<VideoQuality>)
    ensures
        offered_qualities(qs@, heights@),
{
    let asc = ascending_heights(heights);
    let n = asc.len();
    let take: usize = if n < 8 { n } else { 8 };
    let mut qs: Vec<VideoQuality> = Vec::new();
    let mut k: usize = 0;
    while k < take
        invariant
            n == asc@.len(),
            take <= n,
            take <= 8,
            k <= take,
            qs@.len() == k,
            forall|i: int| 0 <= i < k ==> qs@[i] == VideoQuality::Height(asc@[n - 1 - i]),
        decreases take - k,
    {
        qs.push(VideoQuality::Height(asc[n - 1 - k]));
        k = k + 1;
    }
    if qs.len() == 0 {
        assert(heights@.len() == 0);
        qs.push(VideoQuality::Best);
        assert(qs@ =~= seq![VideoQuality::Best]);
        return qs;
    }
    let ghost hq = qs@.map_values(|q: VideoQuality| quality_height(q));
    assert forall|h: u32| heights@.contains(h) && !hq.contains(h) implies hq.len() > 0 && h < hq.last() by {
        assert(asc@.to_set().contains(h));
        let m = choose|m: int| 0 <= m < asc@.len() && asc@[m] == h;
        if m >= n - take {
            assert(hq[n - 1 - m] == h);
        }
        assert(hq.last() == asc@[n - take]);
    }
    assert forall|i: int| 0 <= i < hq.len() implies heights@.contains(#[trigger] hq[i]) by {
        assert(asc@.to_set().contains(asc@[n - 1 - i]));
    }
    qs
}

/// How many entries are present (yt-dlp lists missing entries as `null`).
pub open spec fn count_present(es: Seq<Option<YtDlpInfo>>) -> nat
    decreases es.len(),
{
    if es.len() == 0 {
        0
    } else {
        count_present(es.drop_last()) + if es.last() is Some {
            1nat
        } else {
            0nat
        }
    }
}

/// The summary the bot keeps of a probed link.
#[derive(Debug, Clone)]
pub struct MediaInfo {
    pub source: Source,
    pub webpage_url: String,
    pub title: Option<String>,
    pub uploader: Option<String>,
    pub duration_seconds: Option<u64>,
    pub qualities: Vec<VideoQuality>,
    pub entries_count: usize,
    pub has_audio: bool,
}

/// The page address kept for a link: yt-dlp's `webpage_url`, else its
/// `original_url`, else the link as given.
pub open spec fn page_url(raw: YtDlpInfo, input_url: Seq<char>) -> Seq<char> {
    match raw.webpage_url {
        Some(u) => u@,
        None => match raw.original_url {
            Some(u) => u@,
            None => input_url,
        },
    }
}

impl MediaInfo {
    /// An Instagram post with more than one slide.
    pub fn is_carousel(&self) -> (r: bool)
        ensures
            r == (self.source == Source::Instagram && self.entries_count > 1),
    {
        self.source == Source::Instagram && self.entries_count > 1
    }

    /// The title, or the page address when there is none.
    pub fn title_or_url(&self) -> (r: String)
        ensures
            r@ == match self.title {
                Some(t) => t@,
                None => self.webpage_url@,
            },
    {
        match &self.title {
            Some(t) => t.clone(),
            None => self.webpage_url.clone(),
        }
    }
}

/// Counts the entries that are present.
fn count_entries(es: &Vec<Option<YtDlpInfo>>) -> (n: usize)
    ensures
        n == count_present(es@),
{
    let mut n: usize = 0;
    let mut i: usize = 0;
    while i < es.len()
        invariant
            i <= es@.len(),
            n == count_present(es@.subrange(0, i as int)),
            n <= i,
        decreases es@.len() - i,
    {
        assert(es@.subrange(0, i + 1).drop_last() =~= es@.subrange(0, i as int));
        if es[i].is_some() {
            n = n + 1;
        }
        i = i + 1;
    }
    assert(es@.subrange(0, es@.len() as int) =~= es@);
    n
}

/// Summarises yt-dlp's metadata of `input_url`, which points to `source`.
pub fn media_info_from_raw(input_url: &str, source: Source, raw: YtDlpInfo) -> (m: MediaInfo)
    ensures
        m.source == source,
        m.webpage_url@ == page_url(raw, input_url@),
        m.title == (if raw.title is Some { raw.title } else { raw.id }),
        m.uploader == raw.uploader,
        m.duration_seconds == raw.duration_seconds,
        offered_qualities(m.qualities@, info_heights(raw)),
        m.entries_count == count_present(raw.entries@),
        m.has_audio == info_has_audio(raw),
{
    let mut heights: BTreeSet<u32> = BTreeSet::new();
    let mut has_audio = false;
    collect_formats(&raw, &mut heights, &mut has_audio);
    assert(heights@ =~= info_heights(raw));
    let qualities = qualities_from_heights(&heights);
    let entries_count = count_entries(&raw.entries);
    let webpage_url = match raw.webpage_url {
        Some(u) => u,
        None => match raw.original_url {
            Some(u) => u,
            None => input_url.to_owned(),
        },
    };
    let title = match raw.title {
        Some(t) => Some(t),
        None => raw.id,
    };
    MediaInfo {
        source,
        webpage_url,
        title,
        uploader: raw.uploader,
        duration_seconds: raw.duration_seconds,
        qualities,
        entries_count,
        has_audio,
    }
}

} // verus!
