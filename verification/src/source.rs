//! Which media site a link points to, decided from the link's host name.

use vstd::prelude::*;
use crate::text::{ascii_lower, chars_of, ends_with, has_suffix, str_eq, to_ascii_lowercase};

verus! {

/// The media sites the bot downloads from.
#[derive(Debug, Clone, Copy, PartialEq, Eq, Structural)]
pub enum Source {
    YouTube,
    TikTok,
    Instagram,
    Pinterest,
    Spotify,
}

/// Why a link was not accepted.
#[derive(Debug, Clone, Copy, PartialEq, Eq, Structural)]
pub enum SourceError {
    /// The text is not a URL.
    InvalidUrl,
    /// The URL has no host (such as `mailto:` links).
    NoHost,
    /// The host is none of the supported sites.
    Unsupported,
}

impl SourceError {
    /// The error's message.
    pub fn message(self) -> (r: String)
        ensures
            r@ == source_error_message(self),
    {
        match self {
            SourceError::InvalidUrl => "invalid URL".to_owned(),
            SourceError::NoHost => "URL has no host".to_owned(),
            SourceError::Unsupported => "unsupported media source".to_owned(),
        }
    }
}

/// The message of each error.
pub open spec fn source_error_message(e: SourceError) -> Seq<char> {
    match e {
        SourceError::InvalidUrl => "invalid URL"@,
        SourceError::NoHost => "URL has no host"@,
        SourceError::Unsupported => "unsupported media source"@,
    }
}

/// `host` is `domain` itself or a subdomain of it.
pub open spec fn domain_or_subdomain(host: Seq<char>, domain: Seq<char>) -> bool {
    host == domain || has_suffix(host, seq!['.'] + domain)
}

/// The site a (lower-case) host belongs to, if any.
pub open spec fn source_for_host(h: Seq<char>) -> Option<Source> {
    if h == "youtu.be"@ || domain_or_subdomain(h, "youtube.com"@) {
        Some(Source::YouTube)
    } else if domain_or_subdomain(h, "tiktok.com"@) {
        Some(Source::TikTok)
    } else if domain_or_subdomain(h, "instagram.com"@) {
        Some(Source::Instagram)
    } else if h == "pin.it"@ || domain_or_subdomain(h, "pinterest.com"@) {
        Some(Source::Pinterest)
    } else if domain_or_subdomain(h, "spotify.com"@) {
        Some(Source::Spotify)
    } else {
        None
    }
}

/// The outcome of looking a link up: `None` when it does not parse as a URL,
/// `Some(None)` when it has no host, `Some(Some(host))` otherwise.
pub open spec fn source_from_lookup(lookup: Option<Option<Seq<char>>>) -> Result<Source, SourceError> {
    match lookup {
        None => Err(SourceError::InvalidUrl),
        Some(None) => Err(SourceError::NoHost),
        Some(Some(host)) => match source_for_host(ascii_lower(host)) {
            Some(s) => Ok(s),
            None => Err(SourceError::Unsupported),
        },
    }
}

/// What `url::Url::parse` followed by `host_str` gives for a text.
pub uninterp spec fn url_host_of(raw: Seq<char>) -> Option<Option<Seq<char>>>;

/// Parses `raw` with `url::Url::parse` and reads its host with `Url::host_str`:
/// `None` when parsing fails, `Some(host)` otherwise. The outcome is taken to be
/// a function of the text alone; nothing more is claimed of the URL grammar.
#[verifier::external_body]
fn parsed_url_host(raw: &str) -> (r: Option<Option<String>>)
    ensures
        r.deep_view() == url_host_of(raw@),
{
    match url::Url::parse(raw) {
        Ok(url) => Some(url.host_str().map(|host| host.to_string())),
        Err(_) => None,
    }
}

/// Whether `host` equals `domain` or ends with `.domain`.
pub fn is_domain_or_subdomain(host: &str, domain: &str) -> (r: bool)
    ensures
        r == domain_or_subdomain(host@, domain@),
{
    if str_eq(host, domain) {
        return true;
    }
    let h = chars_of(host);
    let d = chars_of(domain);
    let mut dotted: Vec<char> = Vec::new();
    dotted.push('.');
    let mut i: usize = 0;
    while i < d.len()
        invariant
            i <= d@.len(),
            dotted@ == seq!['.'] + d@.subrange(0, i as int),
        decreases d@.len() - i,
    {
        dotted.push(d[i]);
        proof {
            assert(seq!['.'] + d@.subrange(0, i + 1) =~= (seq!['.'] + d@.subrange(0, i as int)).push(
                d@[i as int],
            ));
        }
        i = i + 1;
    }
    assert(d@.subrange(0, d@.len() as int) =~= d@);
    ends_with(h.as_slice(), dotted.as_slice())
}

impl Source {
    /// The site of an already lower-cased host.
    pub fn from_host(host: &str) -> (r: Option<Source>)
        ensures
            r == source_for_host(host@),
    {
        if str_eq(host, "youtu.be") || is_domain_or_subdomain(host, "youtube.com") {
            Some(Source::YouTube)
        } else if is_domain_or_subdomain(host, "tiktok.com") {
            Some(Source::TikTok)
        } else if is_domain_or_subdomain(host, "instagram.com") {
            Some(Source::Instagram)
        } else if str_eq(host, "pin.it") || is_domain_or_subdomain(host, "pinterest.com") {
            Some(Source::Pinterest)
        } else if is_domain_or_subdomain(host, "spotify.com") {
            Some(Source::Spotify)
        } else {
            None
        }
    }

    /// Decides the site from the outcome of parsing a link (see `source_from_lookup`).
    pub fn from_lookup(lookup: Option<Option<String>>) -> (r: Result<Source, SourceError>)
        ensures
            r == source_from_lookup(lookup.deep_view()),
    {
        match lookup {
            None => Err(SourceError::InvalidUrl),
            Some(None) => Err(SourceError::NoHost),
            Some(Some(host)) => {
                let lowered = to_ascii_lowercase(host.as_str());
                match Source::from_host(lowered.as_str()) {
                    Some(s) => Ok(s),
                    None => Err(SourceError::Unsupported),
                }
            },
        }
    }

    /// The site a link points to.
    pub fn from_url(raw_url: &str) -> (r: Result<Source, SourceError>)
        ensures
            r == source_from_lookup(url_host_of(raw_url@)),
    {
        Source::from_lookup(parsed_url_host(raw_url))
    }
}

/// `h` differs from `e`, and does not end with it, where their `k`-th
/// characters from the back differ.
proof fn lemma_back_differs(h: Seq<char>, e: Seq<char>, k: int)
    requires
        1 <= k <= h.len(),
        k <= e.len(),
        h[h.len() - k] != e[e.len() - k],
    ensures
        h != e,
        !has_suffix(h, e),
{
    if has_suffix(h, e) {
        assert(h.subrange(h.len() - e.len(), h.len() as int)[e.len() - k] == h[h.len() - k]);
    }
}

/// A host whose fifth character from the back differs from that of `e` is
/// neither `e` nor a subdomain of it.
proof fn lemma_other_domain(h: Seq<char>, e: Seq<char>)
    requires
        h.len() >= 5,
        e.len() >= 5,
        h[h.len() - 5] != e[e.len() - 5],
    ensures
        !domain_or_subdomain(h, e),
{
    lemma_back_differs(h, e, 5);
    let de = seq!['.'] + e;
    assert(de[de.len() - 5] == e[e.len() - 5]);
    lemma_back_differs(h, de, 5);
}

/// `sub.domain`, a subdomain of `domain`, ends as `domain` does and is one.
proof fn lemma_subdomain(sub: Seq<char>, domain: Seq<char>)
    requires
        domain.len() >= 5,
    ensures
        domain_or_subdomain(domain, domain),
        domain_or_subdomain(sub + seq!['.'] + domain, domain),
        (sub + seq!['.'] + domain).len() > domain.len(),
        (sub + seq!['.'] + domain)[(sub + seq!['.'] + domain).len() - 5] == domain[domain.len() - 5],
        (sub + seq!['.'] + domain)[(sub + seq!['.'] + domain).len() - 1] == domain[domain.len() - 1],
{
    let h = sub + seq!['.'] + domain;
    assert(h.subrange(h.len() - (domain.len() + 1), h.len() as int) =~= seq!['.'] + domain);
}

/// A site's hosts are no hosts of a site whose domain differs in its fifth
/// character from the back.
proof fn lemma_not_earlier(sub: Seq<char>, d: Seq<char>, e: Seq<char>)
    requires
        d.len() >= 5,
        e.len() >= 5,
        d[d.len() - 5] != e[e.len() - 5],
    ensures
        !domain_or_subdomain(d, e),
        !domain_or_subdomain(sub + seq!['.'] + d, e),
{
    lemma_subdomain(sub, d);
    lemma_other_domain(d, e);
    lemma_other_domain(sub + seq!['.'] + d, e);
}

/// A site's hosts are not a short link host with another last character.
proof fn lemma_not_short(sub: Seq<char>, d: Seq<char>, s: Seq<char>)
    requires
        d.len() >= 5,
        s.len() >= 1,
        d[d.len() - 1] != s[s.len() - 1],
    ensures
        d != s,
        sub + seq!['.'] + d != s,
{
    lemma_subdomain(sub, d);
    lemma_back_differs(d, s, 1);
    lemma_back_differs(sub + seq!['.'] + d, s, 1);
}

/// Each site is recognised by its own domain and by every subdomain of it
/// (`sub.domain` for any `sub`), and YouTube and Pinterest also by their short
/// link hosts `youtu.be` and `pin.it`.
pub proof fn lemma_site_hosts(sub: Seq<char>)
    ensures
        source_for_host("youtube.com"@) == Some(Source::YouTube),
        source_for_host(sub + seq!['.'] + "youtube.com"@) == Some(Source::YouTube),
        source_for_host("youtu.be"@) == Some(Source::YouTube),
        source_for_host("tiktok.com"@) == Some(Source::TikTok),
        source_for_host(sub + seq!['.'] + "tiktok.com"@) == Some(Source::TikTok),
        source_for_host("instagram.com"@) == Some(Source::Instagram),
        source_for_host(sub + seq!['.'] + "instagram.com"@) == Some(Source::Instagram),
        source_for_host("pinterest.com"@) == Some(Source::Pinterest),
        source_for_host(sub + seq!['.'] + "pinterest.com"@) == Some(Source::Pinterest),
        source_for_host("pin.it"@) == Some(Source::Pinterest),
        source_for_host("spotify.com"@) == Some(Source::Spotify),
        source_for_host(sub + seq!['.'] + "spotify.com"@) == Some(Source::Spotify),
{
    reveal_strlit("youtube.com");
    reveal_strlit("youtu.be");
    reveal_strlit("tiktok.com");
    reveal_strlit("instagram.com");
    reveal_strlit("pinterest.com");
    reveal_strlit("pin.it");
    reveal_strlit("spotify.com");
    let yt = "youtube.com"@;
    let tt = "tiktok.com"@;
    let ig = "instagram.com"@;
    let pt = "pinterest.com"@;
    let sp = "spotify.com"@;
    let yb = "youtu.be"@;
    lemma_subdomain(sub, yt);
    lemma_subdomain(sub, tt);
    lemma_subdomain(sub, ig);
    lemma_subdomain(sub, pt);
    lemma_subdomain(sub, sp);
    lemma_not_earlier(sub, tt, yt);
    lemma_not_earlier(sub, ig, yt);
    lemma_not_earlier(sub, ig, tt);
    lemma_not_earlier(sub, pt, yt);
    lemma_not_earlier(sub, pt, tt);
    lemma_not_earlier(sub, pt, ig);
    lemma_not_earlier(sub, sp, yt);
    lemma_not_earlier(sub, sp, tt);
    lemma_not_earlier(sub, sp, ig);
    lemma_not_earlier(sub, sp, pt);
    lemma_not_short(sub, tt, yb);
    lemma_not_short(sub, ig, yb);
    lemma_not_short(sub, pt, yb);
    lemma_not_short(sub, sp, yb);
    lemma_not_short(sub, sp, "pin.it"@);
    // The short link hosts are no domain of the sites before theirs.
    assert(!domain_or_subdomain("pin.it"@, yt)) by {
        lemma_back_differs("pin.it"@, yt, 1);
        lemma_back_differs("pin.it"@, seq!['.'] + yt, 1);
    }
    assert(!domain_or_subdomain("pin.it"@, tt)) by {
        lemma_back_differs("pin.it"@, tt, 1);
        lemma_back_differs("pin.it"@, seq!['.'] + tt, 1);
    }
    assert(!domain_or_subdomain("pin.it"@, ig)) by {
        lemma_back_differs("pin.it"@, ig, 1);
        lemma_back_differs("pin.it"@, seq!['.'] + ig, 1);
    }
    assert("pin.it"@ != "youtu.be"@) by {
        lemma_back_differs("pin.it"@, "youtu.be"@, 1);
    }
}

} // verus!
