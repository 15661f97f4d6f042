//! Requests waiting for the user to pick a format or a quality, each under a
//! random token and alive for fifteen minutes.

use vstd::prelude::*;
use crate::media::MediaInfo;
use crate::text::{is_lower_hex, lacks, str_eq, uuid_v4_simple};

verus! {

/// How long a pending request stays usable, in milliseconds.
pub const JOB_TTL_MS: u64 = 900_000;

/// A probed link waiting for the user's choice.
#[derive(Debug, Clone)]
pub struct PendingJob {
    pub url: String,
    pub info: MediaInfo,
    pub language_code: String,
    pub user_id: u64,
}

/// A request stored at time `created` (in milliseconds) is still alive at `now`:
/// less than the time to live has passed. A clock reading before `created`
/// counts as no time passed.
pub open spec fn alive(created: u64, now: u64) -> bool {
    now < created + JOB_TTL_MS
}

/// The requests after expired ones are dropped at `now`.
pub open spec fn live_at(m: Map<Seq<char>, (PendingJob, u64)>, now: u64) -> Map<Seq<char>, (PendingJob, u64)> {
    m.restrict(Set::new(|t: Seq<char>| m.dom().contains(t) && alive(m[t].1, now)))
}

/// The requests after storing `job` under `token` at `now`: expired ones are
/// dropped first.
pub open spec fn after_insert(
    m: Map<Seq<char>, (PendingJob, u64)>,
    token: Seq<char>,
    job: PendingJob,
    now: u64,
) -> Map<Seq<char>, (PendingJob, u64)> {
    live_at(m, now).insert(token, (job, now))
}

/// The request under `token`, if it is there and still alive at `now`.
pub open spec fn lookup(m: Map<Seq<char>, (PendingJob, u64)>, token: Seq<char>, now: u64) -> Option<PendingJob> {
    if m.dom().contains(token) && alive(m[token].1, now) {
        Some(m[token].0)
    } else {
        None
    }
}

/// `uuid::Uuid::new_v4()` in its simple (unhyphenated) text form, a fresh
/// random token: a random UUID with its version and variant bits set, printed
/// as 32 lower-case hex digits. Which digits is left to chance.
#[verifier::external_body]
fn fresh_token() -> (r: String)
    ensures
        uuid_v4_simple(r@),
{
    uuid::Uuid::new_v4().simple().to_string()
}

struct PendingEntry {
    token: String,
    job: PendingJob,
    created_ms: u64,
}

/// The store of pending requests.
pub struct PendingJobs {
    entries: Vec<PendingEntry>,
}

impl View for PendingJobs {
    type V = Map<Seq<char>, (PendingJob, u64)>;

    /// Token to request and the time it was stored.
    closed spec fn view(&self) -> Map<Seq<char>, (PendingJob, u64)> {
        entries_map(self.entries@)
    }
}

spec fn entries_map(es: Seq<PendingEntry>) -> Map<Seq<char>, (PendingJob, u64)> {
    Map::new(
        |t: Seq<char>| exists|i: int| 0 <= i < es.len() && (#[trigger] es[i]).token@ == t,
        |t: Seq<char>|
            {
                let i = choose|i: int| 0 <= i < es.len() && (#[trigger] es[i]).token@ == t;
                (es[i].job, es[i].created_ms)
            },
    )
}

spec fn distinct_tokens(es: Seq<PendingEntry>) -> bool {
    forall|i: int, j: int| 0 <= i < j < es.len() ==> (#[trigger] es[i]).token@ != (#[trigger] es[j]).token@
}

proof fn lemma_entry_in_map(es: Seq<PendingEntry>, i: int)
    requires
        distinct_tokens(es),
        0 <= i < es.len(),
    ensures
        entries_map(es).dom().contains(es[i].token@),
        entries_map(es)[es[i].token@] == (es[i].job, es[i].created_ms),
{
    let t = es[i].token@;
    assert(entries_map(es).dom().contains(t));
    let k = choose|k: int| 0 <= k < es.len() && (#[trigger] es[k]).token@ == t;
    if k != i {
        if k < i {
            assert(es[k].token@ != es[i].token@);
        } else {
            assert(es[i].token@ != es[k].token@);
        }
    }
}

proof fn lemma_map_push(es: Seq<PendingEntry>, e: PendingEntry)
    requires
        distinct_tokens(es),
        !entries_map(es).dom().contains(e.token@),
    ensures
        distinct_tokens(es.push(e)),
        entries_map(es.push(e)) == entries_map(es).insert(e.token@, (e.job, e.created_ms)),
{
    let ns = es.push(e);
    assert forall|i: int, j: int| 0 <= i < j < ns.len() implies (#[trigger] ns[i]).token@ != (#[trigger] ns[j]).token@ by {
        if j == es.len() {
            if ns[i].token@ == e.token@ {
                assert(es[i].token@ == e.token@);
                assert(entries_map(es).dom().contains(e.token@));
            }
        } else {
            assert(ns[i] == es[i] && ns[j] == es[j]);
        }
    }
    let a = entries_map(ns);
    let b = entries_map(es).insert(e.token@, (e.job, e.created_ms));
    assert forall|t: Seq<char>| a.dom().contains(t) <==> b.dom().contains(t) by {
        if a.dom().contains(t) {
            let i = choose|i: int| 0 <= i < ns.len() && (#[trigger] ns[i]).token@ == t;
            if i < es.len() {
                assert(es[i] == ns[i]);
                assert(entries_map(es).dom().contains(t));
            }
        }
        if entries_map(es).dom().contains(t) {
            let i = choose|i: int| 0 <= i < es.len() && (#[trigger] es[i]).token@ == t;
            assert(ns[i] == es[i]);
        }
        if t == e.token@ {
            assert(ns[es.len() as int] == e);
        }
    }
    assert forall|t: Seq<char>| a.dom().contains(t) implies a[t] == b[t] by {
        if t == e.token@ {
            lemma_entry_in_map(ns, es.len() as int);
        } else {
            let i = choose|i: int| 0 <= i < ns.len() && (#[trigger] ns[i]).token@ == t;
            assert(i < es.len());
            assert(ns[i] == es[i]);
            lemma_entry_in_map(ns, i);
            lemma_entry_in_map(es, i);
        }
    }
    assert(a =~= b);
}

proof fn lemma_map_update(es: Seq<PendingEntry>, k: int, e: PendingEntry)
    requires
        distinct_tokens(es),
        0 <= k < es.len(),
        es[k].token@ == e.token@,
    ensures
        distinct_tokens(es.update(k, e)),
        entries_map(es.update(k, e)) == entries_map(es).insert(e.token@, (e.job, e.created_ms)),
{
    let ns = es.update(k, e);
    assert forall|i: int, j: int| 0 <= i < j < ns.len() implies (#[trigger] ns[i]).token@ != (#[trigger] ns[j]).token@ by {
        assert(ns[i].token@ == es[i].token@);
        assert(ns[j].token@ == es[j].token@);
    }
    let a = entries_map(ns);
    let b = entries_map(es).insert(e.token@, (e.job, e.created_ms));
    assert forall|t: Seq<char>| a.dom().contains(t) <==> b.dom().contains(t) by {
        if a.dom().contains(t) {
            let i = choose|i: int| 0 <= i < ns.len() && (#[trigger] ns[i]).token@ == t;
            assert(es[i].token@ == t);
        }
        if entries_map(es).dom().contains(t) {
            let i = choose|i: int| 0 <= i < es.len() && (#[trigger] es[i]).token@ == t;
            assert(ns[i].token@ == t);
        }
        if t == e.token@ {
            assert(ns[k] == e);
        }
    }
    assert forall|t: Seq<char>| a.dom().contains(t) implies a[t] == b[t] by {
        let i = choose|i: int| 0 <= i < ns.len() && (#[trigger] ns[i]).token@ == t;
        lemma_entry_in_map(ns, i);
        if i != k {
            assert(ns[i] == es[i]);
            lemma_entry_in_map(es, i);
        }
    }
    assert(a =~= b);
}

proof fn lemma_map_remove(es: Seq<PendingEntry>, k: int)
    requires
        distinct_tokens(es),
        0 <= k < es.len(),
    ensures
        distinct_tokens(es.remove(k)),
        entries_map(es.remove(k)) == entries_map(es).remove(es[k].token@),
{
    let ns = es.remove(k);
    let idx = |i: int| if i < k { i } else { i + 1 };
    assert forall|i: int| 0 <= i < ns.len() implies #[trigger] ns[i] == es[idx(i)] by {}
    assert forall|i: int, j: int| 0 <= i < j < ns.len() implies (#[trigger] ns[i]).token@ != (#[trigger] ns[j]).token@ by {
        assert(ns[i] == es[idx(i)]);
        assert(ns[j] == es[idx(j)]);
    }
    let a = entries_map(ns);
    let b = entries_map(es).remove(es[k].token@);
    assert forall|t: Seq<char>| a.dom().contains(t) <==> b.dom().contains(t) by {
        if a.dom().contains(t) {
            let i = choose|i: int| 0 <= i < ns.len() && (#[trigger] ns[i]).token@ == t;
            assert(ns[i] == es[idx(i)]);
            assert(entries_map(es).dom().contains(t));
            if t == es[k].token@ {
                if idx(i) < k {
                    assert(es[idx(i)].token@ != es[k].token@);
                } else {
                    assert(es[k].token@ != es[idx(i)].token@);
                }
            }
        }
        if b.dom().contains(t) {
            let j = choose|j: int| 0 <= j < es.len() && (#[trigger] es[j]).token@ == t;
            assert(j != k);
            let i = if j < k { j } else { j - 1 };
            assert(ns[i] == es[j]);
        }
    }
    assert forall|t: Seq<char>| a.dom().contains(t) implies a[t] == b[t] by {
        let i = choose|i: int| 0 <= i < ns.len() && (#[trigger] ns[i]).token@ == t;
        assert(ns[i] == es[idx(i)]);
        lemma_entry_in_map(ns, i);
        lemma_entry_in_map(es, idx(i));
    }
    assert(a =~= b);
}

/// Whether a request stored at `created` is alive at `now`.
fn is_alive(created: u64, now: u64) -> (r: bool)
    ensures
        r == alive(created, now),
{
    now < created || now - created < JOB_TTL_MS
}

impl PendingJobs {
    #[verifier::type_invariant]
    spec fn wf(self) -> bool {
        distinct_tokens(self.entries@)
    }

    /// An empty store.
    pub fn new() -> (r: Self)
        ensures
            r@ == Map::<Seq<char>, (PendingJob, u64)>::empty(),
    {
        let r = PendingJobs { entries: Vec::new() };
        assert(r@ =~= Map::<Seq<char>, (PendingJob, u64)>::empty());
        r
    }
}

impl PendingJobs {
    fn find(es: &Vec<PendingEntry>, token: &str) -> (r: Option<usize>)
        requires
            distinct_tokens(es@),
        ensures
            match r {
                Some(i) => i < es@.len() && es@[i as int].token@ == token@,
                None => !entries_map(es@).dom().contains(token@),
            },
    {
        let mut i: usize = 0;
        while i < es.len()
            invariant
                i <= es@.len(),
                forall|k: int| 0 <= k < i ==> (#[trigger] es@[k]).token@ != token@,
            decreases es@.len() - i,
        {
            if str_eq(es[i].token.as_str(), token) {
                return Some(i);
            }
            i = i + 1;
        }
        None
    }

    /// The request under `token`, if it is there and still alive at `now`.
    pub fn get(&self, token: &str, now: u64) -> (r: Option<&PendingJob>)
        ensures
            match r {
                Some(j) => lookup(self@, token@, now) == Some(*j),
                None => lookup(self@, token@, now) is None,
            },
    {
        proof {
            use_type_invariant(self);
        }
        match PendingJobs::find(&self.entries, token) {
            Some(i) => {
                proof {
                    lemma_entry_in_map(self.entries@, i as int);
                }
                if is_alive(self.entries[i].created_ms, now) {
                    Some(&self.entries[i].job)
                } else {
                    None
                }
            },
            None => None,
        }
    }

    /// Removes the request under `token` and hands it out if it was still
    /// alive at `now` (an expired one is removed all the same).
    pub fn take(&mut self, token: &str, now: u64) -> (r: Option<PendingJob>)
        ensures
            r == lookup(old(self)@, token@, now),
            final(self)@ == old(self)@.remove(token@),
    {
        proof {
            use_type_invariant(&*self);
        }
        let mut es: Vec<PendingEntry> = Vec::new();
        std::mem::swap(&mut es, &mut self.entries);
        let ghost old_map = entries_map(es@);
        assert(old_map == old(self)@);
        match PendingJobs::find(&es, token) {
            Some(i) => {
                proof {
                    lemma_entry_in_map(es@, i as int);
                    lemma_map_remove(es@, i as int);
                }
                let e = es.remove(i);
                self.entries = es;
                if is_alive(e.created_ms, now) {
                    Some(e.job)
                } else {
                    None
                }
            },
            None => {
                assert(old_map.remove(token@) =~= old_map);
                self.entries = es;
                None
            },
        }
    }

    /// Stores `job` under a fresh random token at time `now`, after dropping the
    /// requests that have expired, and returns the token.
    pub fn insert(&mut self, job: PendingJob, now: u64) -> (token: String)
        ensures
            final(self)@ == after_insert(old(self)@, token@, job, now),
            uuid_v4_simple(token@),
    {
        proof {
            use_type_invariant(&*self);
        }
        let token = fresh_token();
        let mut es: Vec<PendingEntry> = Vec::new();
        std::mem::swap(&mut es, &mut self.entries);
        let ghost old_map = entries_map(es@);
        assert(old_map == old(self)@);
        let mut kept: Vec<PendingEntry> = Vec::new();
        assert(kept@ =~= Seq::<PendingEntry>::empty());
        assert(entries_map(kept@) =~= live_at(entries_map(es@.subrange(0, 0)), now));
        let n = es.len();
        let mut rest = es;
        let mut i: usize = 0;
        // Entries are moved out from the front, so they are first reversed.
        let ghost orig = rest@;
        let mut rev: Vec<PendingEntry> = Vec::new();
        while rest.len() > 0
            invariant
                rev@.len() + rest@.len() == n,
                n == orig.len(),
                rest@ == orig.subrange(0, rest@.len() as int),
                forall|k: int| 0 <= k < rev@.len() ==> rev@[k] == orig[n - 1 - k],
            decreases rest@.len(),
        {
            let e = rest.pop().unwrap();
            rev.push(e);
        }
        while i < n
            invariant
                n == orig.len(),
                i <= n,
                rev@.len() == n - i,
                forall|k: int| 0 <= k < rev@.len() ==> rev@[k] == orig[n - 1 - k],
                distinct_tokens(orig),
                distinct_tokens(kept@),
                entries_map(kept@) == live_at(entries_map(orig.subrange(0, i as int)), now),
                forall|k: int| 0 <= k < kept@.len() ==> exists|m: int| 0 <= m < i && (#[trigger] kept@[k]).token@ == orig[m].token@,
            decreases n - i,
        {
            let e = rev.pop().unwrap();
            assert(e == orig[i as int]);
            let ghost pre = orig.subrange(0, i as int);
            let ghost post = orig.subrange(0, i + 1);
            assert(post =~= pre.push(e));
            assert(distinct_tokens(pre)) by {
                assert forall|a: int, b: int| 0 <= a < b < pre.len() implies (#[trigger] pre[a]).token@ != (#[trigger] pre[b]).token@ by {
                    assert(pre[a] == orig[a] && pre[b] == orig[b]);
                }
            }
            assert(!entries_map(pre).dom().contains(e.token@)) by {
                if entries_map(pre).dom().contains(e.token@) {
                    let m = choose|m: int| 0 <= m < pre.len() && (#[trigger] pre[m]).token@ == e.token@;
                    assert(orig[m].token@ != orig[i as int].token@);
                }
            }
            proof {
                lemma_map_push(pre, e);
            }
            let ghost kept_before = kept@;
            if is_alive(e.created_ms, now) {
                assert(!entries_map(kept@).dom().contains(e.token@)) by {
                    if entries_map(kept@).dom().contains(e.token@) {
                        let k = choose|k: int| 0 <= k < kept@.len() && (#[trigger] kept@[k]).token@ == e.token@;
                        let m = choose|m: int| 0 <= m < i && (#[trigger] kept@[k]).token@ == orig[m].token@;
                        assert(orig[m].token@ != orig[i as int].token@);
                    }
                }
                proof {
                    lemma_map_push(kept@, e);
                }
                kept.push(e);
                assert(entries_map(kept@) =~= live_at(entries_map(post), now));
                assert forall|k: int| 0 <= k < kept@.len() implies exists|m: int| 0 <= m < i + 1 && (#[trigger] kept@[k]).token@ == orig[m].token@ by {
                    if k < kept_before.len() {
                        assert(kept@[k] == kept_before[k]);
                        let m = choose|m: int| 0 <= m < i && (#[trigger] kept_before[k]).token@ == orig[m].token@;
                    } else {
                        assert(kept@[k].token@ == orig[i as int].token@);
                    }
                }
            } else {
                assert(entries_map(kept@) =~= live_at(entries_map(post), now));
            }
            i = i + 1;
        }
        assert(orig.subrange(0, n as int) =~= orig);
        assert(entries_map(kept@) == live_at(old(self)@, now));
        let entry = PendingEntry { token: token.clone(), job, created_ms: now };
        match PendingJobs::find(&kept, token.as_str()) {
            Some(k) => {
                proof {
                    lemma_map_update(kept@, k as int, entry);
                }
                kept.set(k, entry);
            },
            None => {
                proof {
                    lemma_map_push(kept@, entry);
                }
                kept.push(entry);
            },
        }
        self.entries = kept;
        token
    }
}

/// A request can be read back under its token until its time to live runs out.
pub proof fn lemma_insert_then_lookup(
    m: Map<Seq<char>, (PendingJob, u64)>,
    token: Seq<char>,
    job: PendingJob,
    now: u64,
    later: u64,
)
    requires
        later < now + JOB_TTL_MS,
    ensures
        lookup(after_insert(m, token, job, now), token, later) == Some(job),
{
}

/// Storing a request leaves every other request that is still alive in place.
pub proof fn lemma_insert_keeps_others(
    m: Map<Seq<char>, (PendingJob, u64)>,
    token: Seq<char>,
    job: PendingJob,
    now: u64,
    other: Seq<char>,
)
    requires
        other != token,
    ensures
        lookup(after_insert(m, token, job, now), other, now) == lookup(m, other, now),
{
}

/// Tokens are hex digits only, so they never contain `:`, the separator of
/// button data; the routing laws of the buttons hold for them.
pub proof fn lemma_token_has_no_colon(token: Seq<char>)
    requires
        uuid_v4_simple(token),
    ensures
        lacks(token, ':'),
{
    assert forall|i: int| 0 <= i < token.len() implies token[i] != ':' by {
        assert(is_lower_hex(token[i]));
    }
}

/// Taking a request consumes it: it cannot be read or taken again.
pub proof fn lemma_take_is_one_shot(m: Map<Seq<char>, (PendingJob, u64)>, token: Seq<char>, now: u64)
    ensures
        lookup(m.remove(token), token, now) is None,
{
}

/// A request older than its time to live is never handed out.
pub proof fn lemma_expired_not_found(m: Map<Seq<char>, (PendingJob, u64)>, token: Seq<char>, now: u64)
    requires
        m.dom().contains(token),
        now >= m[token].1 + JOB_TTL_MS,
    ensures
        lookup(m, token, now) is None,
{
}

} // verus!
