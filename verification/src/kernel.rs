//! The kernel-feed side: release records, the snapshot assembled from the
//! structured feed, and its TTL-gated cache entry.
//!
//! The feed lists entries of moniker, version text and an optional source
//! locator. Scanning in feed order, the first `"mainline"` entry and the
//! first `"stable"` entry each become a record (an unparsable version is
//! stored as absent, not an error); the first `"linux-next"` entry becomes
//! a record with no version whose locator is a snapshot-archive URL
//! templated with the raw version text. Later entries for an already
//! filled slot are ignored. A failed fetch produces an all-absent
//! snapshot.

use crate::cache::{spec_expired, CACHE_INITIAL_AGE_SECS, CACHE_TTL_SECS};
use crate::version::{spec_version_of_text, version_from_str, LinuxVersion};
use vstd::prelude::*;
use vstd::string::StringExecFns;

verus! {

/// One entry of the structured kernel feed, as fetched: a moniker tag, the
/// raw version text, and an optional source locator.
#[derive(Clone, Debug)]
pub struct GivenKernelRelease {
    pub moniker: String,
    pub version: String,
    pub source: Option<String>,
}

/// A release record served to clients: the parsed version, when the feed
/// exposed a parseable one, and the locator the client is redirected to.
#[derive(Debug)]
pub struct KernelRelease {
    pub version: Option<LinuxVersion>,
    pub source: String,
}

impl Clone for KernelRelease {
    fn clone(&self) -> (r: Self)
        ensures
            r == *self,
    {
        KernelRelease { version: self.version, source: self.source.clone() }
    }
}

impl Default for KernelRelease {
    /// A record with no version and an empty locator.
    fn default() -> (r: Self)
        ensures
            r.version is None,
            r.source@ == Seq::<char>::empty(),
    {
        KernelRelease { version: None, source: String::new() }
    }
}

/// The kernel snapshot: one optional record per feed slot, produced
/// wholesale by one refresh.
#[derive(Debug)]
pub struct KernelData {
    pub mainline: Option<KernelRelease>,
    pub stable: Option<KernelRelease>,
    pub next: Option<KernelRelease>,
}

impl Clone for KernelData {
    fn clone(&self) -> (r: Self)
        ensures
            r == *self,
    {
        KernelData {
            mainline: match &self.mainline {
                Some(m) => Some(m.clone()),
                None => None,
            },
            stable: match &self.stable {
                Some(s) => Some(s.clone()),
                None => None,
            },
            next: match &self.next {
                Some(n) => Some(n.clone()),
                None => None,
            },
        }
    }
}

impl Default for KernelData {
    /// The all-absent snapshot.
    fn default() -> (r: Self)
        ensures
            r.mainline is None,
            r.stable is None,
            r.next is None,
    {
        KernelData { mainline: None, stable: None, next: None }
    }
}

/// The first feed entry whose moniker is `m`, in feed order, if any.
pub open spec fn spec_first_with_moniker(
    rs: Seq<GivenKernelRelease>,
    m: Seq<char>,
) -> Option<GivenKernelRelease>
    decreases rs.len(),
{
    if rs.len() == 0 {
        None
    } else if rs[0].moniker@ == m {
        Some(rs[0])
    } else {
        spec_first_with_moniker(rs.drop_first(), m)
    }
}

proof fn lemma_first_with_moniker_push(rs: Seq<GivenKernelRelease>, x: GivenKernelRelease, m: Seq<char>)
    ensures
        spec_first_with_moniker(rs.push(x), m) == (match spec_first_with_moniker(rs, m) {
            Some(g) => Some(g),
            None => if x.moniker@ == m {
                Some(x)
            } else {
                None
            },
        }),
    decreases rs.len(),
{
    if rs.len() == 0 {
        assert(rs.push(x)[0] == x);
        if x.moniker@ != m {
            assert(rs.push(x).drop_first() =~= rs);
        }
    } else {
        assert(rs.push(x)[0] == rs[0]);
        assert(rs.push(x).drop_first() =~= rs.drop_first().push(x));
        lemma_first_with_moniker_push(rs.drop_first(), x, m);
    }
}

/// The version a record stores for the feed text `t`: the parsed version,
/// or absent when `t` does not parse.
pub open spec fn spec_opt_version(t: Seq<char>) -> Option<LinuxVersion> {
    match spec_version_of_text(t) {
        Ok(v) => Some(v),
        Err(_) => None,
    }
}

/// The locator a record stores for the feed entry `g`: the feed's source
/// locator, or empty when the feed gave none.
pub open spec fn spec_source_text(g: GivenKernelRelease) -> Seq<char> {
    match g.source {
        Some(s) => s@,
        None => Seq::<char>::empty(),
    }
}

/// The locator of a rolling `linux-next` release: the snapshot-archive URL
/// templated with the raw version text `t`.
pub open spec fn spec_next_source(t: Seq<char>) -> Seq<char> {
    "https://git.kernel.org/pub/scm/linux/kernel/git/next/linux-next.git/snapshot/linux-next-"@ + t
        + ".tar.gz"@
}

/// How a mainline/stable slot relates to the feed entry that fills it.
pub open spec fn slot_matches_release(
    slot: Option<KernelRelease>,
    g: Option<GivenKernelRelease>,
) -> bool {
    match g {
        None => slot is None,
        Some(gr) => {
            &&& slot is Some
            &&& slot.unwrap().version == spec_opt_version(gr.version@)
            &&& slot.unwrap().source@ == spec_source_text(gr)
        },
    }
}

/// How the rolling `next` slot relates to the feed entry that fills it:
/// no version, and the templated snapshot-archive locator.
pub open spec fn slot_matches_next(
    slot: Option<KernelRelease>,
    g: Option<GivenKernelRelease>,
) -> bool {
    match g {
        None => slot is None,
        Some(gr) => {
            &&& slot is Some
            &&& slot.unwrap().version is None
            &&& slot.unwrap().source@ == spec_next_source(gr.version@)
        },
    }
}

/// Builds the locator for a rolling release from its raw version text.
fn next_source_url(version_text: &str) -> (r: String)
    ensures
        r@ == spec_next_source(version_text@),
{
    let mut s = String::from_str(
        "https://git.kernel.org/pub/scm/linux/kernel/git/next/linux-next.git/snapshot/linux-next-",
    );
    s.append(version_text);
    s.append(".tar.gz");
    s
}

/// The record for a mainline or stable feed entry: parsed version (absent
/// on parse failure), and the feed's locator (empty when absent).
fn record_from(g: &GivenKernelRelease) -> (r: KernelRelease)
    ensures
        r.version == spec_opt_version(g.version@),
        r.source@ == spec_source_text(*g),
{
    let version: Option<LinuxVersion> = match version_from_str(g.version.as_str()) {
        Ok(v) => Some(v),
        Err(_) => None,
    };
    let source: String = match &g.source {
        Some(s) => s.clone(),
        None => String::new(),
    };
    KernelRelease { version, source }
}

/// Assembles the kernel snapshot from the feed's entries, first occurrence
/// per slot winning.
pub fn kernel_data_from_releases(releases: Vec<GivenKernelRelease>) -> (d: KernelData)
    ensures
        slot_matches_release(d.mainline, spec_first_with_moniker(releases@, "mainline"@)),
        slot_matches_release(d.stable, spec_first_with_moniker(releases@, "stable"@)),
        slot_matches_next(d.next, spec_first_with_moniker(releases@, "linux-next"@)),
{
    let mainline_key: String = String::from_str("mainline");
    let stable_key: String = String::from_str("stable");
    let next_key: String = String::from_str("linux-next");
    let mut mainline: Option<KernelRelease> = None;
    let mut stable: Option<KernelRelease> = None;
    let mut next: Option<KernelRelease> = None;
    let n: usize = releases.len();
    let mut k: usize = 0;
    while k < n
        invariant
            0 <= k <= n,
            n == releases@.len(),
            mainline_key@ == "mainline"@,
            stable_key@ == "stable"@,
            next_key@ == "linux-next"@,
            slot_matches_release(
                mainline,
                spec_first_with_moniker(releases@.take(k as int), "mainline"@),
            ),
            slot_matches_release(
                stable,
                spec_first_with_moniker(releases@.take(k as int), "stable"@),
            ),
            slot_matches_next(
                next,
                spec_first_with_moniker(releases@.take(k as int), "linux-next"@),
            ),
        decreases n - k,
    {
        proof {
            reveal_strlit("mainline");
            reveal_strlit("stable");
            reveal_strlit("linux-next");
            assert("mainline"@.len() != "stable"@.len());
            assert("mainline"@.len() != "linux-next"@.len());
            assert("stable"@.len() != "linux-next"@.len());
            assert(releases@.take(k as int + 1) =~= releases@.take(k as int).push(
                releases@[k as int],
            ));
            lemma_first_with_moniker_push(releases@.take(k as int), releases@[k as int], "mainline"@);
            lemma_first_with_moniker_push(releases@.take(k as int), releases@[k as int], "stable"@);
            lemma_first_with_moniker_push(
                releases@.take(k as int),
                releases@[k as int],
                "linux-next"@,
            );
        }
        let g: &GivenKernelRelease = &releases[k];
        if g.moniker == mainline_key && mainline.is_none() {
            mainline = Some(record_from(g));
        } else if g.moniker == stable_key && stable.is_none() {
            stable = Some(record_from(g));
        } else if g.moniker == next_key && next.is_none() {
            next = Some(KernelRelease { version: None, source: next_source_url(g.version.as_str()) });
        }
        k = k + 1;
    }
    proof {
        assert(releases@.take(n as int) =~= releases@);
    }
    KernelData { mainline, stable, next }
}

/// Turns a fetch outcome into the snapshot: the assembled snapshot for a
/// fetched entry list, and the all-absent snapshot when the fetch or the
/// payload failed, so a transient external failure never becomes a hard
/// error for the requester.
pub fn kernel_data_from_fetch(fetched: Option<Vec<GivenKernelRelease>>) -> (d: KernelData)
    ensures
        (match fetched {
            None => d.mainline is None && d.stable is None && d.next is None,
            Some(rs) => {
                &&& slot_matches_release(d.mainline, spec_first_with_moniker(rs@, "mainline"@))
                &&& slot_matches_release(d.stable, spec_first_with_moniker(rs@, "stable"@))
                &&& slot_matches_next(d.next, spec_first_with_moniker(rs@, "linux-next"@))
            },
        }),
{
    match fetched {
        None => KernelData::default(),
        Some(releases) => kernel_data_from_releases(releases),
    }
}

impl KernelData {
    /// The locator for a mainline request: the mainline record's, falling
    /// back to the stable record's, absent when neither is known.
    pub fn mainline_target(&self) -> (r: Option<String>)
        ensures
            self.mainline is Some ==> r is Some && r.unwrap()@ == self.mainline.unwrap().source@,
            self.mainline is None && self.stable is Some ==> r is Some && r.unwrap()@
                == self.stable.unwrap().source@,
            self.mainline is None && self.stable is None ==> r is None,
    {
        match &self.mainline {
            Some(m) => Some(m.source.clone()),
            None => match &self.stable {
                Some(s) => Some(s.source.clone()),
                None => None,
            },
        }
    }

    /// The locator for a stable request, absent when no stable record is
    /// known.
    pub fn stable_target(&self) -> (r: Option<String>)
        ensures
            self.stable is Some ==> r is Some && r.unwrap()@ == self.stable.unwrap().source@,
            self.stable is None ==> r is None,
    {
        match &self.stable {
            Some(s) => Some(s.source.clone()),
            None => None,
        }
    }

    /// The locator for a rolling-next request, absent when no next record
    /// is known.
    pub fn next_target(&self) -> (r: Option<String>)
        ensures
            self.next is Some ==> r is Some && r.unwrap()@ == self.next.unwrap().source@,
            self.next is None ==> r is None,
    {
        match &self.next {
            Some(n) => Some(n.source.clone()),
            None => None,
        }
    }
}

/// The kernel snapshot's cache entry: the snapshot and the time of the
/// refresh that produced it.
pub struct CachedKernelData {
    data: KernelData,
    last_updated: u64,
}

impl CachedKernelData {
    pub closed spec fn spec_data(&self) -> KernelData {
        self.data
    }

    pub closed spec fn spec_last_updated(&self) -> u64 {
        self.last_updated
    }

    /// A new entry at time `now`: the all-absent snapshot, stamped twice
    /// the TTL in the past so the first access refreshes.
    pub fn new(now: u64) -> (c: Self)
        requires
            now >= CACHE_INITIAL_AGE_SECS,
        ensures
            c.spec_last_updated() == now - CACHE_INITIAL_AGE_SECS,
            c.spec_data().mainline is None,
            c.spec_data().stable is None,
            c.spec_data().next is None,
    {
        CachedKernelData {
            data: KernelData::default(),
            last_updated: now - CACHE_INITIAL_AGE_SECS,
        }
    }

    /// Whether the entry must be refreshed before it is served at `now`.
    pub fn is_expired(&self, now: u64) -> (r: bool)
        ensures
            r == spec_expired(self.spec_last_updated(), now),
    {
        now > self.last_updated && now - self.last_updated > CACHE_TTL_SECS
    }

    /// Replaces the snapshot wholesale with the outcome of a refresh
    /// performed at `now`.
    pub fn store(&mut self, data: KernelData, now: u64)
        ensures
            final(self).spec_data() == data,
            final(self).spec_last_updated() == now,
    {
        self.data = data;
        self.last_updated = now;
    }

    /// A copy of the current snapshot.
    pub fn current(&self) -> (d: KernelData)
        ensures
            d == self.spec_data(),
    {
        self.data.clone()
    }
}

} // verus!
