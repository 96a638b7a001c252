//! The filesystem-compatibility side: the ceiling version read from the
//! project's plain-text metadata manifest, the snapshot holding the newest
//! compatible kernel release, and its TTL-gated cache entry.
//!
//! The manifest is scanned for the first line beginning with the key
//! `Linux-Maximum:`; the value after the colon, trimmed, must split on `.`
//! into exactly two components, read as major and minor with `0` for an
//! unparsable component and a patch of `0`. Any deviation from that shape
//! silently yields the all-zero ceiling.

use crate::cache::{spec_expired, CACHE_INITIAL_AGE_SECS, CACHE_TTL_SECS};
use crate::kernel::KernelRelease;
use crate::text::{
    has_prefix, head_until, lemma_first_byte_index_bounds, parse_u32_strict, slice_has_prefix,
    spec_parse_u32_strict, split_at_byte, tail_after, trim_ws, trim_ws_slice,
};
use crate::version::LinuxVersion;
use vstd::prelude::*;
use vstd::string::StringSliceAdditionalSpecFns;

verus! {

/// The filesystem-compatibility snapshot: at most one stable record,
/// produced wholesale by one refresh.
#[derive(Debug)]
pub struct ZFSMeta {
    pub stable: Option<KernelRelease>,
}

impl Clone for ZFSMeta {
    fn clone(&self) -> (r: Self)
        ensures
            r == *self,
    {
        ZFSMeta {
            stable: match &self.stable {
                Some(s) => Some(s.clone()),
                None => None,
            },
        }
    }
}

impl Default for ZFSMeta {
    /// The all-absent snapshot.
    fn default() -> (r: Self)
        ensures
            r.stable is None,
    {
        ZFSMeta { stable: None }
    }
}

/// `l` with one trailing carriage return removed, as line splitting does.
pub open spec fn strip_cr(l: Seq<u8>) -> Seq<u8> {
    if l.len() > 0 && l.last() == 13 {
        l.drop_last()
    } else {
        l
    }
}

/// The first line of `s` — lines split on newline, one trailing carriage
/// return removed — that starts with `p`, if any.
pub open spec fn spec_first_line_with_prefix(s: Seq<u8>, p: Seq<u8>) -> Option<Seq<u8>>
    decreases s.len(),
    via spec_first_line_with_prefix_dec
{
    if s.len() == 0 {
        None
    } else {
        let l = strip_cr(head_until(s, 10));
        if has_prefix(l, p) {
            Some(l)
        } else {
            match tail_after(s, 10) {
                None => None,
                Some(rest) => spec_first_line_with_prefix(rest, p),
            }
        }
    }
}

#[via_fn]
proof fn spec_first_line_with_prefix_dec(s: Seq<u8>, p: Seq<u8>) {
    lemma_first_byte_index_bounds(s, 10);
}

/// The manifest key that introduces the highest supported kernel line.
pub open spec fn zfs_key() -> Seq<u8> {
    vstd::utf8::encode_utf8("Linux-Maximum:"@)
}

/// The integer a manifest component yields: its value, or the silent
/// default `0` when it is not wholly a digit run that fits a `u32`.
pub open spec fn spec_component_or_zero(s: Seq<u8>) -> u32 {
    match spec_parse_u32_strict(s) {
        Some(v) => v,
        None => 0,
    }
}

/// The ceiling the manifest text yields: from the first key line, the
/// value between the first colon and the next colon or the line's end,
/// trimmed, split on `.` into exactly two components read as major and
/// minor, with a patch of `0`. Any deviation yields the all-zero ceiling.
pub open spec fn spec_zfs_ceiling(s: Seq<u8>) -> LinuxVersion {
    match spec_first_line_with_prefix(s, zfs_key()) {
        None => LinuxVersion { major: 0, minor: 0, patch: 0 },
        Some(l) => match tail_after(l, 58) {
            None => LinuxVersion { major: 0, minor: 0, patch: 0 },
            Some(t1) => {
                let value = trim_ws(head_until(t1, 58));
                match tail_after(value, 46) {
                    None => LinuxVersion { major: 0, minor: 0, patch: 0 },
                    Some(minor_part) => if tail_after(minor_part, 46) is Some {
                        LinuxVersion { major: 0, minor: 0, patch: 0 }
                    } else {
                        LinuxVersion {
                            major: spec_component_or_zero(head_until(value, 46)),
                            minor: spec_component_or_zero(minor_part),
                            patch: 0,
                        }
                    },
                }
            },
        },
    }
}

/// Removes one trailing carriage return from a line.
fn strip_cr_slice<'a>(l: &'a [u8]) -> (r: &'a [u8])
    ensures
        r@ == strip_cr(l@),
{
    let n: usize = l.len();
    if n > 0 && l[n - 1] == 13 {
        proof {
            assert(l@.subrange(0, n - 1) =~= l@.drop_last());
        }
        &l[0..n - 1]
    } else {
        l
    }
}

/// Reads the compatibility ceiling out of the fetched manifest text.
pub fn zfs_ceiling_from_meta(text: &str) -> (c: LinuxVersion)
    ensures
        c == spec_zfs_ceiling(text.spec_bytes()),
{
    let key: &[u8] = "Linux-Maximum:".as_bytes();
    let zero = LinuxVersion { major: 0, minor: 0, patch: 0 };
    let bytes: &[u8] = text.as_bytes();
    let mut rem: &[u8] = bytes;
    loop
        invariant
            key@ == zfs_key(),
            zero == (LinuxVersion { major: 0, minor: 0, patch: 0 }),
            spec_first_line_with_prefix(rem@, zfs_key()) == spec_first_line_with_prefix(
                text.spec_bytes(),
                zfs_key(),
            ),
        decreases rem@.len(),
    {
        if rem.len() == 0 {
            return zero;
        }
        let (line_raw, rest) = split_at_byte(rem, 10);
        let line = strip_cr_slice(line_raw);
        if slice_has_prefix(line, key) {
            let (_before, after) = split_at_byte(line, 58);
            match after {
                None => {
                    return zero;
                },
                Some(t1) => {
                    let (value_raw, _second) = split_at_byte(t1, 58);
                    let value = trim_ws_slice(value_raw);
                    let (major_seg, rest1) = split_at_byte(value, 46);
                    match rest1 {
                        None => {
                            return zero;
                        },
                        Some(minor_part) => {
                            let (_minor_seg, rest2) = split_at_byte(minor_part, 46);
                            match rest2 {
                                Some(_) => {
                                    return zero;
                                },
                                None => {
                                    let major: u32 = match parse_u32_strict(major_seg) {
                                        Some(v) => v,
                                        None => 0,
                                    };
                                    let minor: u32 = match parse_u32_strict(minor_part) {
                                        Some(v) => v,
                                        None => 0,
                                    };
                                    return LinuxVersion { major, minor, patch: 0 };
                                },
                            }
                        },
                    }
                },
            }
        } else {
            match rest {
                Some(r) => {
                    proof {
                        lemma_first_byte_index_bounds(rem@, 10);
                    }
                    rem = r;
                },
                None => {
                    return zero;
                },
            }
        }
    }
}

/// The filesystem snapshot's cache entry: the snapshot and the time of
/// the refresh that produced it.
pub struct CachedZFSMeta {
    data: ZFSMeta,
    last_updated: u64,
}

impl CachedZFSMeta {
    pub closed spec fn spec_data(&self) -> ZFSMeta {
        self.data
    }

    pub closed spec fn spec_last_updated(&self) -> u64 {
        self.last_updated
    }

    /// A new entry at time `now`: the all-absent snapshot, stamped twice
    /// the TTL in the past so the first access refreshes.
    pub fn new(now: u64) -> (c: Self)
        requires
            now >= CACHE_INITIAL_AGE_SECS,
        ensures
            c.spec_last_updated() == now - CACHE_INITIAL_AGE_SECS,
            c.spec_data().stable is None,
    {
        CachedZFSMeta { data: ZFSMeta::default(), last_updated: now - CACHE_INITIAL_AGE_SECS }
    }

    /// Whether the entry must be refreshed before it is served at `now`.
    pub fn is_expired(&self, now: u64) -> (r: bool)
        ensures
            r == spec_expired(self.spec_last_updated(), now),
    {
        now > self.last_updated && now - self.last_updated > CACHE_TTL_SECS
    }

    /// Replaces the snapshot wholesale with the outcome of a refresh
    /// performed at `now`.
    pub fn store(&mut self, data: ZFSMeta, now: u64)
        ensures
            final(self).spec_data() == data,
            final(self).spec_last_updated() == now,
    {
        self.data = data;
        self.last_updated = now;
    }

    /// A copy of the current snapshot.
    pub fn current(&self) -> (d: ZFSMeta)
        ensures
            d == self.spec_data(),
    {
        self.data.clone()
    }
}

impl ZFSMeta {
    /// The locator for a filesystem-compatible stable request, absent
    /// when no compatible record is known.
    pub fn stable_target(&self) -> (r: Option<String>)
        ensures
            self.stable is Some ==> r is Some && r.unwrap()@ == self.stable.unwrap().source@,
            self.stable is None ==> r is None,
    {
        match &self.stable {
            Some(s) => Some(s.source.clone()),
            None => None,
        }
    }
}

} // verus!
