//! The directory-listing side: ordering and compatibility of versions, and
//! the selection of the newest compatible release from a remote directory
//! listing.
//!
//! A candidate is compatible with a ceiling version when its major is
//! below the ceiling's, or equal with a minor at or below the ceiling's —
//! the patch level is never part of the test. Among the compatible,
//! parseable candidates the greatest version wins; equal maxima are broken
//! by listing order, the last one winning.

use crate::kernel::KernelRelease;
use crate::text::{has_suffix, slice_has_suffix, u32_to_dec_string, dec_rep};
use crate::version::{spec_version_of_text, version_from_str, LinuxVersion};
use core::cmp::Ordering;
use vstd::prelude::*;
use vstd::string::StringExecFns;

verus! {

/// Lexicographic comparison on (major, minor, patch), short-circuiting on
/// the first component that differs.
pub open spec fn spec_version_cmp(a: LinuxVersion, b: LinuxVersion) -> Ordering {
    if a.major < b.major {
        Ordering::Less
    } else if a.major > b.major {
        Ordering::Greater
    } else if a.minor < b.minor {
        Ordering::Less
    } else if a.minor > b.minor {
        Ordering::Greater
    } else if a.patch < b.patch {
        Ordering::Less
    } else if a.patch > b.patch {
        Ordering::Greater
    } else {
        Ordering::Equal
    }
}

/// Compares `version` against `reference` under the version ordering.
pub fn is_newer_version(version: &LinuxVersion, reference: &LinuxVersion) -> (r: Ordering)
    ensures
        r == spec_version_cmp(*version, *reference),
{
    if version.major < reference.major {
        Ordering::Less
    } else if version.major > reference.major {
        Ordering::Greater
    } else if version.minor < reference.minor {
        Ordering::Less
    } else if version.minor > reference.minor {
        Ordering::Greater
    } else if version.patch < reference.patch {
        Ordering::Less
    } else if version.patch > reference.patch {
        Ordering::Greater
    } else {
        Ordering::Equal
    }
}

/// The version ordering is a strict total order: comparison yields `Equal`
/// exactly on equal versions, and yields `Less` exactly where the swapped
/// comparison yields `Greater` — so of less, equal and greater, exactly
/// one holds of every pair.
pub proof fn lemma_version_cmp_strict_total(a: LinuxVersion, b: LinuxVersion)
    ensures
        (spec_version_cmp(a, b) == Ordering::Equal) <==> a == b,
        (spec_version_cmp(a, b) == Ordering::Less) <==> (spec_version_cmp(b, a)
            == Ordering::Greater),
{
}

/// The version ordering is transitive.
pub proof fn lemma_version_cmp_transitive(a: LinuxVersion, b: LinuxVersion, c: LinuxVersion)
    requires
        spec_version_cmp(a, b) == Ordering::Less,
        spec_version_cmp(b, c) == Ordering::Less,
    ensures
        spec_version_cmp(a, c) == Ordering::Less,
{
}

/// Whether `v` is at or below the ceiling: a smaller major, or the same
/// major with a minor at or below the ceiling's. The patch level is not
/// part of the test.
pub open spec fn spec_compatible(v: LinuxVersion, ceiling: LinuxVersion) -> bool {
    v.major < ceiling.major || (v.major == ceiling.major && v.minor <= ceiling.minor)
}

/// Tests whether `version` is compatible with `last_compatible_version`.
pub fn is_version_compatible(
    version: &LinuxVersion,
    last_compatible_version: &LinuxVersion,
) -> (r: bool)
    ensures
        r == spec_compatible(*version, *last_compatible_version),
{
    version.major <= last_compatible_version.major && (version.major
        != last_compatible_version.major || version.minor <= last_compatible_version.minor)
}

/// The version under which the candidate name `name` takes part in the
/// selection: present exactly when `name` parses and is compatible with
/// the ceiling.
pub open spec fn spec_qualifying(name: Seq<char>, ceiling: LinuxVersion) -> Option<LinuxVersion> {
    match spec_version_of_text(name) {
        Ok(v) => if spec_compatible(v, ceiling) {
            Some(v)
        } else {
            None
        },
        Err(_) => None,
    }
}

/// The index of the winning candidate among `names`, or `-1` when none
/// qualifies: the greatest qualifying version, the last one in listing
/// order among equal maxima.
pub open spec fn spec_best_index(names: Seq<String>, ceiling: LinuxVersion) -> int
    decreases names.len(),
{
    if names.len() == 0 {
        -1
    } else {
        let prev = spec_best_index(names.drop_last(), ceiling);
        match spec_qualifying(names.last()@, ceiling) {
            None => prev,
            Some(v) => if prev < 0 {
                names.len() - 1
            } else {
                match spec_qualifying(names[prev]@, ceiling) {
                    Some(b) => if spec_version_cmp(v, b) != Ordering::Less {
                        names.len() - 1
                    } else {
                        prev
                    },
                    None => names.len() - 1,
                }
            },
        }
    }
}

/// What `spec_best_index` points at: `-1` exactly when no name qualifies;
/// otherwise a qualifying name whose version no qualifying name exceeds,
/// and the last name in listing order carrying that maximal version.
pub proof fn lemma_best_index_facts(names: Seq<String>, ceiling: LinuxVersion)
    ensures
        spec_best_index(names, ceiling) == -1 ==> forall|i: int|
            0 <= i < names.len() ==> spec_qualifying(#[trigger] names[i]@, ceiling) is None,
        spec_best_index(names, ceiling) != -1 ==> {
            let b = spec_best_index(names, ceiling);
            &&& 0 <= b < names.len()
            &&& spec_qualifying(names[b]@, ceiling) is Some
            &&& forall|i: int|
                0 <= i < names.len() && spec_qualifying(#[trigger] names[i]@, ceiling) is Some
                    ==> spec_version_cmp(
                    spec_qualifying(names[i]@, ceiling).unwrap(),
                    spec_qualifying(names[b]@, ceiling).unwrap(),
                ) != Ordering::Greater
            &&& forall|i: int|
                b < i < names.len() && spec_qualifying(#[trigger] names[i]@, ceiling) is Some
                    ==> spec_version_cmp(
                    spec_qualifying(names[i]@, ceiling).unwrap(),
                    spec_qualifying(names[b]@, ceiling).unwrap(),
                ) == Ordering::Less
        },
    decreases names.len(),
{
    if names.len() == 0 {
    } else {
        let shorter = names.drop_last();
        lemma_best_index_facts(shorter, ceiling);
        assert forall|i: int| 0 <= i < shorter.len() implies shorter[i] == names[i] by {}
        assert(names.last() == names[names.len() - 1]);
        let prev = spec_best_index(shorter, ceiling);
        match spec_qualifying(names.last()@, ceiling) {
            None => {
                if prev != -1 {
                    let vb = spec_qualifying(names[prev]@, ceiling).unwrap();
                    assert forall|i: int|
                        0 <= i < names.len() && spec_qualifying(
                            #[trigger] names[i]@,
                            ceiling,
                        ) is Some implies spec_version_cmp(
                        spec_qualifying(names[i]@, ceiling).unwrap(),
                        vb,
                    ) != Ordering::Greater by {
                        if i < names.len() - 1 {
                            assert(shorter[i] == names[i]);
                        }
                    }
                }
            },
            Some(v) => {
                if prev < 0 {
                    // every earlier name fails to qualify
                } else {
                    let vb = spec_qualifying(names[prev]@, ceiling).unwrap();
                    if spec_version_cmp(v, vb) != Ordering::Less {
                        assert forall|i: int|
                            0 <= i < names.len() && spec_qualifying(
                                #[trigger] names[i]@,
                                ceiling,
                            ) is Some implies spec_version_cmp(
                            spec_qualifying(names[i]@, ceiling).unwrap(),
                            v,
                        ) != Ordering::Greater by {
                            if i < names.len() - 1 {
                                assert(shorter[i] == names[i]);
                            }
                        }
                    } else {
                        assert forall|i: int|
                            prev < i < names.len() && spec_qualifying(
                                #[trigger] names[i]@,
                                ceiling,
                            ) is Some implies spec_version_cmp(
                            spec_qualifying(names[i]@, ceiling).unwrap(),
                            vb,
                        ) == Ordering::Less by {
                            if i < names.len() - 1 {
                                assert(shorter[i] == names[i]);
                            }
                        }
                    }
                }
            },
        }
    }
}

/// The absolute locator of a selected release: the listing directory for
/// its major line, followed by the archive name.
pub open spec fn spec_release_url(major: u32, name: Seq<char>) -> Seq<char> {
    "https://kernel.org/pub/linux/kernel/v"@ + dec_rep(major as nat) + ".x/"@ + name
}

/// Builds the absolute locator of a selected release.
fn release_url(major: u32, name: &str) -> (r: String)
    ensures
        r@ == spec_release_url(major, name@),
{
    let mut s = String::from_str("https://kernel.org/pub/linux/kernel/v");
    let num = u32_to_dec_string(major);
    s.append(num.as_str());
    s.append(".x/");
    s.append(name);
    s
}

/// Selects the newest release at or below `last_compatible_version` from
/// the archive names `versions`: the greatest parseable, compatible
/// version, equal maxima broken by listing order (last wins), wrapped
/// into an absolute locator. `None` exactly when no name qualifies.
pub fn get_last_compatible_kernel_release(
    versions: &Vec<String>,
    last_compatible_version: LinuxVersion,
) -> (r: Option<KernelRelease>)
    ensures
        ({
            let b = spec_best_index(versions@, last_compatible_version);
            match r {
                None => b == -1,
                Some(rel) => {
                    &&& b >= 0
                    &&& spec_qualifying(versions@[b]@, last_compatible_version) is Some
                    &&& rel.version == spec_qualifying(versions@[b]@, last_compatible_version)
                    &&& rel.source@ == spec_release_url(
                        spec_qualifying(versions@[b]@, last_compatible_version).unwrap().major,
                        versions@[b]@,
                    )
                },
            }
        }),
{
    let n: usize = versions.len();
    let mut found: bool = false;
    let mut best_idx: usize = 0;
    let mut best_ver: LinuxVersion = LinuxVersion::default();
    let mut k: usize = 0;
    while k < n
        invariant
            0 <= k <= n,
            n == versions@.len(),
            !found ==> spec_best_index(versions@.take(k as int), last_compatible_version) == -1,
            found ==> {
                &&& 0 <= best_idx < k
                &&& spec_best_index(versions@.take(k as int), last_compatible_version)
                    == best_idx as int
                &&& spec_qualifying(versions@[best_idx as int]@, last_compatible_version)
                    == Some(best_ver)
            },
        decreases n - k,
    {
        proof {
            assert(versions@.take(k as int + 1).drop_last() =~= versions@.take(k as int));
            assert(versions@.take(k as int + 1).last() == versions@[k as int]);
        }
        let name: &String = &versions[k];
        let mut qualify: Option<LinuxVersion> = None;
        match version_from_str(name.as_str()) {
            Ok(v) => {
                if is_version_compatible(&v, &last_compatible_version) {
                    qualify = Some(v);
                }
            },
            Err(_) => {},
        }
        proof {
            assert(qualify == spec_qualifying(versions@[k as int]@, last_compatible_version));
        }
        match qualify {
            Some(v) => {
                if !found {
                    found = true;
                    best_idx = k;
                    best_ver = v;
                } else {
                    let ord = is_newer_version(&v, &best_ver);
                    let take_new: bool = match ord {
                        Ordering::Less => false,
                        _ => true,
                    };
                    if take_new {
                        best_idx = k;
                        best_ver = v;
                    }
                }
            },
            None => {},
        }
        k = k + 1;
    }
    proof {
        assert(versions@.take(n as int) =~= versions@);
    }
    if !found {
        None
    } else {
        let name: &String = &versions[best_idx];
        Some(
            KernelRelease {
                version: Some(best_ver),
                source: release_url(best_ver.major, name.as_str()),
            },
        )
    }
}

/// What the HTML listing yields: the anchor `href` attribute values of a
/// document, in document order.
pub uninterp spec fn hrefs_of(document: Seq<char>) -> Seq<Seq<char>>;

/// Relies on scraper's `Html::parse_document` and its CSS selection of
/// `a` elements: the returned strings are the `href` attribute values of
/// the document's anchors, in document order, a function of the document
/// text alone.
#[verifier::external_body]
fn anchor_hrefs(body: &str) -> (r: Vec<String>)
    ensures
        r@.len() == hrefs_of(body@).len(),
        forall|i: int| 0 <= i < r@.len() ==> #[trigger] r@[i]@ == hrefs_of(body@)[i],
{
    let document = scraper::Html::parse_document(body);
    let selector = scraper::Selector::parse("a").expect("anchor selector");
    document
        .select(&selector)
        .filter_map(|element| element.value().attr("href").map(|href| href.to_string()))
        .collect()
}

/// A name the listing recognizes as a release archive: it ends in
/// `.tar.xz` or `.tar.gz`.
pub open spec fn spec_is_archive_name(n: Seq<char>) -> bool {
    has_suffix(vstd::utf8::encode_utf8(n), vstd::utf8::encode_utf8(".tar.xz"@)) || has_suffix(
        vstd::utf8::encode_utf8(n),
        vstd::utf8::encode_utf8(".tar.gz"@),
    )
}

/// The archive names among `names`, in order.
pub open spec fn spec_archive_names(names: Seq<Seq<char>>) -> Seq<Seq<char>>
    decreases names.len(),
{
    if names.len() == 0 {
        Seq::<Seq<char>>::empty()
    } else {
        let rest = spec_archive_names(names.drop_last());
        if spec_is_archive_name(names.last()) {
            rest.push(names.last())
        } else {
            rest
        }
    }
}

/// Extracts the release-archive names from a fetched directory-listing
/// document: every anchor `href` ending in a recognized archive suffix,
/// in document order.
pub fn kernel_versions_from_listing(body: &str) -> (r: Vec<String>)
    ensures
        r@.len() == spec_archive_names(hrefs_of(body@)).len(),
        forall|i: int|
            0 <= i < r@.len() ==> #[trigger] r@[i]@ == spec_archive_names(hrefs_of(body@))[i],
{
    let names = anchor_hrefs(body);
    let mut out: Vec<String> = Vec::new();
    let n: usize = names.len();
    let mut k: usize = 0;
    while k < n
        invariant
            0 <= k <= n,
            n == names@.len(),
            names@.len() == hrefs_of(body@).len(),
            forall|i: int| 0 <= i < names@.len() ==> #[trigger] names@[i]@ == hrefs_of(body@)[i],
            out@.len() == spec_archive_names(hrefs_of(body@).take(k as int)).len(),
            forall|i: int|
                0 <= i < out@.len() ==> #[trigger] out@[i]@ == spec_archive_names(
                    hrefs_of(body@).take(k as int),
                )[i],
        decreases n - k,
    {
        proof {
            assert(hrefs_of(body@).take(k as int + 1).drop_last() =~= hrefs_of(body@).take(
                k as int,
            ));
            assert(hrefs_of(body@).take(k as int + 1).last() == hrefs_of(body@)[k as int]);
        }
        let name: &String = &names[k];
        if slice_has_suffix(name.as_str().as_bytes(), ".tar.xz".as_bytes()) || slice_has_suffix(
            name.as_str().as_bytes(),
            ".tar.gz".as_bytes(),
        ) {
            out.push(name.clone());
        }
        k = k + 1;
    }
    proof {
        assert(hrefs_of(body@).take(n as int) =~= hrefs_of(body@));
    }
    out
}

} // verus!
