use kernel_redirect::kernel::{
    kernel_data_from_fetch, kernel_data_from_releases, CachedKernelData, GivenKernelRelease,
    KernelData, KernelRelease,
};
use kernel_redirect::version::LinuxVersion;

fn entry(moniker: &str, version: &str, source: Option<&str>) -> GivenKernelRelease {
    GivenKernelRelease {
        moniker: String::from(moniker),
        version: String::from(version),
        source: source.map(String::from),
    }
}

#[test]
fn feed_entries_fill_their_slots() {
    let data = kernel_data_from_fetch(Some(vec![
        entry("mainline", "v6.5.3", Some("u1")),
        entry("stable", "v6.1.9", Some("u2")),
    ]));
    let mainline = data.mainline.unwrap();
    assert_eq!(mainline.version, Some(LinuxVersion { major: 6, minor: 5, patch: 3 }));
    assert_eq!(mainline.source, "u1");
    let stable = data.stable.unwrap();
    assert_eq!(stable.version, Some(LinuxVersion { major: 6, minor: 1, patch: 9 }));
    assert_eq!(stable.source, "u2");
    assert!(data.next.is_none());
}

#[test]
fn failed_fetch_yields_all_absent_snapshot() {
    let data = kernel_data_from_fetch(None);
    assert!(data.mainline.is_none());
    assert!(data.stable.is_none());
    assert!(data.next.is_none());
}

#[test]
fn first_occurrence_wins_per_slot() {
    let data = kernel_data_from_releases(vec![
        entry("stable", "v6.1.9", Some("first")),
        entry("stable", "v6.1.8", Some("second")),
    ]);
    let stable = data.stable.unwrap();
    assert_eq!(stable.version, Some(LinuxVersion { major: 6, minor: 1, patch: 9 }));
    assert_eq!(stable.source, "first");
}

#[test]
fn next_slot_has_no_version_and_a_templated_locator() {
    let data = kernel_data_from_releases(vec![entry("linux-next", "next-20231002", None)]);
    let next = data.next.unwrap();
    assert!(next.version.is_none());
    assert_eq!(
        next.source,
        "https://git.kernel.org/pub/scm/linux/kernel/git/next/linux-next.git/snapshot/linux-next-next-20231002.tar.gz"
    );
}

#[test]
fn unknown_monikers_are_ignored() {
    let data = kernel_data_from_releases(vec![entry("longterm", "v6.1.55", Some("u"))]);
    assert!(data.mainline.is_none());
    assert!(data.stable.is_none());
    assert!(data.next.is_none());
}

#[test]
fn unparsable_version_is_stored_absent_not_fatal() {
    let data = kernel_data_from_releases(vec![entry("mainline", "6.7-rc3", Some("u"))]);
    let mainline = data.mainline.unwrap();
    assert_eq!(mainline.version, Some(LinuxVersion { major: 6, minor: 7, patch: 0 }));

    let data = kernel_data_from_releases(vec![entry("mainline", "snapshot", Some("u"))]);
    let mainline = data.mainline.unwrap();
    assert!(mainline.version.is_none());
    assert_eq!(mainline.source, "u");
}

#[test]
fn absent_source_becomes_empty_locator() {
    let data = kernel_data_from_releases(vec![entry("stable", "v6.1.9", None)]);
    let stable = data.stable.unwrap();
    assert_eq!(stable.source, "");
}

#[test]
fn mainline_target_prefers_mainline() {
    let data = kernel_data_from_releases(vec![
        entry("mainline", "v6.5.3", Some("m")),
        entry("stable", "v6.1.9", Some("s")),
    ]);
    assert_eq!(data.mainline_target(), Some(String::from("m")));
}

#[test]
fn mainline_target_falls_back_to_stable() {
    let data = kernel_data_from_releases(vec![entry("stable", "v6.1.9", Some("s"))]);
    assert_eq!(data.mainline_target(), Some(String::from("s")));
}

#[test]
fn targets_are_absent_on_an_empty_snapshot() {
    let data = KernelData::default();
    assert!(data.mainline_target().is_none());
    assert!(data.stable_target().is_none());
    assert!(data.next_target().is_none());
}

#[test]
fn stable_and_next_targets_report_their_slots() {
    let data = kernel_data_from_releases(vec![
        entry("stable", "v6.1.9", Some("s")),
        entry("linux-next", "next-20231002", None),
    ]);
    assert_eq!(data.stable_target(), Some(String::from("s")));
    assert_eq!(
        data.next_target(),
        Some(String::from(
            "https://git.kernel.org/pub/scm/linux/kernel/git/next/linux-next.git/snapshot/linux-next-next-20231002.tar.gz"
        ))
    );
}

#[test]
fn default_release_record_is_empty() {
    let rel = KernelRelease::default();
    assert!(rel.version.is_none());
    assert_eq!(rel.source, "");
}

#[test]
fn cloned_snapshot_equals_the_original() {
    let data = kernel_data_from_releases(vec![entry("mainline", "v6.5.3", Some("u1"))]);
    let copy = data.clone();
    assert_eq!(copy.mainline.unwrap().source, "u1");
    assert!(copy.stable.is_none());
}

#[test]
fn kernel_cache_entry_follows_the_ttl() {
    let mut cache = CachedKernelData::new(1000);
    assert!(cache.is_expired(1000));
    let data = kernel_data_from_fetch(Some(vec![entry("stable", "v6.1.9", Some("u"))]));
    cache.store(data, 1000);
    assert!(!cache.is_expired(1000));
    assert!(!cache.is_expired(1060));
    assert!(cache.is_expired(1061));
    assert_eq!(cache.current().stable.unwrap().source, "u");
}
