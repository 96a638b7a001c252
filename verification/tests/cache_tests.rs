use kernel_redirect::kernel::{kernel_data_from_fetch, CachedKernelData, KernelData};
use kernel_redirect::zfs::{CachedZFSMeta, ZFSMeta};

/// One simulated `get`: refresh when expired, then serve; counts refreshes
/// the way the cache's caller performs them under its exclusive lock.
fn simulated_get(cache: &mut CachedKernelData, now: u64, refreshes: &mut u32) -> KernelData {
    if cache.is_expired(now) {
        *refreshes += 1;
        cache.store(kernel_data_from_fetch(None), now);
    }
    cache.current()
}

#[test]
fn first_get_refreshes_exactly_once() {
    let mut cache = CachedKernelData::new(1000);
    let mut refreshes: u32 = 0;
    simulated_get(&mut cache, 1000, &mut refreshes);
    assert_eq!(refreshes, 1);
}

#[test]
fn get_within_ttl_does_not_refresh_again() {
    let mut cache = CachedKernelData::new(1000);
    let mut refreshes: u32 = 0;
    simulated_get(&mut cache, 1000, &mut refreshes);
    simulated_get(&mut cache, 1030, &mut refreshes);
    simulated_get(&mut cache, 1060, &mut refreshes);
    assert_eq!(refreshes, 1);
}

#[test]
fn one_more_refresh_per_expiry_window() {
    let mut cache = CachedKernelData::new(1000);
    let mut refreshes: u32 = 0;
    simulated_get(&mut cache, 1000, &mut refreshes);
    simulated_get(&mut cache, 1061, &mut refreshes);
    simulated_get(&mut cache, 1090, &mut refreshes);
    assert_eq!(refreshes, 2);
}

#[test]
fn new_kernel_cache_starts_empty_and_expired() {
    let cache = CachedKernelData::new(500);
    assert!(cache.is_expired(500));
    assert!(cache.is_expired(5000));
    let data = cache.current();
    assert!(data.mainline.is_none());
    assert!(data.stable.is_none());
    assert!(data.next.is_none());
}

#[test]
fn zfs_cache_entry_follows_the_ttl() {
    let mut cache = CachedZFSMeta::new(1000);
    assert!(cache.is_expired(1000));
    cache.store(ZFSMeta::default(), 1000);
    assert!(!cache.is_expired(1035));
    assert!(!cache.is_expired(1060));
    assert!(cache.is_expired(1061));
    assert!(cache.current().stable.is_none());
}
