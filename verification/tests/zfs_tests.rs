use kernel_redirect::kernel::KernelRelease;
use kernel_redirect::listing::{get_last_compatible_kernel_release, kernel_versions_from_listing};
use kernel_redirect::version::LinuxVersion;
use kernel_redirect::zfs::{zfs_ceiling_from_meta, ZFSMeta};

fn ver(major: u32, minor: u32, patch: u32) -> LinuxVersion {
    LinuxVersion { major, minor, patch }
}

#[test]
fn manifest_line_yields_the_ceiling() {
    assert_eq!(zfs_ceiling_from_meta("Linux-Maximum: 6.5"), ver(6, 5, 0));
}

#[test]
fn key_line_is_found_among_other_lines() {
    let meta = "Meta: 1\nName: zfs\nVersion: 2.2.0\nLinux-Maximum: 6.5\nLinux-Minimum: 3.10\n";
    assert_eq!(zfs_ceiling_from_meta(meta), ver(6, 5, 0));
}

#[test]
fn carriage_returns_are_stripped_from_lines() {
    let meta = "Name: zfs\r\nLinux-Maximum: 6.5\r\n";
    assert_eq!(zfs_ceiling_from_meta(meta), ver(6, 5, 0));
}

#[test]
fn value_without_surrounding_space_is_accepted() {
    assert_eq!(zfs_ceiling_from_meta("Linux-Maximum:6.5"), ver(6, 5, 0));
}

#[test]
fn missing_key_line_defaults_to_zero_ceiling() {
    assert_eq!(zfs_ceiling_from_meta("Name: zfs\nVersion: 2.2.0\n"), ver(0, 0, 0));
}

#[test]
fn one_component_value_defaults_to_zero_ceiling() {
    assert_eq!(zfs_ceiling_from_meta("Linux-Maximum: 6"), ver(0, 0, 0));
}

#[test]
fn three_component_value_defaults_to_zero_ceiling() {
    assert_eq!(zfs_ceiling_from_meta("Linux-Maximum: 6.5.1"), ver(0, 0, 0));
}

#[test]
fn unparsable_component_silently_reads_as_zero() {
    assert_eq!(zfs_ceiling_from_meta("Linux-Maximum: x.5"), ver(0, 5, 0));
    assert_eq!(zfs_ceiling_from_meta("Linux-Maximum: 6.x"), ver(6, 0, 0));
}

#[test]
fn empty_manifest_defaults_to_zero_ceiling() {
    assert_eq!(zfs_ceiling_from_meta(""), ver(0, 0, 0));
}

#[test]
fn ceiling_and_listing_select_the_compatible_release() {
    let ceiling = zfs_ceiling_from_meta("Linux-Maximum: 6.5\n");
    assert_eq!(ceiling, ver(6, 5, 0));
    let body = "<html><body>\
        <a href=\"linux-6.5.3.tar.xz\">a</a>\
        <a href=\"linux-6.6.0.tar.xz\">b</a>\
        </body></html>";
    let names = kernel_versions_from_listing(body);
    let meta = ZFSMeta { stable: get_last_compatible_kernel_release(&names, ceiling) };
    let stable = meta.stable.unwrap();
    assert_eq!(stable.version, Some(ver(6, 5, 3)));
    assert_eq!(
        stable.source,
        "https://kernel.org/pub/linux/kernel/v6.x/linux-6.5.3.tar.xz"
    );
}

#[test]
fn zfs_stable_target_reports_the_record() {
    let meta = ZFSMeta {
        stable: Some(KernelRelease { version: Some(ver(6, 5, 3)), source: String::from("loc") }),
    };
    assert_eq!(meta.stable_target(), Some(String::from("loc")));
    assert!(ZFSMeta::default().stable_target().is_none());
}
