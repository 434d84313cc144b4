use whp_vmm::config::{parse_usize, VmConfig};

#[test]
fn defaults_stand_in_for_unset_settings() {
    let c = VmConfig::from_settings(None, None, None, None);
    assert_eq!(c.kernel_path, "kernels/fedora-kernel");
    assert_eq!(c.initram_path, "kernels/initramfs.img");
    assert_eq!(c.rootfs_path, "kernels/fedora-rootfs.img");
    assert_eq!(c.memory_size, 5 * 1024 * 1024 * 1024);
}

#[test]
fn settings_are_taken() {
    let c = VmConfig::from_settings(
        Some("k".to_string()),
        Some("i".to_string()),
        Some("r".to_string()),
        Some("2".to_string()),
    );
    assert_eq!((c.kernel_path.as_str(), c.initram_path.as_str(), c.rootfs_path.as_str()), ("k", "i", "r"));
    assert_eq!(c.memory_size, 2 * 1024 * 1024 * 1024);
}

#[test]
fn a_bad_memory_size_is_ignored() {
    let c = VmConfig::from_settings(None, None, None, Some("many".to_string()));
    assert_eq!(c.memory_size, 5 * 1024 * 1024 * 1024);
}

#[test]
fn numbers_are_parsed_as_std_does() {
    for text in ["0", "7", "+7", "007", "", "+", "-1", "1x", " 1", "18446744073709551615", "18446744073709551616"] {
        assert_eq!(parse_usize(text.as_bytes()), text.parse::<usize>().ok(), "{:?}", text);
    }
}

#[test]
fn the_first_missing_file_is_named() {
    let c = VmConfig::from_settings(None, None, None, None);
    assert_eq!(c.missing_file(true, true, true), None);
    assert_eq!(
        c.missing_file(false, false, false),
        Some("Kernel file not found: kernels/fedora-kernel".to_string())
    );
    assert_eq!(
        c.missing_file(true, false, false),
        Some("Initramfs file not found: kernels/initramfs.img".to_string())
    );
    assert_eq!(
        c.missing_file(true, true, false),
        Some("Rootfs file not found: kernels/fedora-rootfs.img".to_string())
    );
}
