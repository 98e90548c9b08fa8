use pyro::format::{
    exfat_label, ext_label, fat_label, mac_erase_command, mac_label, mkfs_command, parted_args,
    partition_path, tool_result, ToolOutcome,
};

#[test]
fn labels_follow_filesystem_limits() {
    assert_eq!(fat_label("raspberry boot"), "RASPBERRY B");
    assert_eq!(fat_label(""), "PYRO");
    assert_eq!(exfat_label("a-very-long-volume-name"), "a-very-long-vol");
    assert_eq!(ext_label("a-very-long-volume-name"), "a-very-long-volu");
    assert_eq!(ext_label(""), "PYRO");
    assert_eq!(mac_label("my disk/2"), "my_disk_2");
    assert_eq!(mac_label(""), "PYRO");
    assert_eq!(mac_label("abcdefghijklmnopq"), "abcdefghijklmno");
}

#[test]
fn partition_suffix_depends_on_trailing_digit() {
    assert_eq!(partition_path("/dev/mmcblk0"), "/dev/mmcblk0p1");
    assert_eq!(partition_path("/dev/nvme0n1"), "/dev/nvme0n1p1");
    assert_eq!(partition_path("/dev/sdb"), "/dev/sdb1");
}

#[test]
fn parted_types_partition_for_filesystem() {
    assert_eq!(
        parted_args("/dev/sdb", "ext4"),
        vec!["-s", "/dev/sdb", "mklabel", "msdos", "mkpart", "primary", "ext4", "1MiB", "100%"]
    );
    assert_eq!(parted_args("/dev/sdb", "exfat")[6], "fat32");
}

#[test]
fn mkfs_commands_per_filesystem() {
    let c = mkfs_command("exfat", "data", "/dev/sdb1").unwrap();
    assert_eq!(c.bin, "mkfs.exfat");
    assert_eq!(c.args, vec!["-n", "data", "/dev/sdb1"]);
    assert_eq!(c.missing_hint, "install exfatprogs");
    let c = mkfs_command("fat32", "boot", "/dev/sdb1").unwrap();
    assert_eq!(c.bin, "mkfs.vfat");
    assert_eq!(c.args, vec!["-F", "32", "-n", "BOOT", "/dev/sdb1"]);
    let c = mkfs_command("ext4", "", "/dev/sdb1").unwrap();
    assert_eq!(c.bin, "mkfs.ext4");
    assert_eq!(c.args, vec!["-F", "-L", "PYRO", "/dev/sdb1"]);
    assert_eq!(c.missing_hint, "install e2fsprogs");
    assert_eq!(mkfs_command("ntfs", "x", "p").err().unwrap(), "unsupported filesystem: ntfs");
}

#[test]
fn macos_erase_commands() {
    let c = mac_erase_command("exfat", "my stick", "/dev/disk4").unwrap();
    assert_eq!(c.bin, "diskutil");
    assert_eq!(c.args, vec!["eraseDisk", "ExFAT", "my_stick", "/dev/disk4"]);
    let c = mac_erase_command("fat32", "", "/dev/disk4").unwrap();
    assert_eq!(c.args, vec!["eraseDisk", "FAT32", "PYRO", "/dev/disk4"]);
    assert_eq!(
        mac_erase_command("ext4", "", "/dev/disk4").err().unwrap(),
        "ext4 is not supported on macOS — choose exFAT"
    );
    assert_eq!(
        mac_erase_command("btrfs", "", "/dev/disk4").err().unwrap(),
        "unsupported filesystem: btrfs"
    );
}

#[test]
fn tool_outcomes_become_errors() {
    assert_eq!(
        tool_result("wipefs", "install util-linux", ToolOutcome::NotFound).unwrap_err(),
        "`wipefs` is not installed — install util-linux"
    );
    assert_eq!(
        tool_result("parted", "h", ToolOutcome::SpawnFailed("denied".to_string())).unwrap_err(),
        "could not run parted: denied"
    );
    assert_eq!(
        tool_result(
            "mkfs.vfat",
            "h",
            ToolOutcome::Exited { success: false, stderr: "  bad label\n".to_string() }
        )
        .unwrap_err(),
        "mkfs.vfat failed: bad label"
    );
    assert_eq!(
        tool_result("x", "h", ToolOutcome::Exited { success: true, stderr: "noise".to_string() }),
        Ok(())
    );
}
