use pyro::bootconfig::{mount_partition, MountAction, Platform};
use pyro::partitions::{fstype_of, list_partitions, partition_chooser, ChooserAction, ChooserEvent, PartitionInfo};

fn pairs(ps: &[PartitionInfo]) -> Vec<(String, String)> {
    ps.iter().map(|p| (p.path.clone(), p.fstype.clone())).collect()
}

#[test]
fn lists_partitions_with_filesystems() {
    let listing = "/dev/sdb\n/dev/sdb1 vfat\n/dev/sdb2 ext4\n/dev/sdb3\n";
    let ps = list_partitions("/dev/sdb", listing);
    assert_eq!(
        pairs(&ps),
        vec![
            ("/dev/sdb1".to_string(), "vfat".to_string()),
            ("/dev/sdb2".to_string(), "ext4".to_string()),
        ]
    );
    assert_eq!(fstype_of(&ps, "/dev/sdb2"), "ext4");
    assert_eq!(fstype_of(&ps, "/dev/sdb9"), "");
    assert!(list_partitions("/dev/sdb", "").is_empty());
}

#[test]
fn chooser_without_partitions_warns() {
    let (mut c, a) = partition_chooser("/dev/sdb", false);
    assert!(matches!(a, ChooserAction::ListPartitions(ref d) if d == "/dev/sdb"));
    match c.step(ChooserEvent::Listed("/dev/sdb\n".to_string())) {
        ChooserAction::Done(Some(w)) => assert_eq!(w, "no mountable partitions found on the written device"),
        _ => panic!("expected a warning"),
    }
}

#[test]
fn chooser_skip_ends_quietly() {
    let (mut c, _) = partition_chooser("/dev/sdb", true);
    assert!(matches!(c.step(ChooserEvent::Listed("/dev/sdb1 vfat\n".to_string())), ChooserAction::Offer(_)));
    assert!(matches!(c.step(ChooserEvent::Chosen(None)), ChooserAction::Done(None)));
}

#[test]
fn chooser_mount_failure_is_a_warning() {
    let (mut c, _) = partition_chooser("/dev/sdb", true);
    c.step(ChooserEvent::Listed("/dev/sdb1 vfat\n/dev/sdb2 ext4\n".to_string()));
    match c.step(ChooserEvent::Chosen(Some("/dev/sdb2".to_string()))) {
        ChooserAction::Mount { partition, fstype } => {
            assert_eq!(partition, "/dev/sdb2");
            assert_eq!(fstype, "ext4");
        }
        _ => panic!("expected a mount"),
    }
    match c.step(ChooserEvent::Mounted(Err("busy".to_string()))) {
        ChooserAction::Done(Some(w)) => assert_eq!(w, "could not mount /dev/sdb2: busy"),
        _ => panic!("expected a warning"),
    }
}

#[test]
fn chooser_copy_failure_unmounts_then_warns() {
    let (mut c, _) = partition_chooser("/dev/sdb", true);
    c.step(ChooserEvent::Listed("/dev/sdb1 vfat\n".to_string()));
    c.step(ChooserEvent::Chosen(Some("/dev/sdb1".to_string())));
    assert!(matches!(c.step(ChooserEvent::Mounted(Ok(()))), ChooserAction::CopyFiles));
    assert!(matches!(c.step(ChooserEvent::Copied(Err("disk full".to_string()))), ChooserAction::Unmount));
    match c.step(ChooserEvent::Unmounted) {
        ChooserAction::Done(Some(w)) => assert_eq!(w, "could not copy files: disk full"),
        _ => panic!("expected a warning"),
    }
}

#[test]
fn chooser_edit_then_unmount() {
    let (mut c, _) = partition_chooser("/dev/sdb", false);
    c.step(ChooserEvent::Listed("/dev/sdb1 vfat\n".to_string()));
    c.step(ChooserEvent::Chosen(Some("/dev/sdb1".to_string())));
    assert!(matches!(c.step(ChooserEvent::Mounted(Ok(()))), ChooserAction::Edit));
    assert!(!c.accepts_event(&ChooserEvent::Unmounted));
    assert!(matches!(c.step(ChooserEvent::Edited), ChooserAction::Unmount));
    assert!(matches!(c.step(ChooserEvent::Unmounted), ChooserAction::Done(None)));
}

#[test]
fn chosen_partition_is_mounted_owned_only_where_the_filesystem_allows() {
    let (_, a) = mount_partition("/dev/sdb1", "vfat", Some(1000), 7, Platform::Linux);
    assert!(matches!(a, MountAction::CreateDir(ref d) if d == "/tmp/pyro-boot-7"));
    let (mut m, _) = mount_partition("/dev/sdb1", "vfat", Some(1000), 7, Platform::Linux);
    match m.step(pyro::bootconfig::MountEvent::DirCreated(Ok(()))) {
        MountAction::Run { program, args } => {
            assert_eq!(program, "mount");
            assert_eq!(args, vec!["-o", "uid=1000,gid=1000", "/dev/sdb1", "/tmp/pyro-boot-7"]);
        }
        _ => panic!("expected the mount command"),
    }
    let (mut m, _) = mount_partition("/dev/sdb2", "ext4", Some(1000), 7, Platform::Linux);
    match m.step(pyro::bootconfig::MountEvent::DirCreated(Ok(()))) {
        MountAction::Run { args, .. } => assert_eq!(args, vec!["/dev/sdb2", "/tmp/pyro-boot-7"]),
        _ => panic!("expected the mount command"),
    }
}
