use pyro::bootconfig::{
    find_fat_partition_linux, find_fat_partition_macos, mount_boot, mounted_partitions, MountAction,
    MountEvent, MountStage, Platform,
};
use pyro::bootedit::{boot_entries, guard, BootEntry};

#[test]
fn finds_linux_fat_partition() {
    let listing = "/dev/sdb \n/dev/sdb1 VFAT\n/dev/sdb2 ext4\n";
    assert_eq!(find_fat_partition_linux("/dev/sdb", listing), Ok("/dev/sdb1".to_string()));
    let none = "/dev/sdb vfat\n/dev/sdb2 ext4\n";
    assert_eq!(
        find_fat_partition_linux("/dev/sdb", none),
        Err("no FAT/boot partition found on /dev/sdb".to_string())
    );
}

#[test]
fn lists_mounted_partitions() {
    let listing = "/dev/sdb\n/dev/sdb1 /media/u/BOOT\n/dev/sdb2 /media/u/root\n/dev/sdb3\n";
    assert_eq!(mounted_partitions(listing), vec!["/dev/sdb1", "/dev/sdb2"]);
    assert!(mounted_partitions("").is_empty());
}

#[test]
fn finds_macos_fat_partition() {
    let listing = "/dev/disk4 (external, physical):\n   #:  TYPE NAME  SIZE  IDENTIFIER\n   0:  FDisk_partition_scheme  *31.9 GB  disk4\n   1:  Windows_FAT_32 bootfs  268.4 MB  disk4s1\n   2:  Linux  31.6 GB  disk4s2\n";
    assert_eq!(find_fat_partition_macos("/dev/disk4", listing), Ok("/dev/disk4s1".to_string()));
    assert_eq!(
        find_fat_partition_macos("/dev/disk4", "   1:  EFI EFI 209.7 MB  nope\n"),
        Err("no FAT/boot partition found on /dev/disk4".to_string())
    );
}

#[test]
fn mounts_boot_partition_on_linux_owned_by_user() {
    let (mut m, a) = mount_boot("/dev/sdb", Some(1000), 77, Platform::Linux);
    assert!(matches!(a, MountAction::Probe(ref d) if d == "/dev/sdb"));
    let a = m.step(MountEvent::Completed);
    assert!(matches!(a, MountAction::ListPartitions(ref d) if d == "/dev/sdb"));
    let a = m.step(MountEvent::Listed(Ok("/dev/sdb\n/dev/sdb1 vfat\n".to_string())));
    assert!(matches!(a, MountAction::CreateDir(ref d) if d == "/tmp/pyro-boot-77"));
    let a = m.step(MountEvent::DirCreated(Ok(())));
    match a {
        MountAction::Run { program, args } => {
            assert_eq!(program, "mount");
            assert_eq!(args, vec!["-o", "uid=1000,gid=1000", "/dev/sdb1", "/tmp/pyro-boot-77"]);
        }
        _ => panic!("expected the mount command"),
    }
    match m.step(MountEvent::Ran(Ok(true))) {
        MountAction::Done(Ok(mount)) => {
            assert_eq!(mount.dir, "/tmp/pyro-boot-77");
            assert_eq!(mount.partition, "/dev/sdb1");
        }
        _ => panic!("expected a mount"),
    }
}

#[test]
fn failed_mount_removes_directory() {
    let (mut m, _) = mount_boot("/dev/disk4", None, 5, Platform::MacOs);
    let a = m.step(MountEvent::Listed(Ok("  1:  DOS_FAT_32 boot 1 GB disk4s1\n".to_string())));
    assert!(matches!(a, MountAction::CreateDir(_)));
    match m.step(MountEvent::DirCreated(Ok(()))) {
        MountAction::Run { program, args } => {
            assert_eq!(program, "diskutil");
            assert_eq!(args, vec!["mount", "-mountPoint", "/tmp/pyro-boot-5", "/dev/disk4s1"]);
        }
        _ => panic!("expected the mount command"),
    }
    assert!(matches!(m.step(MountEvent::Ran(Ok(false))), MountAction::RemoveDir(_)));
    match m.step(MountEvent::Completed) {
        MountAction::Done(Err(e)) => assert_eq!(e, "failed to mount /dev/disk4s1"),
        _ => panic!("expected failure"),
    }
    assert!(!m.accepts_event(&MountEvent::Completed));
}

#[test]
fn mount_stops_on_listing_errors_and_other_systems() {
    let (mut m, _) = mount_boot("/dev/sdc", None, 1, Platform::Linux);
    m.step(MountEvent::Completed);
    match m.step(MountEvent::Listed(Ok("/dev/sdc1 ext4\n".to_string()))) {
        MountAction::Done(Err(e)) => assert_eq!(e, "no FAT/boot partition found on /dev/sdc"),
        _ => panic!("expected failure"),
    }
    let (m, a) = mount_boot("/dev/x", None, 1, Platform::Other);
    assert!(!m.accepts_event(&MountEvent::Completed));
    match a {
        MountAction::Done(Err(e)) => assert_eq!(e, "boot-partition mounting is not supported on this OS"),
        _ => panic!("expected failure"),
    }
    let _ = MountStage::Finished;
}

#[test]
fn guard_keeps_to_boot_mountpoint() {
    assert_eq!(guard("/tmp/pyro-boot-12/config.txt"), Ok(()));
    assert_eq!(guard("/tmp/pyro-boot-12/../etc/passwd").unwrap_err(), "path is outside the boot partition");
    assert!(guard("/etc/passwd").is_err());
    assert!(guard("/tmp/pyro-boo").is_err());
}

fn entry(name: &str, is_dir: bool) -> BootEntry {
    BootEntry { name: name.to_string(), is_dir, size: 1 }
}

#[test]
fn listing_hides_dotfiles_and_puts_directories_first() {
    let out = boot_entries(vec![
        entry("config.txt", false),
        entry(".Trashes", true),
        entry("overlays", true),
        entry("Cmdline.txt", false),
        entry("EFI", true),
        entry(".hidden", false),
    ]);
    let names: Vec<(String, bool)> = out.into_iter().map(|e| (e.name, e.is_dir)).collect();
    assert_eq!(
        names,
        vec![
            ("EFI".to_string(), true),
            ("overlays".to_string(), true),
            ("Cmdline.txt".to_string(), false),
            ("config.txt".to_string(), false),
        ]
    );
}

#[test]
fn entries_of_equal_rank_keep_their_order() {
    let out = boot_entries(vec![
        BootEntry { name: "b.txt".to_string(), is_dir: false, size: 1 },
        BootEntry { name: "README".to_string(), is_dir: false, size: 2 },
        BootEntry { name: "readme".to_string(), is_dir: false, size: 3 },
        BootEntry { name: "a".to_string(), is_dir: true, size: 4 },
    ]);
    let got: Vec<(String, u64)> = out.into_iter().map(|e| (e.name, e.size)).collect();
    assert_eq!(
        got,
        vec![
            ("a".to_string(), 4),
            ("b.txt".to_string(), 1),
            ("README".to_string(), 2),
            ("readme".to_string(), 3),
        ]
    );
}
