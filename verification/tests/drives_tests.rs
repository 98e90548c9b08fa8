use pyro::drives::linux;
use pyro::drives::macos::{self, MacDisk, MacDiskInfo};
use pyro::drives::{as_bool, as_u64, describe, eq_ignore_case, is_system_mountpoint, JsonScalar, LsblkNode};

fn text(s: &str) -> JsonScalar {
    JsonScalar::Text(s.to_string())
}

fn node(name: &str, kind: &str, mountpoint: JsonScalar, children: Vec<LsblkNode>) -> LsblkNode {
    LsblkNode {
        name: text(name),
        path: JsonScalar::Null,
        size: JsonScalar::Number(Some(1000)),
        kind: text(kind),
        rm: JsonScalar::Null,
        hotplug: JsonScalar::Null,
        model: JsonScalar::Null,
        vendor: JsonScalar::Null,
        tran: JsonScalar::Null,
        mountpoint,
        mountpoints: vec![],
        children,
    }
}

#[test]
fn system_mountpoints() {
    for mp in ["/", "/boot", "/boot/efi", "/efi", "/home", "/var", "/usr", "/nix", "/recovery", "/bootstrap"] {
        assert!(is_system_mountpoint(mp), "{mp}");
    }
    for mp in ["/media/usb", "/mnt", "", "/homes"] {
        assert!(!is_system_mountpoint(mp), "{mp}");
    }
}

#[test]
fn scalar_fields() {
    assert_eq!(as_u64(&JsonScalar::Number(Some(5))), 5);
    assert_eq!(as_u64(&JsonScalar::Number(None)), 0);
    assert_eq!(as_u64(&text("31914983424")), 31914983424);
    assert_eq!(as_u64(&text("big")), 0);
    assert_eq!(as_u64(&JsonScalar::Bool(true)), 0);
    assert!(as_bool(&JsonScalar::Bool(true)));
    assert!(as_bool(&JsonScalar::Number(Some(1))));
    assert!(!as_bool(&JsonScalar::Number(Some(0))));
    assert!(as_bool(&text("1")));
    assert!(as_bool(&text("TRUE")));
    assert!(!as_bool(&text("yes")));
    assert!(!as_bool(&JsonScalar::Null));
    assert!(eq_ignore_case("TrUe", "true"));
    assert!(!eq_ignore_case("tru", "true"));
}

#[test]
fn descriptions() {
    let c = |s: &str| s.chars().collect::<Vec<char>>();
    assert_eq!(describe("/dev/sdb", &c("  "), &c("")), "/dev/sdb");
    assert_eq!(describe("/dev/sdb", &c(""), &c(" Cruzer ")), "Cruzer");
    assert_eq!(describe("/dev/sdb", &c("SanDisk "), &c("")), "SanDisk");
    assert_eq!(describe("/dev/sdb", &c("SanDisk "), &c("Cruzer")), "SanDisk Cruzer");
}

#[test]
fn linux_listing_flags_system_and_removable_disks() {
    let mut usb = node(
        "sdb",
        "disk",
        JsonScalar::Null,
        vec![
            node("sdb1", "part", text("/media/u/BOOT"), vec![]),
            node("sdb2", "part", text("/media/u/A"), vec![]),
        ],
    );
    usb.rm = JsonScalar::Bool(true);
    usb.vendor = text("SanDisk ");
    usb.model = text("Cruzer");
    usb.tran = text("usb");
    usb.mountpoints = vec![text("/media/u/A"), JsonScalar::Null, text("")];
    let mut internal = node("nvme0n1", "disk", JsonScalar::Null, vec![node("p", "part", text("/"), vec![])]);
    internal.path = text("/dev/nvme0n1");
    let rom = node("sr0", "rom", JsonScalar::Null, vec![]);
    let drives = linux::list(&vec![usb, rom, internal]);
    assert_eq!(drives.len(), 2);
    let d = &drives[0];
    assert_eq!(d.device, "/dev/sdb");
    assert_eq!(d.description, "SanDisk Cruzer");
    assert_eq!(d.size, 1000);
    assert!(d.is_removable && !d.is_system && d.is_mounted);
    assert_eq!(d.bus_type.as_deref(), Some("usb"));
    assert_eq!(d.mountpoints, vec!["/media/u/A", "/media/u/BOOT"]);
    let d = &drives[1];
    assert_eq!(d.device, "/dev/nvme0n1");
    assert_eq!(d.description, "/dev/nvme0n1");
    assert!(!d.is_removable && d.is_system);
    assert_eq!(d.bus_type, None);
}

#[test]
fn macos_listing_flags_internal_disks() {
    let external = MacDisk {
        id: Some("disk4".to_string()),
        partition_mounts: vec![Some("/Volumes/boot".to_string()), None, Some(String::new())],
        info: Some(MacDiskInfo {
            size: Some(32000),
            name: Some("Card Reader".to_string()),
            bus: Some("USB".to_string()),
            internal: Some(false),
            ejectable: Some(true),
            removable_media: None,
        }),
    };
    let internal = MacDisk {
        id: Some("disk0".to_string()),
        partition_mounts: vec![],
        info: Some(MacDiskInfo {
            size: None,
            name: Some(String::new()),
            bus: None,
            internal: Some(true),
            ejectable: None,
            removable_media: None,
        }),
    };
    let anonymous = MacDisk { id: None, partition_mounts: vec![], info: None };
    let drives = macos::list(&vec![external, anonymous, internal]);
    assert_eq!(drives.len(), 2);
    assert_eq!(drives[0].device, "/dev/disk4");
    assert_eq!(drives[0].description, "Card Reader");
    assert_eq!(drives[0].size, 32000);
    assert!(drives[0].is_removable && !drives[0].is_system && drives[0].is_mounted);
    assert_eq!(drives[0].mountpoints, vec!["/Volumes/boot"]);
    assert_eq!(drives[1].description, "disk0");
    assert!(!drives[1].is_removable && drives[1].is_system && !drives[1].is_mounted);
    assert_eq!(macos::device_path("disk2"), "/dev/disk2");
}
