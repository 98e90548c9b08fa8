//! macOS: whole physical disks from `diskutil list -plist physical`, with
//! details from `diskutil info -plist` of each.

use vstd::prelude::*;

use crate::drives::{self, DriveInfo};
use crate::text;

verus! {

/// What `diskutil info -plist` tells of a disk.
pub struct MacDiskInfo {
    /// `Size`, else `TotalSize`, where it is an unsigned integer.
    pub size: Option<u64>,
    /// `MediaName`, else `IORegistryEntryName`, where it is a string.
    pub name: Option<String>,
    /// `BusProtocol`, where it is a string.
    pub bus: Option<String>,
    pub internal: Option<bool>,
    pub ejectable: Option<bool>,
    pub removable_media: Option<bool>,
}

/// A disk of `diskutil list -plist physical`.
pub struct MacDisk {
    /// `DeviceIdentifier`, where it is a string.
    pub id: Option<String>,
    /// The `MountPoint` of each partition, where it is a string.
    pub partition_mounts: Vec<Option<String>>,
    /// The disk's details; `None` where `diskutil info` failed.
    pub info: Option<MacDiskInfo>,
}

/// The device path of the disk with identifier `id`.
pub fn device_path(id: &str) -> (r: String)
    ensures
        r@ == "/dev/"@ + id@,
{
    text::concat("/dev/", id)
}

/// The non-empty mountpoints among `ms[i..]`.
pub open spec fn mounts_from(ms: Seq<Option<String>>, i: int) -> Seq<Seq<char>>
    decreases ms.len() - i,
{
    if i < 0 || i >= ms.len() {
        seq![]
    } else {
        match ms[i] {
            Some(m) => if m@.len() > 0 {
                seq![m@] + mounts_from(ms, i + 1)
            } else {
                mounts_from(ms, i + 1)
            },
            None => mounts_from(ms, i + 1),
        }
    }
}

pub open spec fn mac_internal(info: Option<MacDiskInfo>) -> bool {
    info matches Some(i) && i.internal == Some(true)
}

pub open spec fn mac_removable(info: Option<MacDiskInfo>) -> bool {
    (info matches Some(i) && i.ejectable == Some(true)) || (info matches Some(i)
        && i.removable_media == Some(true)) || !mac_internal(info)
}

/// The record `diskutil` gives for `disk`, whose identifier is known: its
/// mountpoints in partition order. Internal disks count as system disks.
pub open spec fn mac_drive(d: DriveInfo, disk: MacDisk) -> bool {
    let id = disk.id.unwrap()@;
    let description = match disk.info {
        Some(i) => match i.name {
            Some(n) => if n@.len() > 0 {
                n@
            } else {
                id
            },
            None => id,
        },
        None => id,
    };
    let size = match disk.info {
        Some(i) => match i.size {
            Some(s) => s,
            None => 0,
        },
        None => 0,
    };
    let bus = match disk.info {
        Some(i) => match i.bus {
            Some(b) => Some(b@),
            None => None,
        },
        None => None,
    };
    &&& drives::drive_record(
        d,
        "/dev/"@ + id,
        description,
        size,
        mac_removable(disk.info),
        mac_internal(disk.info),
        bus,
    )
    &&& drives::views(d.mountpoints@) == mounts_from(disk.partition_mounts@, 0)
}

/// The disks among `ds[i..]` that have an identifier.
pub open spec fn identified_from(ds: Seq<MacDisk>, i: int) -> Seq<MacDisk>
    decreases ds.len() - i,
{
    if i < 0 || i >= ds.len() {
        seq![]
    } else if ds[i].id is Some {
        seq![ds[i]] + identified_from(ds, i + 1)
    } else {
        identified_from(ds, i + 1)
    }
}

fn mounts_of(ms: &Vec<Option<String>>) -> (r: Vec<String>)
    ensures
        drives::views(r@) == mounts_from(ms@, 0),
{
    let mut r: Vec<String> = Vec::new();
    let mut i: usize = 0;
    while i < ms.len()
        invariant
            i <= ms@.len(),
            drives::views(r@) + mounts_from(ms@, i as int) == mounts_from(ms@, 0),
        decreases ms.len() - i,
    {
        let ghost before = drives::views(r@);
        if let Some(m) = &ms[i] {
            if !m.as_str().is_empty() {
                r.push(m.clone());
                assert(drives::views(r@) =~= before.push(m@));
                assert(before + mounts_from(ms@, i as int) =~= drives::views(r@) + mounts_from(
                    ms@,
                    i + 1,
                ));
            }
        }
        i += 1;
    }
    assert(mounts_from(ms@, i as int) =~= seq![]);
    assert(drives::views(r@) + seq![] =~= drives::views(r@));
    r
}

/// The record of one identified disk.
fn drive_of(disk: &MacDisk) -> (d: DriveInfo)
    requires
        disk.id is Some,
    ensures
        mac_drive(d, *disk),
{
    let id = match &disk.id {
        Some(s) => s.clone(),
        None => String::new(),
    };
    let device = device_path(id.as_str());
    let mountpoints = mounts_of(&disk.partition_mounts);
    let (size, description, bus, internal, removable) = match &disk.info {
        Some(i) => {
            let size = match i.size {
                Some(s) => s,
                None => 0,
            };
            let description = match &i.name {
                Some(n) => if !n.as_str().is_empty() {
                    n.clone()
                } else {
                    id.clone()
                },
                None => id.clone(),
            };
            let bus = match &i.bus {
                Some(b) => Some(b.clone()),
                None => None,
            };
            let internal = match i.internal {
                Some(b) => b,
                None => false,
            };
            let ejectable = match i.ejectable {
                Some(b) => b,
                None => false,
            };
            let removable_media = match i.removable_media {
                Some(b) => b,
                None => false,
            };
            (size, description, bus, internal, ejectable || removable_media || !internal)
        },
        None => (0, id.clone(), None, false, true),
    };
    drives::make_record(device, description, size, removable, internal, bus, mountpoints)
}

/// The flash-target records of the identified disks among `disks`, in order.
pub fn list(disks: &Vec<MacDisk>) -> (r: Vec<DriveInfo>)
    ensures
        r@.len() == identified_from(disks@, 0).len(),
        forall|k: int|
            0 <= k < r@.len() ==> mac_drive(#[trigger] r@[k], identified_from(disks@, 0)[k]),
        forall|k: int, m: int|
            0 <= k < r@.len() && 0 <= m < r@[k].mountpoints@.len() && drives::system_mountpoint(
                #[trigger] r@[k].mountpoints@[m]@,
            ) ==> r@[k].is_system,
{
    let mut r: Vec<DriveInfo> = Vec::new();
    let ghost acc: Seq<MacDisk> = seq![];
    let mut i: usize = 0;
    while i < disks.len()
        invariant
            i <= disks@.len(),
            identified_from(disks@, 0) == acc + identified_from(disks@, i as int),
            r@.len() == acc.len(),
            forall|k: int| 0 <= k < r@.len() ==> mac_drive(#[trigger] r@[k], acc[k]),
        decreases disks.len() - i,
    {
        if disks[i].id.is_some() {
            let d = drive_of(&disks[i]);
            proof {
                acc = acc.push(disks@[i as int]);
                assert(identified_from(disks@, i as int) =~= seq![disks@[i as int]]
                    + identified_from(disks@, i + 1));
                assert(identified_from(disks@, 0) =~= acc + identified_from(disks@, i + 1));
            }
            r.push(d);
        }
        i += 1;
    }
    assert(identified_from(disks@, i as int) =~= seq![]);
    assert(acc + seq![] =~= acc);
    proof {
        assert forall|k: int, m: int|
            0 <= k < r@.len() && 0 <= m < r@[k].mountpoints@.len() && drives::system_mountpoint(
                #[trigger] r@[k].mountpoints@[m]@,
            ) implies r@[k].is_system by {
            assert(mac_drive(r@[k], identified_from(disks@, 0)[k]));
            assert(drives::views(r@[k].mountpoints@)[m] == r@[k].mountpoints@[m]@);
        }
    }
    r
}

/// A disk of a `diskutil` listing with a partition mounted at a system
/// mountpoint is flagged a system disk, whatever its removability.
pub proof fn lemma_mac_system_disk(d: DriveInfo, disk: MacDisk, m: Seq<char>)
    requires
        mac_drive(d, disk),
        mounts_from(disk.partition_mounts@, 0).contains(m),
        drives::system_mountpoint(m),
    ensures
        d.is_system,
{
    let mps = drives::views(d.mountpoints@);
    let t = choose|t: int| 0 <= t < mps.len() && mps[t] == m;
    assert(drives::has_system_mount(mps));
}

} // verus!
