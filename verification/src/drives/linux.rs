//! Linux: whole disks from the device tree that `lsblk --json` prints.

use vstd::prelude::*;

use crate::drives::{self, DriveInfo, LsblkNode};
use crate::order;
use crate::text;

verus! {

/// The flash-target records of the disks among `devices`, in order.
pub fn list(devices: &Vec<LsblkNode>) -> (r: Vec<DriveInfo>)
    ensures
        r@.len() == drives::disks_from(devices@, 0).len(),
        forall|k: int|
            0 <= k < r@.len() ==> drives::lsblk_drive(
                #[trigger] r@[k],
                drives::disks_from(devices@, 0)[k],
            ),
        forall|k: int, m: int|
            0 <= k < r@.len() && 0 <= m < r@[k].mountpoints@.len() && drives::system_mountpoint(
                #[trigger] r@[k].mountpoints@[m]@,
            ) ==> r@[k].is_system,
{
    let mut r: Vec<DriveInfo> = Vec::new();
    let ghost acc: Seq<LsblkNode> = seq![];
    let mut i: usize = 0;
    while i < devices.len()
        invariant
            i <= devices@.len(),
            drives::disks_from(devices@, 0) == acc + drives::disks_from(devices@, i as int),
            r@.len() == acc.len(),
            forall|k: int| 0 <= k < r@.len() ==> drives::lsblk_drive(#[trigger] r@[k], acc[k]),
        decreases devices.len() - i,
    {
        let dev = &devices[i];
        let is_disk = match drives::str_field(&dev.kind) {
            Some(k) => crate::compression::str_eq(k.as_str(), "disk"),
            None => false,
        };
        if is_disk {
            let path = match drives::str_field(&dev.path) {
                Some(p) => p,
                None => match drives::str_field(&dev.name) {
                    Some(n) => text::concat("/dev/", n.as_str()),
                    None => String::new(),
                },
            };
            if !path.as_str().is_empty() {
                assert(drives::disk_path(*dev) == Some(path@));
                let vendor = text_or_empty(&dev.vendor);
                let model = text_or_empty(&dev.model);
                let description = drives::describe(path.as_str(), vendor.as_slice(), model.as_slice());
                let removable = drives::as_bool(&dev.rm) || drives::as_bool(&dev.hotplug);
                let bus_type = drives::str_field(&dev.tran);
                let mut mounts: Vec<String> = Vec::new();
                collect(dev, &mut mounts);
                let mountpoints = order::sorted_unique(&mounts);
                let d = drives::make_record(
                    path,
                    description,
                    drives::as_u64(&dev.size),
                    removable,
                    !removable,
                    bus_type,
                    mountpoints,
                );
                proof {
                    assert(order::views(d.mountpoints@) == drives::views(d.mountpoints@));
                    assert(order::views(mounts@) =~= drives::node_mounts(*dev));
                    acc = acc.push(*dev);
                    assert(drives::disks_from(devices@, i as int) =~= seq![*dev]
                        + drives::disks_from(devices@, i + 1));
                }
                r.push(d);
                proof {
                    assert(drives::disks_from(devices@, 0) =~= acc + drives::disks_from(
                        devices@,
                        i + 1,
                    ));
                }
            }
        }
        i += 1;
    }
    assert(drives::disks_from(devices@, i as int) =~= seq![]);
    assert(acc + seq![] =~= acc);
    proof {
        assert forall|k: int, m: int|
            0 <= k < r@.len() && 0 <= m < r@[k].mountpoints@.len() && drives::system_mountpoint(
                #[trigger] r@[k].mountpoints@[m]@,
            ) implies r@[k].is_system by {
            let dev = drives::disks_from(devices@, 0)[k];
            let removable = drives::scalar_bool(dev.rm) || drives::scalar_bool(dev.hotplug);
            drives::lemma_record_system_mount(
                r@[k],
                drives::disk_path(dev).unwrap(),
                drives::description_of(
                    drives::disk_path(dev).unwrap(),
                    drives::text_or_empty(dev.vendor),
                    drives::text_or_empty(dev.model),
                ),
                drives::scalar_u64(dev.size),
                removable,
                !removable,
                drives::scalar_text(dev.tran),
                m,
            );
        }
    }
    r
}

fn text_or_empty(v: &drives::JsonScalar) -> (r: Vec<char>)
    ensures
        r@ == drives::text_or_empty(*v),
{
    match drives::str_field(v) {
        Some(t) => text::chars_of(t.as_str()),
        None => Vec::new(),
    }
}

fn collect(node: &LsblkNode, out: &mut Vec<String>)
    ensures
        drives::views(final(out)@) == drives::views(old(out)@) + drives::node_mounts(*node),
{
    drives::collect_mountpoints(node, out);
}

} // verus!
