//! The boot partition of a freshly written device: finding it in the
//! listings of `lsblk` and `diskutil`, and the mounted partitions that must
//! be unmounted before a device is written or erased.

use vstd::prelude::*;

use crate::compression::str_eq;
use crate::text;

verus! {

/// A mounted boot partition.
pub struct Mount {
    pub dir: String,
    pub partition: String,
}

/// Word `i` of `ws`, or the empty string where there is none.
pub open spec fn field(ws: Seq<Seq<char>>, i: int) -> Seq<char> {
    if 0 <= i < ws.len() {
        ws[i]
    } else {
        Seq::<char>::empty()
    }
}

/// The filesystem types that `lsblk` reports for FAT volumes.
pub open spec fn is_fat_type(t: Seq<char>) -> bool {
    t == "vfat"@ || t == "fat"@ || t == "fat12"@ || t == "fat16"@ || t == "fat32"@ || t
        == "msdos"@
}

/// A `PATH FSTYPE` line of `lsblk` that names a FAT partition other than
/// `device` itself.
pub open spec fn fat_line(line: Seq<char>, device: Seq<char>) -> bool {
    let w = text::words(line);
    let p = field(w, 0);
    &&& p != device
    &&& p.len() > 0
    &&& is_fat_type(text::unicode_lower(field(w, 1)))
}

/// The path of the first FAT partition among `ls[i..]`.
pub open spec fn first_fat(ls: Seq<Seq<char>>, device: Seq<char>, i: int) -> Option<Seq<char>>
    decreases ls.len() - i,
{
    if i < 0 || i >= ls.len() {
        None
    } else if fat_line(ls[i], device) {
        Some(field(text::words(ls[i]), 0))
    } else {
        first_fat(ls, device, i + 1)
    }
}

pub open spec fn no_partition_message(device: Seq<char>) -> Seq<char> {
    "no FAT/boot partition found on "@ + device
}

/// The filesystem types that count as FAT are exactly `vfat`, `fat`,
/// `fat12`, `fat16`, `fat32` and `msdos`.
pub proof fn lemma_fat_types(t: Seq<char>)
    ensures
        is_fat_type(t) <==> (t == "vfat"@ || t == "fat"@ || t == "fat12"@ || t == "fat16"@ || t
            == "fat32"@ || t == "msdos"@),
{
}

/// The Linux search finds the first line that names a FAT partition other
/// than the device itself, and answers its path.
pub proof fn lemma_first_fat(ls: Seq<Seq<char>>, device: Seq<char>, i: int)
    requires
        0 <= i < ls.len(),
        fat_line(ls[i], device),
        forall|j: int| 0 <= j < i ==> !fat_line(#[trigger] ls[j], device),
    ensures
        first_fat(ls, device, 0) == Some(field(text::words(ls[i]), 0)),
{
    lemma_first_fat_from(ls, device, 0, i);
}

proof fn lemma_first_fat_from(ls: Seq<Seq<char>>, device: Seq<char>, k: int, i: int)
    requires
        0 <= k <= i < ls.len(),
        fat_line(ls[i], device),
        forall|j: int| 0 <= j < i ==> !fat_line(#[trigger] ls[j], device),
    ensures
        first_fat(ls, device, k) == Some(field(text::words(ls[i]), 0)),
    decreases i - k,
{
    if k < i {
        assert(!fat_line(ls[k], device));
        lemma_first_fat_from(ls, device, k + 1, i);
    }
}

fn field_of(ws: &Vec<Vec<char>>, i: usize) -> (r: Vec<char>)
    requires
        forall|t: int| 0 <= t < ws@.len() ==> #[trigger] ws@[t]@ == ws@[t]@,
    ensures
        r@ == field(ws@.map_values(|w: Vec<char>| w@), i as int),
{
    if i < ws.len() {
        text::chars_range(ws[i].as_slice(), 0, ws[i].len())
    } else {
        Vec::new()
    }
}

fn is_fat_type_exec(t: &str) -> (b: bool)
    ensures
        b == is_fat_type(t@),
{
    str_eq(t, "vfat") || str_eq(t, "fat") || str_eq(t, "fat12") || str_eq(t, "fat16") || str_eq(
        t,
        "fat32",
    ) || str_eq(t, "msdos")
}

/// The words of `line`, as views.
fn words_of(line: &[char]) -> (r: Vec<Vec<char>>)
    ensures
        r@.map_values(|w: Vec<char>| w@) == text::words(line@),
{
    let r = text::split_words(line);
    assert(r@.map_values(|w: Vec<char>| w@) =~= text::words(line@));
    r
}

/// The FAT partition of `device` in the output of `lsblk -nro PATH,FSTYPE`.
pub fn find_fat_partition_linux(device: &str, listing: &str) -> (r: Result<String, String>)
    ensures
        match first_fat(text::lines(listing@), device@, 0) {
            Some(p) => r matches Ok(s) && s@ == p,
            None => r matches Err(e) && e@ == no_partition_message(device@),
        },
{
    let v = text::chars_of(listing);
    let ls = text::split_lines(v.as_slice());
    let ghost lv = text::lines(v@);
    let mut i: usize = 0;
    while i < ls.len()
        invariant
            i <= ls@.len(),
            ls@.len() == lv.len(),
            lv == text::lines(listing@),
            forall|t: int| 0 <= t < ls@.len() ==> #[trigger] ls@[t]@ == lv[t],
            first_fat(lv, device@, i as int) == first_fat(lv, device@, 0),
        decreases ls.len() - i,
    {
        let w = words_of(ls[i].as_slice());
        let ghost wv = w@.map_values(|x: Vec<char>| x@);
        assert(wv == text::words(lv[i as int]));
        let p = field_of(&w, 0);
        let t = field_of(&w, 1);
        let ts = text::string_of(t.as_slice());
        let lower = text::to_lowercase(ts.as_str());
        let ps = text::string_of(p.as_slice());
        if !str_eq(ps.as_str(), device) && p.len() > 0 && is_fat_type_exec(lower.as_str()) {
            return Ok(ps);
        }
        i += 1;
    }
    Err(text::concat("no FAT/boot partition found on ", device))
}

/// A `PATH MOUNTPOINT` line of `lsblk` for a mounted partition.
pub open spec fn mounted_line(line: Seq<char>) -> bool {
    let w = text::words(line);
    field(w, 1).len() > 0 && field(w, 0).len() > 0
}

/// The paths of the mounted partitions among `ls[i..]`, in order.
pub open spec fn mounted_from(ls: Seq<Seq<char>>, i: int) -> Seq<Seq<char>>
    decreases ls.len() - i,
{
    if i < 0 || i >= ls.len() {
        seq![]
    } else if mounted_line(ls[i]) {
        seq![field(text::words(ls[i]), 0)] + mounted_from(ls, i + 1)
    } else {
        mounted_from(ls, i + 1)
    }
}

/// The partitions to unmount, from the output of `lsblk -nro PATH,MOUNTPOINT`.
pub fn mounted_partitions(listing: &str) -> (r: Vec<String>)
    ensures
        r@.map_values(|s: String| s@) == mounted_from(text::lines(listing@), 0),
{
    let v = text::chars_of(listing);
    let ls = text::split_lines(v.as_slice());
    let ghost lv = text::lines(v@);
    let mut out: Vec<String> = Vec::new();
    let mut i: usize = 0;
    while i < ls.len()
        invariant
            i <= ls@.len(),
            ls@.len() == lv.len(),
            lv == text::lines(listing@),
            forall|t: int| 0 <= t < ls@.len() ==> #[trigger] ls@[t]@ == lv[t],
            mounted_from(lv, 0) == out@.map_values(|s: String| s@) + mounted_from(lv, i as int),
        decreases ls.len() - i,
    {
        let w = words_of(ls[i].as_slice());
        let p = field_of(&w, 0);
        let m = field_of(&w, 1);
        if m.len() > 0 && p.len() > 0 {
            let ps = text::string_of(p.as_slice());
            let ghost before = out@.map_values(|s: String| s@);
            out.push(ps);
            assert(out@.map_values(|s: String| s@) =~= before.push(p@));
            assert(before + mounted_from(lv, i as int) =~= before.push(p@) + mounted_from(
                lv,
                i + 1,
            ));
        }
        i += 1;
    }
    assert(mounted_from(lv, i as int) =~= seq![]);
    assert(out@.map_values(|s: String| s@) + seq![] =~= out@.map_values(|s: String| s@));
    out
}

/// The `diskutil list` partition types that mark a FAT boot partition.
pub open spec fn mac_markers() -> Seq<Seq<char>> {
    seq![
        "Windows_FAT_32"@,
        "Windows_FAT_16"@,
        "DOS_FAT_32"@,
        "DOS_FAT_16"@,
        "Microsoft Basic Data"@,
        "EFI"@,
    ]
}

pub open spec fn has_marker(line: Seq<char>) -> bool {
    exists|j: int| 0 <= j < mac_markers().len() && text::find(line, #[trigger] mac_markers()[j]) is Some
}

/// A `diskutil list` line for a FAT partition whose identifier, its last
/// word, starts with `disk`.
pub open spec fn mac_fat_line(line: Seq<char>) -> bool {
    let w = text::words(line);
    &&& has_marker(line)
    &&& w.len() > 0
    &&& text::starts_with(w.last(), "disk"@)
}

/// The device path of the first FAT partition among `ls[i..]`.
pub open spec fn first_mac_fat(ls: Seq<Seq<char>>, i: int) -> Option<Seq<char>>
    decreases ls.len() - i,
{
    if i < 0 || i >= ls.len() {
        None
    } else if mac_fat_line(ls[i]) {
        Some("/dev/"@ + text::words(ls[i]).last())
    } else {
        first_mac_fat(ls, i + 1)
    }
}

/// A `diskutil list` line names a FAT boot partition exactly when it
/// mentions one of the partition types `Windows_FAT_32`, `Windows_FAT_16`,
/// `DOS_FAT_32`, `DOS_FAT_16`, `Microsoft Basic Data` or `EFI` and its last
/// word, the partition's identifier, starts with `disk`.
pub proof fn lemma_mac_fat_lines(line: Seq<char>)
    ensures
        mac_fat_line(line) <==> ((text::find(line, "Windows_FAT_32"@) is Some || text::find(
            line,
            "Windows_FAT_16"@,
        ) is Some || text::find(line, "DOS_FAT_32"@) is Some || text::find(line, "DOS_FAT_16"@) is Some
            || text::find(line, "Microsoft Basic Data"@) is Some || text::find(line, "EFI"@) is Some)
            && text::words(line).len() > 0 && text::starts_with(text::words(line).last(), "disk"@)),
{
    let ms = mac_markers();
    assert(ms[0] == "Windows_FAT_32"@);
    assert(ms[1] == "Windows_FAT_16"@);
    assert(ms[2] == "DOS_FAT_32"@);
    assert(ms[3] == "DOS_FAT_16"@);
    assert(ms[4] == "Microsoft Basic Data"@);
    assert(ms[5] == "EFI"@);
    if text::find(line, "Windows_FAT_32"@) is Some {
        assert(text::find(line, ms[0]) is Some);
    }
    if text::find(line, "Windows_FAT_16"@) is Some {
        assert(text::find(line, ms[1]) is Some);
    }
    if text::find(line, "DOS_FAT_32"@) is Some {
        assert(text::find(line, ms[2]) is Some);
    }
    if text::find(line, "DOS_FAT_16"@) is Some {
        assert(text::find(line, ms[3]) is Some);
    }
    if text::find(line, "Microsoft Basic Data"@) is Some {
        assert(text::find(line, ms[4]) is Some);
    }
    if text::find(line, "EFI"@) is Some {
        assert(text::find(line, ms[5]) is Some);
    }
}

/// The macOS search finds the first line that names a FAT boot partition,
/// and answers `/dev/` and that line's identifier.
pub proof fn lemma_first_mac_fat(ls: Seq<Seq<char>>, i: int)
    requires
        0 <= i < ls.len(),
        mac_fat_line(ls[i]),
        forall|j: int| 0 <= j < i ==> !mac_fat_line(#[trigger] ls[j]),
    ensures
        first_mac_fat(ls, 0) == Some("/dev/"@ + text::words(ls[i]).last()),
{
    lemma_first_mac_fat_from(ls, 0, i);
}

proof fn lemma_first_mac_fat_from(ls: Seq<Seq<char>>, k: int, i: int)
    requires
        0 <= k <= i < ls.len(),
        mac_fat_line(ls[i]),
        forall|j: int| 0 <= j < i ==> !mac_fat_line(#[trigger] ls[j]),
    ensures
        first_mac_fat(ls, k) == Some("/dev/"@ + text::words(ls[i]).last()),
    decreases i - k,
{
    if k < i {
        assert(!mac_fat_line(ls[k]));
        lemma_first_mac_fat_from(ls, k + 1, i);
    }
}

fn line_has_marker(line: &[char]) -> (b: bool)
    ensures
        b == has_marker(line@),
{
    let markers = vec![
        text::chars_of("Windows_FAT_32"),
        text::chars_of("Windows_FAT_16"),
        text::chars_of("DOS_FAT_32"),
        text::chars_of("DOS_FAT_16"),
        text::chars_of("Microsoft Basic Data"),
        text::chars_of("EFI"),
    ];
    assert(markers@.map_values(|m: Vec<char>| m@) =~= mac_markers());
    let mut j: usize = 0;
    while j < markers.len()
        invariant
            markers@.map_values(|m: Vec<char>| m@) == mac_markers(),
            markers@.len() == 6,
            j <= 6,
            forall|t: int| 0 <= t < j ==> text::find(line@, #[trigger] mac_markers()[t]) is None,
        decreases markers.len() - j,
    {
        assert(markers@[j as int]@ == mac_markers()[j as int]);
        if text::find_at(line, markers[j].as_slice(), 0).is_some() {
            return true;
        }
        j += 1;
    }
    false
}

/// The FAT partition of `device` in the output of `diskutil list`.
pub fn find_fat_partition_macos(device: &str, listing: &str) -> (r: Result<String, String>)
    ensures
        match first_mac_fat(text::lines(listing@), 0) {
            Some(p) => r matches Ok(s) && s@ == p,
            None => r matches Err(e) && e@ == no_partition_message(device@),
        },
{
    let v = text::chars_of(listing);
    let ls = text::split_lines(v.as_slice());
    let ghost lv = text::lines(v@);
    let disk = vec!['d', 'i', 's', 'k'];
    proof {
        reveal_strlit("disk");
    }
    assert(disk@ =~= "disk"@);
    let mut i: usize = 0;
    while i < ls.len()
        invariant
            disk@ == "disk"@,
            i <= ls@.len(),
            ls@.len() == lv.len(),
            lv == text::lines(listing@),
            forall|t: int| 0 <= t < ls@.len() ==> #[trigger] ls@[t]@ == lv[t],
            first_mac_fat(lv, i as int) == first_mac_fat(lv, 0),
        decreases ls.len() - i,
    {
        if line_has_marker(ls[i].as_slice()) {
            let w = words_of(ls[i].as_slice());
            assert(w@.len() == text::words(lv[i as int]).len());
            if w.len() > 0 {
                let last = &w[w.len() - 1];
                assert(last@ == text::words(lv[i as int]).last());
                let starts = last.len() >= 4 && text::matches_at(last.as_slice(), disk.as_slice(), 0);
                proof {
                    if last@.len() >= 4 {
                        assert(last@.subrange(0, 4) =~= last@.take(4));
                    }
                }
                if starts {
                    let mut s = "/dev/".to_owned();
                    text::push_chars(&mut s, last.as_slice());
                    return Ok(s);
                }
                proof {
                    reveal_strlit("disk");
                    if last@.len() >= 4 {
                        assert(!text::occurs_at(last@, "disk"@, 0));
                        assert(last@.subrange(0, 4) != "disk"@);
                    }
                    assert(!text::starts_with(last@, "disk"@));
                    assert(!mac_fat_line(lv[i as int]));
                }
            }
        }
        i += 1;
    }
    Err(text::concat("no FAT/boot partition found on ", device))
}


/// The systems the boot partition can be mounted on.
#[derive(PartialEq, Eq, Structural, Clone, Copy, Debug)]
pub enum Platform {
    Linux,
    MacOs,
    Other,
}

/// Where mounting the boot partition stands.
#[derive(PartialEq, Eq, Structural, Clone, Copy, Debug)]
pub enum MountStage {
    Probing,
    Listing,
    CreatingDir,
    Mounting,
    RemovingDir,
    Finished,
}

/// What to do next while mounting the boot partition.
pub enum MountAction {
    /// Re-read the device's partition table (`partprobe`), then wait 800 ms.
    Probe(String),
    /// List the device's partitions: `lsblk -nro PATH,FSTYPE` on Linux,
    /// `diskutil list` on macOS.
    ListPartitions(String),
    /// Create the mountpoint directory (and its parents).
    CreateDir(String),
    /// Run the mount command.
    Run { program: String, args: Vec<String> },
    /// Remove the mountpoint directory.
    RemoveDir(String),
    /// Mounting is over.
    Done(Result<Mount, String>),
}

/// What came of the last action.
pub enum MountEvent {
    /// A probe or a directory removal completed (its outcome is ignored).
    Completed,
    /// The partition listing, or why it could not be had.
    Listed(Result<String, String>),
    /// The mountpoint directory was created, or why not.
    DirCreated(Result<(), String>),
    /// Whether the mount command succeeded, or why it could not run.
    Ran(Result<bool, String>),
}

/// Mounting the boot partition of a device, step by step.
pub struct MountBoot {
    platform: Platform,
    stage: MountStage,
    device: String,
    uid: Option<u32>,
    pid: u32,
    dir: String,
    partition: String,
}

/// The mountpoint for this process.
pub open spec fn mount_dir(pid: u32) -> Seq<char> {
    "/tmp/pyro-boot-"@ + text::dec_digits(pid as nat)
}

/// The mount command for `partition` at `dir`: on Linux, owned by `uid`
/// where given so that the unprivileged GUI can edit it.
pub open spec fn mount_args(platform: Platform, uid: Option<u32>, partition: Seq<char>, dir: Seq<char>) -> Seq<Seq<char>> {
    if platform == Platform::MacOs {
        seq!["mount"@, "-mountPoint"@, dir, partition]
    } else {
        match uid {
            Some(u) => seq![
                "-o"@,
                "uid="@ + text::dec_digits(u as nat) + ",gid="@ + text::dec_digits(u as nat),
                partition,
                dir,
            ],
            None => seq![partition, dir],
        }
    }
}

pub open spec fn mount_program(platform: Platform) -> Seq<char> {
    if platform == Platform::MacOs {
        "diskutil"@
    } else {
        "mount"@
    }
}

/// The partition a listing names for `device` on `platform`.
pub open spec fn partition_in(platform: Platform, device: Seq<char>, listing: Seq<char>) -> Option<Seq<char>> {
    if platform == Platform::MacOs {
        first_mac_fat(text::lines(listing), 0)
    } else {
        first_fat(text::lines(listing), device, 0)
    }
}

/// Starts mounting the boot partition of `device` for process `pid`. On
/// Linux, if `uid` is given the FAT volume is mounted owned by that user.
pub fn mount_boot(device: &str, uid: Option<u32>, pid: u32, platform: Platform) -> (r: (
    MountBoot,
    MountAction,
))
    ensures
        r.0.device()@ == device@,
        r.0.platform() == platform,
        r.0.uid() == uid,
        r.0.pid() == pid,
        platform == Platform::Linux ==> r.0.stage() == MountStage::Probing && (r.1 matches MountAction::Probe(d) && d@ == device@),
        platform == Platform::MacOs ==> r.0.stage() == MountStage::Listing && (r.1 matches MountAction::ListPartitions(d) && d@ == device@),
        platform == Platform::Other ==> r.0.stage() == MountStage::Finished && (r.1 matches MountAction::Done(Err(e)) && e@ == "boot-partition mounting is not supported on this OS"@),
{
    let m = MountBoot {
        platform,
        stage: MountStage::Probing,
        device: device.to_owned(),
        uid,
        pid,
        dir: String::new(),
        partition: String::new(),
    };
    match platform {
        Platform::Linux => (m, MountAction::Probe(device.to_owned())),
        Platform::MacOs => (
            MountBoot { stage: MountStage::Listing, ..m },
            MountAction::ListPartitions(device.to_owned()),
        ),
        Platform::Other => (
            MountBoot { stage: MountStage::Finished, ..m },
            MountAction::Done(Err("boot-partition mounting is not supported on this OS".to_owned())),
        ),
    }
}

/// Filesystems that keep no owner of their own, so that a mount can make a
/// user their owner through `uid=`/`gid=` options.
pub open spec fn takes_owner_options(fstype: Seq<char>) -> bool {
    let t = text::unicode_lower(fstype);
    is_fat_type(t) || t == "exfat"@ || t == "ntfs"@
}

fn takes_owner_options_exec(fstype: &str) -> (b: bool)
    ensures
        b == takes_owner_options(fstype@),
{
    let t = text::to_lowercase(fstype);
    is_fat_type_exec(t.as_str()) || str_eq(t.as_str(), "exfat") || str_eq(t.as_str(), "ntfs")
}

/// Starts mounting `partition`, of filesystem `fstype`, chosen by the user,
/// for process `pid`. On Linux, if `uid` is given and the filesystem takes
/// owner options, it is mounted owned by that user.
pub fn mount_partition(partition: &str, fstype: &str, uid: Option<u32>, pid: u32, platform: Platform) -> (r: (
    MountBoot,
    MountAction,
))
    ensures
        r.0.device()@ == partition@,
        r.0.platform() == platform,
        r.0.uid() == if takes_owner_options(fstype@) {
            uid
        } else {
            None
        },
        r.0.pid() == pid,
        platform != Platform::Other ==> r.0.stage() == MountStage::CreatingDir && r.0.partition()
            == partition@ && (r.1 matches MountAction::CreateDir(d) && d@ == mount_dir(pid)),
        platform == Platform::Other ==> r.0.stage() == MountStage::Finished && (r.1 matches MountAction::Done(Err(e)) && e@ == "boot-partition mounting is not supported on this OS"@),
{
    let owner = if takes_owner_options_exec(fstype) {
        uid
    } else {
        None
    };
    let m = MountBoot {
        platform,
        stage: MountStage::CreatingDir,
        device: partition.to_owned(),
        uid: owner,
        pid,
        dir: String::new(),
        partition: partition.to_owned(),
    };
    if platform == Platform::Other {
        (
            MountBoot { stage: MountStage::Finished, ..m },
            MountAction::Done(Err("boot-partition mounting is not supported on this OS".to_owned())),
        )
    } else {
        let d = m.mountpoint();
        (MountBoot { dir: d.clone(), ..m }, MountAction::CreateDir(d))
    }
}

impl MountBoot {
    pub closed spec fn device(&self) -> String {
        self.device
    }

    pub closed spec fn platform(&self) -> Platform {
        self.platform
    }

    pub closed spec fn uid(&self) -> Option<u32> {
        self.uid
    }

    pub closed spec fn pid(&self) -> u32 {
        self.pid
    }

    pub closed spec fn stage(&self) -> MountStage {
        self.stage
    }

    /// The partition found by the listing.
    pub closed spec fn partition(&self) -> Seq<char> {
        self.partition@
    }

    /// `ev` answers the action of the current stage.
    pub open spec fn accepts(&self, ev: MountEvent) -> bool {
        match self.stage() {
            MountStage::Probing => ev is Completed,
            MountStage::Listing => ev is Listed,
            MountStage::CreatingDir => ev is DirCreated,
            MountStage::Mounting => ev is Ran,
            MountStage::RemovingDir => ev is Completed,
            MountStage::Finished => false,
        }
    }

    /// Whether `ev` answers the action of the current stage.
    pub fn accepts_event(&self, ev: &MountEvent) -> (b: bool)
        ensures
            b == self.accepts(*ev),
    {
        match self.stage {
            MountStage::Probing => matches!(ev, MountEvent::Completed),
            MountStage::Listing => matches!(ev, MountEvent::Listed(_)),
            MountStage::CreatingDir => matches!(ev, MountEvent::DirCreated(_)),
            MountStage::Mounting => matches!(ev, MountEvent::Ran(_)),
            MountStage::RemovingDir => matches!(ev, MountEvent::Completed),
            MountStage::Finished => false,
        }
    }

    /// The next action, given what came of the last one. A failed listing,
    /// directory or mount command ends it with that error; a mount that
    /// fails removes the directory and ends with `failed to mount`.
    pub fn step(&mut self, ev: MountEvent) -> (a: MountAction)
        requires
            old(self).accepts(ev),
        ensures
            final(self).device() == old(self).device(),
            final(self).platform() == old(self).platform(),
            final(self).uid() == old(self).uid(),
            final(self).pid() == old(self).pid(),
            old(self).stage() == MountStage::Probing ==> final(self).stage() == MountStage::Listing
                && (a matches MountAction::ListPartitions(d) && d@ == old(self).device()@),
            old(self).stage() == MountStage::Listing ==> match ev {
                MountEvent::Listed(Err(e)) => final(self).stage() == MountStage::Finished && a
                    == MountAction::Done(Err(e)),
                MountEvent::Listed(Ok(l)) => match partition_in(
                    old(self).platform(),
                    old(self).device()@,
                    l@,
                ) {
                    None => final(self).stage() == MountStage::Finished && (a matches MountAction::Done(Err(e))
                        && e@ == no_partition_message(old(self).device()@)),
                    Some(p) => final(self).stage() == MountStage::CreatingDir && final(self).partition() == p && (a matches MountAction::CreateDir(d) && d@ == mount_dir(old(self).pid())),
                },
                _ => false,
            },
            old(self).stage() == MountStage::CreatingDir ==> match ev {
                MountEvent::DirCreated(Err(e)) => final(self).stage() == MountStage::Finished && a
                    == MountAction::Done(Err(e)),
                MountEvent::DirCreated(Ok(())) => final(self).stage() == MountStage::Mounting
                    && final(self).partition() == old(self).partition() && (a matches MountAction::Run { program, args }
                    && program@ == mount_program(old(self).platform()) && args@.map_values(
                    |s: String| s@,
                ) == mount_args(
                    old(self).platform(),
                    old(self).uid(),
                    old(self).partition(),
                    mount_dir(old(self).pid()),
                )),
                _ => false,
            },
            old(self).stage() == MountStage::Mounting ==> match ev {
                MountEvent::Ran(Err(e)) => final(self).stage() == MountStage::Finished && a
                    == MountAction::Done(Err(e)),
                MountEvent::Ran(Ok(true)) => final(self).stage() == MountStage::Finished && (a matches MountAction::Done(Ok(m))
                    && m.dir@ == mount_dir(old(self).pid()) && m.partition@ == old(self).partition()),
                MountEvent::Ran(Ok(false)) => final(self).stage() == MountStage::RemovingDir
                    && final(self).partition() == old(self).partition() && (a matches MountAction::RemoveDir(d) && d@ == mount_dir(old(self).pid())),
                _ => false,
            },
            old(self).stage() == MountStage::RemovingDir ==> final(self).stage()
                == MountStage::Finished && (a matches MountAction::Done(Err(e)) && e@
                == "failed to mount "@ + old(self).partition()),
    {
        match self.stage {
            MountStage::Probing => {
                self.stage = MountStage::Listing;
                MountAction::ListPartitions(self.device.clone())
            },
            MountStage::Listing => {
                let listing = match ev {
                    MountEvent::Listed(Ok(l)) => l,
                    MountEvent::Listed(Err(e)) => {
                        self.stage = MountStage::Finished;
                        return MountAction::Done(Err(e));
                    },
                    _ => {
                        self.stage = MountStage::Finished;
                        return MountAction::Done(Err(String::new()));
                    },
                };
                let found = if self.platform == Platform::MacOs {
                    find_fat_partition_macos(self.device.as_str(), listing.as_str())
                } else {
                    find_fat_partition_linux(self.device.as_str(), listing.as_str())
                };
                match found {
                    Err(e) => {
                        self.stage = MountStage::Finished;
                        MountAction::Done(Err(e))
                    },
                    Ok(p) => {
                        self.partition = p;
                        self.dir = self.mountpoint();
                        self.stage = MountStage::CreatingDir;
                        MountAction::CreateDir(self.dir.clone())
                    },
                }
            },
            MountStage::CreatingDir => {
                match ev {
                    MountEvent::DirCreated(Ok(())) => {},
                    MountEvent::DirCreated(Err(e)) => {
                        self.stage = MountStage::Finished;
                        return MountAction::Done(Err(e));
                    },
                    _ => {
                        self.stage = MountStage::Finished;
                        return MountAction::Done(Err(String::new()));
                    },
                }
                self.dir = self.mountpoint();
                let args = self.mount_command_args();
                self.stage = MountStage::Mounting;
                let program = if self.platform == Platform::MacOs {
                    "diskutil".to_owned()
                } else {
                    "mount".to_owned()
                };
                MountAction::Run { program, args }
            },
            MountStage::Mounting => {
                self.stage = MountStage::Finished;
                match ev {
                    MountEvent::Ran(Ok(true)) => MountAction::Done(
                        Ok(Mount { dir: self.mountpoint(), partition: self.partition.clone() }),
                    ),
                    MountEvent::Ran(Ok(false)) => {
                        self.stage = MountStage::RemovingDir;
                        MountAction::RemoveDir(self.mountpoint())
                    },
                    MountEvent::Ran(Err(e)) => MountAction::Done(Err(e)),
                    _ => MountAction::Done(Err(String::new())),
                }
            },
            MountStage::RemovingDir => {
                self.stage = MountStage::Finished;
                MountAction::Done(Err(text::concat("failed to mount ", self.partition.as_str())))
            },
            MountStage::Finished => MountAction::Done(Err(String::new())),
        }
    }

    fn mountpoint(&self) -> (d: String)
        ensures
            d@ == mount_dir(self.pid),
    {
        let mut d = "/tmp/pyro-boot-".to_owned();
        text::push_decimal(&mut d, self.pid as u64);
        d
    }

    fn mount_command_args(&self) -> (r: Vec<String>)
        ensures
            r@.map_values(|s: String| s@) == mount_args(
                self.platform,
                self.uid,
                self.partition@,
                mount_dir(self.pid),
            ),
    {
        let dir = self.mountpoint();
        if self.platform == Platform::MacOs {
            let r = vec!["mount".to_owned(), "-mountPoint".to_owned(), dir, self.partition.clone()];
            assert(r@.map_values(|s: String| s@) =~= mount_args(
                self.platform,
                self.uid,
                self.partition@,
                mount_dir(self.pid),
            ));
            r
        } else {
            match self.uid {
                Some(u) => {
                    let mut o = "uid=".to_owned();
                    text::push_decimal(&mut o, u as u64);
                    text::push_str(&mut o, ",gid=");
                    text::push_decimal(&mut o, u as u64);
                    let r = vec!["-o".to_owned(), o, self.partition.clone(), dir];
                    assert(r@.map_values(|s: String| s@) =~= mount_args(
                        self.platform,
                        self.uid,
                        self.partition@,
                        mount_dir(self.pid),
                    ));
                    r
                },
                None => {
                    let r = vec![self.partition.clone(), dir];
                    assert(r@.map_values(|s: String| s@) =~= mount_args(
                        self.platform,
                        self.uid,
                        self.partition@,
                        mount_dir(self.pid),
                    ));
                    r
                },
            }
        }
    }
}

} // verus!
