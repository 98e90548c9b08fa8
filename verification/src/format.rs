//! Erasing a device and laying down one fresh filesystem: volume labels,
//! partition naming and the external tools' command lines.

use vstd::prelude::*;

use crate::compression::str_eq;
use crate::text;

verus! {

/// An external tool to run, with the hint to show when it is missing.
pub struct ToolCommand {
    pub bin: String,
    pub args: Vec<String>,
    pub missing_hint: String,
}

/// The views of a list of strings.
pub open spec fn views(v: Seq<String>) -> Seq<Seq<char>> {
    v.map_values(|s: String| s@)
}

/// The label used for an empty one.
pub open spec fn label_or_default(label: Seq<char>) -> Seq<char> {
    if label.len() == 0 {
        "PYRO"@
    } else {
        label
    }
}

fn label_or_default_exec(label: &str) -> (r: String)
    ensures
        r@ == label_or_default(label@),
{
    if label.is_empty() {
        "PYRO".to_owned()
    } else {
        label.to_owned()
    }
}

/// FAT labels are at most 11 chars, uppercased.
pub fn fat_label(label: &str) -> (r: String)
    ensures
        r@ == text::first_n(text::unicode_upper(label_or_default(label@)), 11),
{
    let l = label_or_default_exec(label);
    let u = text::to_uppercase(l.as_str());
    text::take_chars(u.as_str(), 11)
}

/// exFAT labels are at most 15 chars.
pub fn exfat_label(label: &str) -> (r: String)
    ensures
        r@ == text::first_n(label_or_default(label@), 15),
{
    let l = label_or_default_exec(label);
    text::take_chars(l.as_str(), 15)
}

/// ext4 labels are at most 16 chars.
pub fn ext_label(label: &str) -> (r: String)
    ensures
        r@ == text::first_n(label_or_default(label@), 16),
{
    let l = label_or_default_exec(label);
    text::take_chars(l.as_str(), 16)
}

pub open spec fn is_ascii_alnum(c: char) -> bool {
    ('0' <= c && c <= '9') || ('a' <= c && c <= 'z') || ('A' <= c && c <= 'Z')
}

/// `c`, or `_` where it is not an ASCII letter or digit.
pub open spec fn mac_char(c: char) -> char {
    if is_ascii_alnum(c) {
        c
    } else {
        '_'
    }
}

/// diskutil volume names: at most 15 characters, each an ASCII letter or
/// digit or `_`.
pub open spec fn mac_name(label: Seq<char>) -> Seq<char> {
    let cleaned = text::first_n(label_or_default(label).map_values(|c: char| mac_char(c)), 15);
    if cleaned.len() == 0 {
        "PYRO"@
    } else {
        cleaned
    }
}

/// diskutil volume names: keep it short and free of spaces/odd chars.
pub fn mac_label(label: &str) -> (r: String)
    ensures
        r@ == mac_name(label@),
{
    let l = label_or_default_exec(label);
    let v = text::chars_of(l.as_str());
    let n = if v.len() < 15 {
        v.len()
    } else {
        15
    };
    let mut out: Vec<char> = Vec::new();
    let mut i: usize = 0;
    while i < n
        invariant
            n <= v@.len(),
            i <= n,
            out@ == v@.take(i as int).map_values(|c: char| mac_char(c)),
        decreases n - i,
    {
        let c = v[i];
        let m = if ('0' <= c && c <= '9') || ('a' <= c && c <= 'z') || ('A' <= c && c <= 'Z') {
            c
        } else {
            '_'
        };
        out.push(m);
        i += 1;
        assert(out@ =~= v@.take(i as int).map_values(|c: char| mac_char(c)));
    }
    proof {
        let mapped = v@.map_values(|c: char| mac_char(c));
        if v@.len() <= 15 {
            assert(v@.take(n as int) =~= v@);
        } else {
            assert(mapped.take(15) =~= v@.take(15).map_values(|c: char| mac_char(c)));
        }
    }
    if out.len() == 0 {
        "PYRO".to_owned()
    } else {
        text::string_of(out.as_slice())
    }
}

/// A diskutil volume name is 1 to 15 characters, each an ASCII letter or
/// digit or `_`; a label that already is one is kept as it is, and an
/// empty label becomes `PYRO`.
pub proof fn lemma_mac_names(label: Seq<char>)
    ensures
        1 <= mac_name(label).len() <= 15,
        forall|i: int|
            0 <= i < mac_name(label).len() ==> is_ascii_alnum(#[trigger] mac_name(label)[i])
                || mac_name(label)[i] == '_',
        1 <= label.len() <= 15 && (forall|i: int| 0 <= i < label.len() ==> is_ascii_alnum(
            #[trigger] label[i],
        )) ==> mac_name(label) == label,
        label.len() == 0 ==> mac_name(label) == "PYRO"@,
{
    reveal_strlit("PYRO");
    let l = label_or_default(label);
    let mapped = l.map_values(|c: char| mac_char(c));
    let cleaned = text::first_n(mapped, 15);
    assert forall|i: int| 0 <= i < cleaned.len() implies is_ascii_alnum(#[trigger] cleaned[i])
        || cleaned[i] == '_' by {
        assert(cleaned[i] == mapped[i]);
    }
    let p = "PYRO"@;
    assert(p[0] == 'P' && p[1] == 'Y' && p[2] == 'R' && p[3] == 'O');
    assert forall|i: int| 0 <= i < p.len() implies is_ascii_alnum(#[trigger] p[i]) || p[i]
        == '_' by {}
    if 1 <= label.len() <= 15 && (forall|i: int| 0 <= i < label.len() ==> is_ascii_alnum(
        #[trigger] label[i],
    )) {
        assert(mapped =~= label);
    }
}

/// Labels are cut to what each filesystem takes: 11 characters for FAT,
/// 15 for exFAT, 16 for ext4; an empty label becomes `PYRO`, and a short
/// label is kept whole.
pub proof fn lemma_label_lengths(label: Seq<char>)
    ensures
        text::first_n(text::unicode_upper(label_or_default(label)), 11).len() <= 11,
        text::first_n(label_or_default(label), 15).len() <= 15,
        text::first_n(label_or_default(label), 16).len() <= 16,
        1 <= label.len() <= 15 ==> text::first_n(label_or_default(label), 15) == label,
        1 <= label.len() <= 16 ==> text::first_n(label_or_default(label), 16) == label,
        label.len() == 0 ==> text::first_n(label_or_default(label), 15) == "PYRO"@,
{
    reveal_strlit("PYRO");
}

/// The first partition of a Linux disk device: `p1` after a name that ends
/// in a digit (mmcblk0 -> mmcblk0p1, nvme0n1 -> nvme0n1p1), else `1`.
pub open spec fn first_partition(device: Seq<char>) -> Seq<char> {
    if device.len() > 0 && '0' <= device.last() && device.last() <= '9' {
        device + "p1"@
    } else {
        device + "1"@
    }
}

/// The path of the single partition that erasing creates on `device`.
pub fn partition_path(device: &str) -> (r: String)
    ensures
        r@ == first_partition(device@),
{
    let v = text::chars_of(device);
    if v.len() > 0 && '0' <= v[v.len() - 1] && v[v.len() - 1] <= '9' {
        text::concat(device, "p1")
    } else {
        text::concat(device, "1")
    }
}

/// `parted` arguments for an msdos table with one primary partition spanning
/// the device, typed for `filesystem`.
pub fn parted_args(device: &str, filesystem: &str) -> (r: Vec<String>)
    ensures
        views(r@) == seq![
            "-s"@,
            device@,
            "mklabel"@,
            "msdos"@,
            "mkpart"@,
            "primary"@,
            if filesystem@ == "ext4"@ {
                "ext4"@
            } else {
                "fat32"@
            },
            "1MiB"@,
            "100%"@,
        ],
{
    let hint = if str_eq(filesystem, "ext4") {
        "ext4".to_owned()
    } else {
        "fat32".to_owned()
    };
    let r = vec![
        "-s".to_owned(),
        device.to_owned(),
        "mklabel".to_owned(),
        "msdos".to_owned(),
        "mkpart".to_owned(),
        "primary".to_owned(),
        hint,
        "1MiB".to_owned(),
        "100%".to_owned(),
    ];
    assert(views(r@) =~= seq![
        "-s"@,
        device@,
        "mklabel"@,
        "msdos"@,
        "mkpart"@,
        "primary"@,
        if filesystem@ == "ext4"@ {
            "ext4"@
        } else {
            "fat32"@
        },
        "1MiB"@,
        "100%"@,
    ]);
    r
}

proof fn lemma_filesystem_names_differ()
    ensures
        "exfat"@ != "fat32"@,
        "exfat"@ != "ext4"@,
        "fat32"@ != "ext4"@,
{
    reveal_strlit("exfat");
    reveal_strlit("fat32");
    reveal_strlit("ext4");
    assert("exfat"@[0] != "fat32"@[0]);
    assert("exfat"@.len() != "ext4"@.len());
    assert("fat32"@[0] != "ext4"@[0]);
}

/// The `mkfs` command that formats partition `part` as `filesystem` with a
/// label derived from `label`.
pub fn mkfs_command(filesystem: &str, label: &str, part: &str) -> (r: Result<ToolCommand, String>)
    ensures
        filesystem@ == "exfat"@ ==> (r matches Ok(c) && c.bin@ == "mkfs.exfat"@ && views(c.args@)
            == seq!["-n"@, text::first_n(label_or_default(label@), 15), part@]
            && c.missing_hint@ == "install exfatprogs"@),
        filesystem@ == "fat32"@ ==> (r matches Ok(c) && c.bin@ == "mkfs.vfat"@ && views(c.args@)
            == seq![
            "-F"@,
            "32"@,
            "-n"@,
            text::first_n(text::unicode_upper(label_or_default(label@)), 11),
            part@,
        ] && c.missing_hint@ == "install dosfstools"@),
        filesystem@ == "ext4"@ ==> (r matches Ok(c) && c.bin@ == "mkfs.ext4"@ && views(c.args@)
            == seq!["-F"@, "-L"@, text::first_n(label_or_default(label@), 16), part@]
            && c.missing_hint@ == "install e2fsprogs"@),
        filesystem@ != "exfat"@ && filesystem@ != "fat32"@ && filesystem@ != "ext4"@ ==> (r matches Err(
            e,
        ) && e@ == "unsupported filesystem: "@ + filesystem@),
{
    proof {
        lemma_filesystem_names_differ();
    }
    if str_eq(filesystem, "exfat") {
        let args = vec!["-n".to_owned(), exfat_label(label), part.to_owned()];
        assert(views(args@) =~= seq!["-n"@, text::first_n(label_or_default(label@), 15), part@]);
        Ok(
            ToolCommand {
                bin: "mkfs.exfat".to_owned(),
                args,
                missing_hint: "install exfatprogs".to_owned(),
            },
        )
    } else if str_eq(filesystem, "fat32") {
        let args = vec![
            "-F".to_owned(),
            "32".to_owned(),
            "-n".to_owned(),
            fat_label(label),
            part.to_owned(),
        ];
        assert(views(args@) =~= seq![
            "-F"@,
            "32"@,
            "-n"@,
            text::first_n(text::unicode_upper(label_or_default(label@)), 11),
            part@,
        ]);
        Ok(
            ToolCommand {
                bin: "mkfs.vfat".to_owned(),
                args,
                missing_hint: "install dosfstools".to_owned(),
            },
        )
    } else if str_eq(filesystem, "ext4") {
        let args = vec!["-F".to_owned(), "-L".to_owned(), ext_label(label), part.to_owned()];
        assert(views(args@) =~= seq![
            "-F"@,
            "-L"@,
            text::first_n(label_or_default(label@), 16),
            part@,
        ]);
        Ok(
            ToolCommand {
                bin: "mkfs.ext4".to_owned(),
                args,
                missing_hint: "install e2fsprogs".to_owned(),
            },
        )
    } else {
        Err(text::concat("unsupported filesystem: ", filesystem))
    }
}

/// The `diskutil eraseDisk` command that lays down the partition table and
/// `filesystem` on `device` in one go.
pub fn mac_erase_command(filesystem: &str, label: &str, device: &str) -> (r: Result<
    ToolCommand,
    String,
>)
    ensures
        filesystem@ == "exfat"@ ==> (r matches Ok(c) && c.bin@ == "diskutil"@ && views(c.args@)
            == seq!["eraseDisk"@, "ExFAT"@, mac_name(label@), device@]),
        filesystem@ == "fat32"@ ==> (r matches Ok(c) && c.bin@ == "diskutil"@ && views(c.args@)
            == seq!["eraseDisk"@, "FAT32"@, mac_name(label@), device@]),
        r matches Ok(c) ==> c.missing_hint@ == "diskutil should be present on macOS"@,
        filesystem@ == "ext4"@ ==> (r matches Err(e) && e@
            == "ext4 is not supported on macOS — choose exFAT"@),
        filesystem@ != "exfat"@ && filesystem@ != "fat32"@ && filesystem@ != "ext4"@ ==> (r matches Err(
            e,
        ) && e@ == "unsupported filesystem: "@ + filesystem@),
{
    proof {
        lemma_filesystem_names_differ();
    }
    let dfs = if str_eq(filesystem, "exfat") {
        "ExFAT".to_owned()
    } else if str_eq(filesystem, "fat32") {
        "FAT32".to_owned()
    } else if str_eq(filesystem, "ext4") {
        return Err("ext4 is not supported on macOS — choose exFAT".to_owned());
    } else {
        return Err(text::concat("unsupported filesystem: ", filesystem));
    };
    let args = vec!["eraseDisk".to_owned(), dfs, mac_label(label), device.to_owned()];
    Ok(
        ToolCommand {
            bin: "diskutil".to_owned(),
            args,
            missing_hint: "diskutil should be present on macOS".to_owned(),
        },
    )
}

/// How running an external tool went.
pub enum ToolOutcome {
    /// The binary is not installed.
    NotFound,
    /// The tool could not be started, for the reason given.
    SpawnFailed(String),
    /// The tool ran; whether it exited with success, and its standard error.
    Exited { success: bool, stderr: String },
}

/// The result of running `bin`: success, or an error that says why not.
pub fn tool_result(bin: &str, missing_hint: &str, outcome: ToolOutcome) -> (r: Result<(), String>)
    ensures
        outcome matches ToolOutcome::NotFound ==> (r matches Err(e) && e@ == "`"@ + bin@
            + "` is not installed — "@ + missing_hint@),
        outcome matches ToolOutcome::SpawnFailed(m) ==> (r matches Err(e) && e@
            == "could not run "@ + bin@ + ": "@ + m@),
        outcome matches ToolOutcome::Exited { success, stderr } ==> (if success {
            r is Ok
        } else {
            r matches Err(e) && e@ == bin@ + " failed: "@ + text::trim(stderr@)
        }),
{
    match outcome {
        ToolOutcome::NotFound => {
            let mut e = "`".to_owned();
            text::push_str(&mut e, bin);
            text::push_str(&mut e, "` is not installed — ");
            text::push_str(&mut e, missing_hint);
            Err(e)
        },
        ToolOutcome::SpawnFailed(m) => {
            let mut e = "could not run ".to_owned();
            text::push_str(&mut e, bin);
            text::push_str(&mut e, ": ");
            text::push_str(&mut e, m.as_str());
            Err(e)
        },
        ToolOutcome::Exited { success, stderr } => {
            if success {
                Ok(())
            } else {
                let mut e = bin.to_owned();
                text::push_str(&mut e, " failed: ");
                let v = text::chars_of(stderr.as_str());
                let t = text::trimmed(v.as_slice());
                text::push_chars(&mut e, t.as_slice());
                Err(e)
            }
        },
    }
}

} // verus!
