//! Storage devices that may be flash targets: the device record, and how the
//! system listings (`lsblk --json` on Linux, `diskutil` on macOS) become
//! records with safety flags, so that system disks are never offered as a
//! casual target.

use vstd::prelude::*;

use crate::compression::str_eq;
use crate::order;
use crate::text;

pub mod linux;
pub mod macos;

verus! {

/// A storage device that may be a flash target.
pub struct DriveInfo {
    pub device: String,
    pub description: String,
    pub size: u64,
    pub is_removable: bool,
    pub is_system: bool,
    pub is_mounted: bool,
    pub bus_type: Option<String>,
    pub mountpoints: Vec<String>,
}

/// Mountpoints that, if present on a disk, mark it as a system disk we must
/// never offer as a casual flash target.
pub open spec fn system_mountpoint(mp: Seq<char>) -> bool {
    ||| mp == "/"@
    ||| mp == "/boot/efi"@
    ||| mp == "/efi"@
    ||| mp == "/home"@
    ||| mp == "/var"@
    ||| mp == "/usr"@
    ||| mp == "/nix"@
    ||| mp == "/recovery"@
    ||| text::starts_with(mp, "/boot"@)
}

/// The mountpoints that mark a system disk: `/`, everything under
/// `/boot`, `/efi`, `/home`, `/var`, `/usr`, `/nix` and `/recovery`.
pub proof fn lemma_system_mountpoints(mp: Seq<char>)
    ensures
        mp == "/"@ ==> system_mountpoint(mp),
        mp.len() >= 5 && mp.take(5) == "/boot"@ ==> system_mountpoint(mp),
        mp == "/efi"@ ==> system_mountpoint(mp),
        mp == "/home"@ ==> system_mountpoint(mp),
        mp == "/var"@ ==> system_mountpoint(mp),
        mp == "/usr"@ ==> system_mountpoint(mp),
        mp == "/nix"@ ==> system_mountpoint(mp),
        mp == "/recovery"@ ==> system_mountpoint(mp),
{
    reveal_strlit("/boot");
}

/// Whether `mp` marks its disk as a system disk.
pub fn is_system_mountpoint(mp: &str) -> (b: bool)
    ensures
        b == system_mountpoint(mp@),
{
    let v = text::chars_of(mp);
    let boot = vec!['/', 'b', 'o', 'o', 't'];
    proof {
        reveal_strlit("/boot");
    }
    assert(boot@ =~= "/boot"@);
    let starts = v.len() >= 5 && text::matches_at(v.as_slice(), boot.as_slice(), 0);
    proof {
        if v@.len() >= 5 {
            assert(v@.subrange(0, 5) =~= v@.take(5));
        }
    }
    str_eq(mp, "/") || str_eq(mp, "/boot/efi") || str_eq(mp, "/efi") || str_eq(mp, "/home")
        || str_eq(mp, "/var") || str_eq(mp, "/usr") || str_eq(mp, "/nix") || str_eq(
        mp,
        "/recovery",
    ) || starts
}

/// Whether any of `mps` is a system mountpoint.
fn any_system_mountpoint(mps: &Vec<String>) -> (b: bool)
    ensures
        b == exists|i: int| 0 <= i < mps@.len() && system_mountpoint(#[trigger] mps@[i]@),
{
    let mut i: usize = 0;
    while i < mps.len()
        invariant
            i <= mps@.len(),
            forall|t: int| 0 <= t < i ==> !system_mountpoint(#[trigger] mps@[t]@),
        decreases mps.len() - i,
    {
        if is_system_mountpoint(mps[i].as_str()) {
            return true;
        }
        i += 1;
    }
    false
}

/// A JSON value where `lsblk` puts a scalar.
pub enum JsonScalar {
    /// Missing, or `null`.
    Null,
    Bool(bool),
    /// A number: its value where it is a `u64`, else `None`.
    Number(Option<u64>),
    Text(String),
    /// An array or an object.
    Other,
}

/// A field read as a number: a `u64`, or a string that parses as one; 0
/// otherwise.
pub open spec fn scalar_u64(v: JsonScalar) -> u64 {
    match v {
        JsonScalar::Number(Some(n)) => n,
        JsonScalar::Text(s) => match text::parse_uint(s@, 0xffff_ffff_ffff_ffff) {
            Some(n) => n as u64,
            None => 0,
        },
        _ => 0,
    }
}

/// ASCII case folding of one character.
pub open spec fn ascii_lower(c: char) -> char {
    if 'A' <= c && c <= 'Z' {
        ((c as u8) + 32) as char
    } else {
        c
    }
}

/// `a` and `b` are equal ignoring ASCII case (`str::eq_ignore_ascii_case`).
pub open spec fn eq_ignore_ascii_case(a: Seq<char>, b: Seq<char>) -> bool {
    a.len() == b.len() && forall|i: int| 0 <= i < a.len() ==> ascii_lower(#[trigger] a[i])
        == ascii_lower(b[i])
}

/// A field read as a flag: a boolean, a nonzero number, or `"1"`/`"true"`
/// in any ASCII case.
pub open spec fn scalar_bool(v: JsonScalar) -> bool {
    match v {
        JsonScalar::Bool(b) => b,
        JsonScalar::Number(n) => match n {
            Some(x) => x != 0,
            None => false,
        },
        JsonScalar::Text(s) => s@ == "1"@ || eq_ignore_ascii_case(s@, "true"@),
        _ => false,
    }
}

/// A field read as non-empty text.
pub open spec fn scalar_text(v: JsonScalar) -> Option<Seq<char>> {
    match v {
        JsonScalar::Text(s) => if s@.len() > 0 {
            Some(s@)
        } else {
            None
        },
        _ => None,
    }
}

fn lower_ascii(c: char) -> (r: char)
    ensures
        r == ascii_lower(c),
{
    if 'A' <= c && c <= 'Z' {
        ((c as u8) + 32) as char
    } else {
        c
    }
}

/// Whether `a` and `b` are equal ignoring ASCII case.
pub fn eq_ignore_case(a: &str, b: &str) -> (r: bool)
    ensures
        r == eq_ignore_ascii_case(a@, b@),
{
    let x = text::chars_of(a);
    let y = text::chars_of(b);
    if x.len() != y.len() {
        return false;
    }
    let mut i: usize = 0;
    while i < x.len()
        invariant
            x@.len() == y@.len(),
            x@ == a@,
            y@ == b@,
            i <= x@.len(),
            forall|t: int| 0 <= t < i ==> ascii_lower(#[trigger] x@[t]) == ascii_lower(y@[t]),
        decreases x.len() - i,
    {
        if lower_ascii(x[i]) != lower_ascii(y[i]) {
            return false;
        }
        i += 1;
    }
    true
}

/// A field read as a number (`as_u64` of a listing).
pub fn as_u64(v: &JsonScalar) -> (n: u64)
    ensures
        n == scalar_u64(*v),
{
    match v {
        JsonScalar::Number(Some(n)) => *n,
        JsonScalar::Text(s) => {
            let c = text::chars_of(s.as_str());
            assert(c@.subrange(0, c@.len() as int) =~= c@);
            match text::parse_uint_range(c.as_slice(), 0, c.len(), 0xffff_ffff_ffff_ffff) {
                Some(n) => n,
                None => 0,
            }
        },
        _ => 0,
    }
}

/// A field read as a flag (`as_bool` of a listing).
pub fn as_bool(v: &JsonScalar) -> (b: bool)
    ensures
        b == scalar_bool(*v),
{
    match v {
        JsonScalar::Bool(b) => *b,
        JsonScalar::Number(n) => match n {
            Some(x) => *x != 0,
            None => false,
        },
        JsonScalar::Text(s) => str_eq(s.as_str(), "1") || eq_ignore_case(s.as_str(), "true"),
        _ => false,
    }
}

/// A field read as non-empty text.
pub fn str_field(v: &JsonScalar) -> (r: Option<String>)
    ensures
        match r {
            Some(s) => scalar_text(*v) == Some(s@),
            None => scalar_text(*v) is None,
        },
{
    match v {
        JsonScalar::Text(s) => if !s.as_str().is_empty() {
            Some(s.clone())
        } else {
            None
        },
        _ => None,
    }
}


/// A device node of `lsblk --json`, with the fields the listing reads.
pub struct LsblkNode {
    pub name: JsonScalar,
    pub path: JsonScalar,
    pub size: JsonScalar,
    pub kind: JsonScalar,
    pub rm: JsonScalar,
    pub hotplug: JsonScalar,
    pub model: JsonScalar,
    pub vendor: JsonScalar,
    pub tran: JsonScalar,
    pub mountpoint: JsonScalar,
    /// The `mountpoints` array (newer `lsblk`); empty where there is none.
    pub mountpoints: Vec<JsonScalar>,
    /// The partitions and other nodes below this one.
    pub children: Vec<LsblkNode>,
}

/// The non-empty strings among `ms[i..]`.
pub open spec fn texts_from(ms: Seq<JsonScalar>, i: int) -> Seq<Seq<char>>
    decreases ms.len() - i,
{
    if i < 0 || i >= ms.len() {
        seq![]
    } else {
        match ms[i] {
            JsonScalar::Text(s) => if s@.len() > 0 {
                seq![s@] + texts_from(ms, i + 1)
            } else {
                texts_from(ms, i + 1)
            },
            _ => texts_from(ms, i + 1),
        }
    }
}

/// Every mountpoint on `node` and its descendants: its `mountpoints`, its
/// `mountpoint`, then those of its children in turn.
pub open spec fn node_mounts(node: LsblkNode) -> Seq<Seq<char>>
    decreases node, 1int,
{
    let own = texts_from(node.mountpoints@, 0) + match scalar_text(node.mountpoint) {
        Some(m) => seq![m],
        None => seq![],
    };
    own + children_mounts(node.children@, 0)
}

/// The mountpoints of `cs[i..]` and their descendants.
pub open spec fn children_mounts(cs: Seq<LsblkNode>, i: int) -> Seq<Seq<char>>
    decreases cs, cs.len() - i,
{
    if i < 0 || i >= cs.len() {
        seq![]
    } else {
        node_mounts(cs[i]) + children_mounts(cs, i + 1)
    }
}


/// The views of a list of strings.
pub open spec fn views(v: Seq<String>) -> Seq<Seq<char>> {
    v.map_values(|s: String| s@)
}

/// Appends the non-empty strings of `ms` to `out`.
fn push_texts(ms: &Vec<JsonScalar>, out: &mut Vec<String>)
    ensures
        views(final(out)@) == views(old(out)@) + texts_from(ms@, 0),
{
    let ghost base = views(out@);
    let mut i: usize = 0;
    while i < ms.len()
        invariant
            i <= ms@.len(),
            views(out@) + texts_from(ms@, i as int) == base + texts_from(ms@, 0),
        decreases ms.len() - i,
    {
        let ghost before = views(out@);
        if let JsonScalar::Text(t) = &ms[i] {
            if !t.as_str().is_empty() {
                out.push(t.clone());
                assert(views(out@) =~= before.push(t@));
                assert(before + texts_from(ms@, i as int) =~= views(out@) + texts_from(
                    ms@,
                    i + 1,
                ));
            }
        }
        i += 1;
    }
    assert(texts_from(ms@, i as int) =~= seq![]);
    assert(views(out@) + seq![] =~= views(out@));
}

/// Collect every mountpoint on a node and its descendants.
fn collect_mountpoints(node: &LsblkNode, out: &mut Vec<String>)
    ensures
        views(final(out)@) == views(old(out)@) + node_mounts(*node),
    decreases node,
{
    let ghost base = views(out@);
    push_texts(&node.mountpoints, out);
    let ghost after_list = views(out@);
    match str_field(&node.mountpoint) {
        Some(m) => {
            out.push(m);
            assert(views(out@) =~= after_list.push(m@));
        },
        None => {},
    }
    let ghost own = views(out@);
    assert(own =~= base + (texts_from(node.mountpoints@, 0) + match scalar_text(
        node.mountpoint,
    ) {
        Some(m) => seq![m],
        None => seq![],
    }));
    let mut i: usize = 0;
    while i < node.children.len()
        invariant
            i <= node.children@.len(),
            views(out@) + children_mounts(node.children@, i as int) == own + children_mounts(
                node.children@,
                0,
            ),
        decreases node.children.len() - i,
    {
        let ghost before = views(out@);
        collect_mountpoints(&node.children[i], out);
        assert(before + children_mounts(node.children@, i as int) =~= views(out@)
            + children_mounts(node.children@, i + 1));
        i += 1;
    }
    assert(children_mounts(node.children@, i as int) =~= seq![]);
    assert(views(out@) + seq![] =~= views(out@));
}

/// The whole-disk path of `dev`: `path`, else `/dev/` and `name`; `None` for
/// a node that is not a disk or has neither.
pub open spec fn disk_path(dev: LsblkNode) -> Option<Seq<char>> {
    if scalar_text(dev.kind) != Some("disk"@) {
        None
    } else {
        let p = match scalar_text(dev.path) {
            Some(p) => p,
            None => match scalar_text(dev.name) {
                Some(n) => "/dev/"@ + n,
                None => Seq::<char>::empty(),
            },
        };
        if p.len() == 0 {
            None
        } else {
            Some(p)
        }
    }
}

/// A text field, or the empty string.
pub open spec fn text_or_empty(v: JsonScalar) -> Seq<char> {
    match scalar_text(v) {
        Some(t) => t,
        None => Seq::<char>::empty(),
    }
}

/// The description: vendor and model, trimmed, joined by a space where both
/// are there; the path where neither is.
pub open spec fn description_of(path: Seq<char>, vendor: Seq<char>, model: Seq<char>) -> Seq<char> {
    let v = text::trim(vendor);
    let m = text::trim(model);
    if v.len() == 0 && m.len() == 0 {
        path
    } else if v.len() == 0 {
        m
    } else if m.len() == 0 {
        v
    } else {
        v + " "@ + m
    }
}

/// `mps` holds a system mountpoint.
pub open spec fn has_system_mount(mps: Seq<Seq<char>>) -> bool {
    exists|i: int| 0 <= i < mps.len() && system_mountpoint(#[trigger] mps[i])
}

/// The record of a device: the given fields, with safety flags from its
/// mountpoints and removability.
pub open spec fn drive_record(
    d: DriveInfo,
    device: Seq<char>,
    description: Seq<char>,
    size: u64,
    removable: bool,
    internal: bool,
    bus: Option<Seq<char>>,
) -> bool {
    let mps = views(d.mountpoints@);
    &&& d.device@ == device
    &&& d.description@ == description
    &&& d.size == size
    &&& d.is_removable == removable
    &&& d.is_system == (has_system_mount(mps) || internal)
    &&& d.is_mounted == (mps.len() > 0)
    &&& match bus {
        Some(b) => d.bus_type matches Some(t) && t@ == b,
        None => d.bus_type is None,
    }
}

/// The record `lsblk` gives for disk node `dev`: its mountpoints sorted and
/// each listed once. Internal (non-removable) disks count as system disks,
/// to keep them safe.
pub open spec fn lsblk_drive(d: DriveInfo, dev: LsblkNode) -> bool {
    let removable = scalar_bool(dev.rm) || scalar_bool(dev.hotplug);
    &&& drive_record(
        d,
        disk_path(dev).unwrap(),
        description_of(disk_path(dev).unwrap(), text_or_empty(dev.vendor), text_or_empty(dev.model)),
        scalar_u64(dev.size),
        removable,
        !removable,
        scalar_text(dev.tran),
    )
    &&& order::strictly_sorted(views(d.mountpoints@))
    &&& views(d.mountpoints@).to_set() == node_mounts(dev).to_set()
}

/// The disk nodes among `devs[i..]`.
pub open spec fn disks_from(devs: Seq<LsblkNode>, i: int) -> Seq<LsblkNode>
    decreases devs.len() - i,
{
    if i < 0 || i >= devs.len() {
        seq![]
    } else if disk_path(devs[i]) is Some {
        seq![devs[i]] + disks_from(devs, i + 1)
    } else {
        disks_from(devs, i + 1)
    }
}

/// The description of a disk from its path, vendor and model.
pub fn describe(path: &str, vendor: &[char], model: &[char]) -> (r: String)
    ensures
        r@ == description_of(path@, vendor@, model@),
{
    let (v0, v1) = text::trim_bounds(vendor, 0, vendor.len());
    let (m0, m1) = text::trim_bounds(model, 0, model.len());
    assert(vendor@.subrange(0, vendor@.len() as int) =~= vendor@);
    assert(model@.subrange(0, model@.len() as int) =~= model@);
    if v0 == v1 && m0 == m1 {
        path.to_owned()
    } else if v0 == v1 {
        text::string_of_range(model, m0, m1)
    } else if m0 == m1 {
        text::string_of_range(vendor, v0, v1)
    } else {
        let mut s = text::string_of_range(vendor, v0, v1);
        text::push_char(&mut s, ' ');
        let m = text::chars_range(model, m0, m1);
        text::push_chars(&mut s, m.as_slice());
        proof {
            reveal_strlit(" ");
            assert(s@ =~= vendor@.subrange(v0 as int, v1 as int) + " "@ + model@.subrange(
                m0 as int,
                m1 as int,
            ));
        }
        s
    }
}

/// The record of a device from its parts.
pub fn make_record(
    device: String,
    description: String,
    size: u64,
    removable: bool,
    internal: bool,
    bus_type: Option<String>,
    mountpoints: Vec<String>,
) -> (d: DriveInfo)
    ensures
        drive_record(
            d,
            device@,
            description@,
            size,
            removable,
            internal,
            match bus_type {
                Some(b) => Some(b@),
                None => None,
            },
        ),
        d.mountpoints == mountpoints,
        d.is_system == ((exists|i: int|
            0 <= i < mountpoints@.len() && system_mountpoint(#[trigger] mountpoints@[i]@))
            || internal),
        d.is_removable == removable,
{
    let has_system = any_system_mountpoint(&mountpoints);
    proof {
        let mps = views(mountpoints@);
        if has_system {
            let i = choose|i: int|
                0 <= i < mountpoints@.len() && system_mountpoint(#[trigger] mountpoints@[i]@);
            assert(mps[i] == mountpoints@[i]@);
        } else {
            assert forall|i: int| 0 <= i < mps.len() implies !system_mountpoint(
                #[trigger] mps[i],
            ) by {
                assert(mps[i] == mountpoints@[i]@);
            }
        }
    }
    let is_mounted = mountpoints.len() > 0;
    DriveInfo {
        device,
        description,
        size,
        is_removable: removable,
        is_system: has_system || internal,
        is_mounted,
        bus_type,
        mountpoints,
    }
}

/// A record whose mountpoints include a system mountpoint is a system
/// disk.
pub proof fn lemma_record_system_mount(d: DriveInfo, device: Seq<char>, description: Seq<char>, size: u64, removable: bool, internal: bool, bus: Option<Seq<char>>, m: int)
    requires
        drive_record(d, device, description, size, removable, internal, bus),
        0 <= m < d.mountpoints@.len(),
        system_mountpoint(d.mountpoints@[m]@),
    ensures
        d.is_system,
{
    assert(views(d.mountpoints@)[m] == d.mountpoints@[m]@);
}

/// The mountpoints of the nodes `cs[i..]` include those of each of them.
proof fn lemma_children_mounts_include(cs: Seq<LsblkNode>, i: int, j: int, m: Seq<char>)
    requires
        0 <= i <= j < cs.len(),
        node_mounts(cs[j]).contains(m),
    ensures
        children_mounts(cs, i).contains(m),
    decreases j - i,
{
    let here = node_mounts(cs[i]);
    let rest = children_mounts(cs, i + 1);
    assert(children_mounts(cs, i) == here + rest);
    if i == j {
        let t = choose|t: int| 0 <= t < here.len() && here[t] == m;
        assert((here + rest)[t] == m);
    } else {
        lemma_children_mounts_include(cs, i + 1, j, m);
        let t = choose|t: int| 0 <= t < rest.len() && rest[t] == m;
        assert((here + rest)[here.len() + t] == m);
    }
}

/// A disk of an `lsblk` listing that carries a system mountpoint, on itself
/// or on any of its partitions, is flagged a system disk, whatever its
/// removability: the disk the running system lives on is never offered as
/// a casual target.
pub proof fn lemma_lsblk_system_disk(d: DriveInfo, dev: LsblkNode, m: Seq<char>)
    requires
        lsblk_drive(d, dev),
        node_mounts(dev).contains(m) || exists|j: int|
            0 <= j < dev.children@.len() && node_mounts(#[trigger] dev.children@[j]).contains(m),
        system_mountpoint(m),
    ensures
        d.is_system,
{
    if !node_mounts(dev).contains(m) {
        let j = choose|j: int|
            0 <= j < dev.children@.len() && node_mounts(#[trigger] dev.children@[j]).contains(m);
        lemma_children_mounts_include(dev.children@, 0, j, m);
        let own = texts_from(dev.mountpoints@, 0) + match scalar_text(dev.mountpoint) {
            Some(x) => seq![x],
            None => seq![],
        };
        let ch = children_mounts(dev.children@, 0);
        assert(node_mounts(dev) == own + ch);
        let t = choose|t: int| 0 <= t < ch.len() && ch[t] == m;
        assert((own + ch)[own.len() + t] == m);
    }
    let mps = views(d.mountpoints@);
    assert(node_mounts(dev).to_set().contains(m));
    assert(mps.to_set().contains(m));
    let t = choose|t: int| 0 <= t < mps.len() && mps[t] == m;
    assert(has_system_mount(mps));
}

} // verus!
