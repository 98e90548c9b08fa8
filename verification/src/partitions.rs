//! Choosing a partition of a freshly written device to mount and edit: the
//! partitions offered, and the steps from the offer to the unmount.

use vstd::prelude::*;

use crate::compression::str_eq;
use crate::text;

verus! {

/// A partition offered to the user: its device path and filesystem type.
pub struct PartitionInfo {
    pub path: String,
    pub fstype: String,
}

pub open spec fn info_view(p: PartitionInfo) -> (Seq<char>, Seq<char>) {
    (p.path@, p.fstype@)
}

pub open spec fn infos_view(ps: Seq<PartitionInfo>) -> Seq<(Seq<char>, Seq<char>)> {
    ps.map_values(|p: PartitionInfo| info_view(p))
}

/// A `PATH FSTYPE` line of `lsblk` for a partition of the device that has a
/// filesystem: two words at least, the first not the device itself.
pub open spec fn partition_line(line: Seq<char>, device: Seq<char>) -> bool {
    let w = text::words(line);
    w.len() >= 2 && w[0] != device
}

/// The partitions named by `ls[i..]`, in order, as (path, filesystem type).
pub open spec fn partitions_from(ls: Seq<Seq<char>>, device: Seq<char>, i: int) -> Seq<
    (Seq<char>, Seq<char>),
>
    decreases ls.len() - i,
{
    if i < 0 || i >= ls.len() {
        seq![]
    } else if partition_line(ls[i], device) {
        seq![(text::words(ls[i])[0], text::words(ls[i])[1])] + partitions_from(ls, device, i + 1)
    } else {
        partitions_from(ls, device, i + 1)
    }
}

/// The partitions of `device` in the output of `lsblk -nro PATH,FSTYPE`.
pub fn list_partitions(device: &str, listing: &str) -> (r: Vec<PartitionInfo>)
    ensures
        infos_view(r@) == partitions_from(text::lines(listing@), device@, 0),
{
    let v = text::chars_of(listing);
    let ls = text::split_lines(v.as_slice());
    let ghost lv = text::lines(v@);
    let mut out: Vec<PartitionInfo> = Vec::new();
    let mut i: usize = 0;
    while i < ls.len()
        invariant
            i <= ls@.len(),
            ls@.len() == lv.len(),
            lv == text::lines(listing@),
            forall|t: int| 0 <= t < ls@.len() ==> #[trigger] ls@[t]@ == lv[t],
            partitions_from(lv, device@, 0) == infos_view(out@) + partitions_from(
                lv,
                device@,
                i as int,
            ),
        decreases ls.len() - i,
    {
        let w = text::split_words(ls[i].as_slice());
        let ghost wv = text::words(lv[i as int]);
        if w.len() >= 2 {
            let path = text::string_of(w[0].as_slice());
            let fstype = text::string_of(w[1].as_slice());
            if !str_eq(path.as_str(), device) {
                let ghost before = infos_view(out@);
                out.push(PartitionInfo { path, fstype });
                assert(infos_view(out@) =~= before.push((wv[0], wv[1])));
                assert(before + partitions_from(lv, device@, i as int) =~= before.push(
                    (wv[0], wv[1]),
                ) + partitions_from(lv, device@, i + 1));
            }
        }
        i += 1;
    }
    assert(infos_view(out@) + partitions_from(lv, device@, i as int) =~= infos_view(out@));
    out
}

/// The filesystem type of the first of `ps[i..]` whose path is `path`; empty
/// where none is.
pub open spec fn fstype_in(ps: Seq<(Seq<char>, Seq<char>)>, path: Seq<char>, i: int) -> Seq<char>
    decreases ps.len() - i,
{
    if i < 0 || i >= ps.len() {
        Seq::<char>::empty()
    } else if ps[i].0 == path {
        ps[i].1
    } else {
        fstype_in(ps, path, i + 1)
    }
}

/// The filesystem type listed for `path`, or the empty string.
pub fn fstype_of(parts: &Vec<PartitionInfo>, path: &str) -> (r: String)
    ensures
        r@ == fstype_in(infos_view(parts@), path@, 0),
{
    let ghost ps = infos_view(parts@);
    let mut i: usize = 0;
    while i < parts.len()
        invariant
            i <= parts@.len(),
            ps == infos_view(parts@),
            fstype_in(ps, path@, i as int) == fstype_in(ps, path@, 0),
        decreases parts.len() - i,
    {
        assert(ps[i as int] == info_view(parts@[i as int]));
        if str_eq(parts[i].path.as_str(), path) {
            return text::owned(parts[i].fstype.as_str());
        }
        i += 1;
    }
    String::new()
}

/// The view of an optional string.
pub open spec fn opt_view(o: Option<String>) -> Option<Seq<char>> {
    match o {
        Some(s) => Some(s@),
        None => None,
    }
}

/// Where choosing a partition stands.
#[derive(PartialEq, Eq, Structural, Clone, Copy, Debug)]
pub enum ChooserStage {
    Listing,
    Choosing,
    Mounting,
    Copying,
    Editing,
    Unmounting,
    Finished,
}

/// What to do next while choosing a partition.
pub enum ChooserAction {
    /// List the device's partitions (`lsblk -nro PATH,FSTYPE`).
    ListPartitions(String),
    /// Offer these partitions to the user and wait for a choice.
    Offer(Vec<PartitionInfo>),
    /// Mount the chosen partition, of filesystem `fstype`.
    Mount { partition: String, fstype: String },
    /// Copy the drop files onto the mounted partition.
    CopyFiles,
    /// Hold the partition mounted until the user is done editing.
    Edit,
    /// Unmount the partition.
    Unmount,
    /// Choosing is over, with this warning, if any.
    Done(Option<String>),
}

/// What came of the last action.
pub enum ChooserEvent {
    /// The partition listing (empty where it could not be had).
    Listed(String),
    /// The partition the user chose, or none where they skipped.
    Chosen(Option<String>),
    /// Whether the partition was mounted, or why not.
    Mounted(Result<(), String>),
    /// Whether the files were copied, or why not.
    Copied(Result<(), String>),
    /// The user is done editing.
    Edited,
    /// The partition was unmounted.
    Unmounted,
}

/// Offering the partitions of a written device, mounting the one the user
/// picks, copying the drop files onto it and holding it for editing. Every
/// outcome here is at most a warning: the image is already written.
pub struct PartitionChooser {
    stage: ChooserStage,
    device: String,
    has_files: bool,
    parts: Vec<PartitionInfo>,
    chosen: String,
    warning: Option<String>,
}

pub open spec fn no_partitions_message() -> Seq<char> {
    "no mountable partitions found on the written device"@
}

/// Starts choosing a partition of `device`; `has_files` tells whether drop
/// files are to be copied onto it.
pub fn partition_chooser(device: &str, has_files: bool) -> (r: (PartitionChooser, ChooserAction))
    ensures
        r.0.device()@ == device@,
        r.0.has_files() == has_files,
        r.0.stage() == ChooserStage::Listing,
        r.1 matches ChooserAction::ListPartitions(d) && d@ == device@,
{
    (
        PartitionChooser {
            stage: ChooserStage::Listing,
            device: device.to_owned(),
            has_files,
            parts: Vec::new(),
            chosen: String::new(),
            warning: None,
        },
        ChooserAction::ListPartitions(device.to_owned()),
    )
}

impl PartitionChooser {
    pub closed spec fn stage(&self) -> ChooserStage {
        self.stage
    }

    pub closed spec fn device(&self) -> String {
        self.device
    }

    pub closed spec fn has_files(&self) -> bool {
        self.has_files
    }

    /// The partitions offered, as (path, filesystem type).
    pub closed spec fn offered(&self) -> Seq<(Seq<char>, Seq<char>)> {
        infos_view(self.parts@)
    }

    /// The partition the user chose.
    pub closed spec fn chosen(&self) -> Seq<char> {
        self.chosen@
    }

    /// The warning to finish with once the partition is unmounted.
    pub closed spec fn pending(&self) -> Option<Seq<char>> {
        opt_view(self.warning)
    }

    /// `ev` answers the action of the current stage.
    pub open spec fn accepts(&self, ev: ChooserEvent) -> bool {
        match self.stage() {
            ChooserStage::Listing => ev is Listed,
            ChooserStage::Choosing => ev is Chosen,
            ChooserStage::Mounting => ev is Mounted,
            ChooserStage::Copying => ev is Copied,
            ChooserStage::Editing => ev is Edited,
            ChooserStage::Unmounting => ev is Unmounted,
            ChooserStage::Finished => false,
        }
    }

    /// Whether `ev` answers the action of the current stage.
    pub fn accepts_event(&self, ev: &ChooserEvent) -> (b: bool)
        ensures
            b == self.accepts(*ev),
    {
        match self.stage {
            ChooserStage::Listing => matches!(ev, ChooserEvent::Listed(_)),
            ChooserStage::Choosing => matches!(ev, ChooserEvent::Chosen(_)),
            ChooserStage::Mounting => matches!(ev, ChooserEvent::Mounted(_)),
            ChooserStage::Copying => matches!(ev, ChooserEvent::Copied(_)),
            ChooserStage::Editing => matches!(ev, ChooserEvent::Edited),
            ChooserStage::Unmounting => matches!(ev, ChooserEvent::Unmounted),
            ChooserStage::Finished => false,
        }
    }

    /// The next action, given what came of the last one. No partitions, a
    /// skipped choice or a failed mount end it at once; a failed copy
    /// unmounts before ending with its warning; otherwise the partition is
    /// held for editing and then unmounted.
    pub fn step(&mut self, ev: ChooserEvent) -> (a: ChooserAction)
        requires
            old(self).accepts(ev),
        ensures
            final(self).device() == old(self).device(),
            final(self).has_files() == old(self).has_files(),
            old(self).stage() == ChooserStage::Listing ==> match ev {
                ChooserEvent::Listed(l) => {
                    let ps = partitions_from(text::lines(l@), old(self).device()@, 0);
                    if ps.len() == 0 {
                        final(self).stage() == ChooserStage::Finished && (a matches ChooserAction::Done(Some(w)) && w@ == no_partitions_message())
                    } else {
                        final(self).stage() == ChooserStage::Choosing && final(self).offered() == ps
                            && (a matches ChooserAction::Offer(v) && infos_view(v@) == ps)
                    }
                },
                _ => false,
            },
            old(self).stage() == ChooserStage::Choosing ==> match ev {
                ChooserEvent::Chosen(None) => final(self).stage() == ChooserStage::Finished && (a matches ChooserAction::Done(w) && w is None),
                ChooserEvent::Chosen(Some(c)) => final(self).stage() == ChooserStage::Mounting
                    && final(self).chosen() == c@ && (a matches ChooserAction::Mount {
                    partition,
                    fstype,
                } && partition@ == c@ && fstype@ == fstype_in(old(self).offered(), c@, 0)),
                _ => false,
            },
            old(self).stage() == ChooserStage::Mounting ==> match ev {
                ChooserEvent::Mounted(Err(e)) => final(self).stage() == ChooserStage::Finished && (a matches ChooserAction::Done(Some(w)) && w@ == "could not mount "@
                    + old(self).chosen() + ": "@ + e@),
                ChooserEvent::Mounted(Ok(())) => if old(self).has_files() {
                    final(self).stage() == ChooserStage::Copying && a is CopyFiles
                } else {
                    final(self).stage() == ChooserStage::Editing && a is Edit
                },
                _ => false,
            },
            old(self).stage() == ChooserStage::Copying ==> match ev {
                ChooserEvent::Copied(Err(e)) => final(self).stage() == ChooserStage::Unmounting
                    && a is Unmount && final(self).pending() == Some(
                    "could not copy files: "@ + e@,
                ),
                ChooserEvent::Copied(Ok(())) => final(self).stage() == ChooserStage::Editing
                    && a is Edit,
                _ => false,
            },
            old(self).stage() == ChooserStage::Editing ==> final(self).stage()
                == ChooserStage::Unmounting && a is Unmount && final(self).pending() is None,
            old(self).stage() == ChooserStage::Unmounting ==> final(self).stage()
                == ChooserStage::Finished && (a matches ChooserAction::Done(w) && opt_view(w) == old(
                self,
            ).pending()),
    {
        match self.stage {
            ChooserStage::Listing => {
                let listing = match ev {
                    ChooserEvent::Listed(l) => l,
                    _ => String::new(),
                };
                let parts = list_partitions(self.device.as_str(), listing.as_str());
                if parts.len() == 0 {
                    self.stage = ChooserStage::Finished;
                    ChooserAction::Done(
                        Some("no mountable partitions found on the written device".to_owned()),
                    )
                } else {
                    let offer = clone_parts(&parts);
                    self.parts = parts;
                    self.stage = ChooserStage::Choosing;
                    ChooserAction::Offer(offer)
                }
            },
            ChooserStage::Choosing => match ev {
                ChooserEvent::Chosen(Some(c)) => {
                    let fstype = fstype_of(&self.parts, c.as_str());
                    self.chosen = text::owned(c.as_str());
                    self.stage = ChooserStage::Mounting;
                    ChooserAction::Mount { partition: c, fstype }
                },
                _ => {
                    self.stage = ChooserStage::Finished;
                    ChooserAction::Done(None)
                },
            },
            ChooserStage::Mounting => match ev {
                ChooserEvent::Mounted(Ok(())) => {
                    if self.has_files {
                        self.stage = ChooserStage::Copying;
                        ChooserAction::CopyFiles
                    } else {
                        self.stage = ChooserStage::Editing;
                        ChooserAction::Edit
                    }
                },
                ChooserEvent::Mounted(Err(e)) => {
                    self.stage = ChooserStage::Finished;
                    let mut w = text::concat("could not mount ", self.chosen.as_str());
                    text::push_str(&mut w, ": ");
                    text::push_str(&mut w, e.as_str());
                    ChooserAction::Done(Some(w))
                },
                _ => {
                    self.stage = ChooserStage::Finished;
                    ChooserAction::Done(None)
                },
            },
            ChooserStage::Copying => match ev {
                ChooserEvent::Copied(Err(e)) => {
                    self.warning = Some(text::concat("could not copy files: ", e.as_str()));
                    self.stage = ChooserStage::Unmounting;
                    ChooserAction::Unmount
                },
                _ => {
                    self.stage = ChooserStage::Editing;
                    ChooserAction::Edit
                },
            },
            ChooserStage::Editing => {
                self.warning = None;
                self.stage = ChooserStage::Unmounting;
                ChooserAction::Unmount
            },
            ChooserStage::Unmounting => {
                self.stage = ChooserStage::Finished;
                let w = match &self.warning {
                    Some(w) => Some(text::owned(w.as_str())),
                    None => None,
                };
                ChooserAction::Done(w)
            },
            ChooserStage::Finished => ChooserAction::Done(None),
        }
    }
}

fn clone_parts(parts: &Vec<PartitionInfo>) -> (r: Vec<PartitionInfo>)
    ensures
        infos_view(r@) == infos_view(parts@),
{
    let mut r: Vec<PartitionInfo> = Vec::new();
    let mut i: usize = 0;
    while i < parts.len()
        invariant
            i <= parts@.len(),
            infos_view(r@) == infos_view(parts@).take(i as int),
        decreases parts.len() - i,
    {
        let p = PartitionInfo {
            path: text::owned(parts[i].path.as_str()),
            fstype: text::owned(parts[i].fstype.as_str()),
        };
        let ghost prev = r@;
        assert(info_view(p) == info_view(parts@[i as int]));
        r.push(p);
        assert(r@ == prev.push(p));
        assert(infos_view(r@) =~= infos_view(prev).push(info_view(p)));
        assert(infos_view(r@) =~= infos_view(parts@).take(i + 1));
        i += 1;
    }
    assert(infos_view(parts@).take(i as int) =~= infos_view(parts@));
    r
}

} // verus!
