//! The privileged helper's decisions for each device of a job: how the
//! image is written, what follows the write, and the per-device result.

use vstd::prelude::*;

use crate::compression::str_eq;
use crate::images;
use crate::models::Job;
use crate::text;

verus! {

/// The result for one device.
pub struct DeviceResult {
    pub ok: bool,
    pub device: String,
    pub bytes_written: u64,
    pub checksum: Option<String>,
    pub error: Option<String>,
    pub warning: Option<String>,
}

/// A failed device: nothing written, the error kept.
pub fn failed(device: &str, error: String) -> (r: DeviceResult)
    ensures
        !r.ok,
        r.device@ == device@,
        r.bytes_written == 0,
        r.checksum is None,
        r.error == Some(error),
        r.warning is None,
{
    DeviceResult {
        ok: false,
        device: device.to_owned(),
        bytes_written: 0,
        checksum: None,
        error: Some(error),
        warning: None,
    }
}

/// The result of erasing and formatting a device.
pub fn format_result(device: &str, outcome: Result<(), String>) -> (r: DeviceResult)
    ensures
        r.device@ == device@,
        r.bytes_written == 0,
        r.checksum is None,
        r.warning is None,
        r.ok == outcome is Ok,
        match outcome {
            Ok(()) => r.error is None,
            Err(e) => r.error == Some(e),
        },
{
    match outcome {
        Ok(()) => DeviceResult {
            ok: true,
            device: device.to_owned(),
            bytes_written: 0,
            checksum: None,
            error: None,
            warning: None,
        },
        Err(e) => failed(device, e),
    }
}

/// The result of writing an image: the bytes and checksum of the write, and
/// any warning of the boot-partition step, which never fails the device.
pub fn write_result(device: &str, outcome: Result<(u64, String), String>, warning: Option<String>) -> (r: DeviceResult)
    ensures
        r.device@ == device@,
        r.ok == outcome is Ok,
        match outcome {
            Ok((n, sum)) => r.bytes_written == n && r.checksum == Some(sum) && r.error is None
                && r.warning == warning,
            Err(e) => r.bytes_written == 0 && r.checksum is None && r.error == Some(e)
                && r.warning is None,
        },
{
    match outcome {
        Ok((bytes_written, checksum)) => DeviceResult {
            ok: true,
            device: device.to_owned(),
            bytes_written,
            checksum: Some(checksum),
            error: None,
            warning,
        },
        Err(e) => failed(device, e),
    }
}

/// Every device succeeded.
pub open spec fn all_ok(rs: Seq<DeviceResult>) -> bool {
    forall|i: int| 0 <= i < rs.len() ==> (#[trigger] rs[i]).ok
}

/// A job succeeds only if every one of its devices did: a single failed
/// device, wherever it stands, fails the whole job, and a job of successes
/// succeeds.
pub proof fn lemma_one_failure_fails_the_job(rs: Seq<DeviceResult>, i: int)
    ensures
        0 <= i < rs.len() && !rs[i].ok ==> !all_ok(rs),
        all_ok(rs) == forall|j: int| 0 <= j < rs.len() ==> (#[trigger] rs[j]).ok,
{
}

/// The helper's exit code: 0 iff every device succeeded.
pub fn exit_code(results: &Vec<DeviceResult>) -> (c: i32)
    ensures
        c == if all_ok(results@) {
            0i32
        } else {
            1i32
        },
        c == 0 || c == 1,
        c == 0 <==> forall|i: int| 0 <= i < results@.len() ==> (#[trigger] results@[i]).ok,
        forall|i: int| 0 <= i < results@.len() && !(#[trigger] results@[i]).ok ==> c == 1,
{
    let mut i: usize = 0;
    while i < results.len()
        invariant
            i <= results@.len(),
            forall|t: int| 0 <= t < i ==> (#[trigger] results@[t]).ok,
        decreases results.len() - i,
    {
        if !results[i].ok {
            return 1;
        }
        i += 1;
    }
    0
}

pub open spec fn is_zip(job: &Job) -> bool {
    job.compression@ == "zip"@
}

/// A job is a zip job exactly when its compression is `zip`.
pub proof fn lemma_zip_jobs(job: &Job)
    ensures
        is_zip(job) <==> job.compression@ == "zip"@,
{
}

/// Direct I/O needs block-aligned, sequential writes: only the plain
/// streaming path (no zip, no block map) can guarantee that.
pub fn want_direct(job: &Job) -> (b: bool)
    ensures
        b == (!is_zip(job) && job.bmap_path is None),
{
    !str_eq(job.compression.as_str(), "zip") && job.bmap_path.is_none()
}

/// A block map is used only for the streaming path, where the job names one.
pub fn wants_bmap(job: &Job) -> (b: bool)
    ensures
        b == (!is_zip(job) && job.bmap_path is Some),
{
    !str_eq(job.compression.as_str(), "zip") && job.bmap_path.is_some()
}

/// How the image goes onto the device.
#[derive(PartialEq, Eq, Structural, Clone, Copy, Debug)]
pub enum WriteMode {
    /// The first file of a zip archive.
    Zip,
    /// Only the blocks a block map lists.
    Bmap,
    /// Aligned writes that bypass the page cache.
    Direct,
    /// Buffered writes with periodic syncing.
    Buffered,
}

/// The write path for `job`, given whether its block map parsed and whether
/// the device opened for direct I/O. Zip needs random access, so it cannot
/// be streamed from a URL.
pub fn write_mode(job: &Job, bmap_parsed: bool, is_direct: bool) -> (r: Result<WriteMode, String>)
    ensures
        is_zip(job) && images::is_http(job.image_path@) ==> (r matches Err(e) && e@
            == "zip images cannot be streamed from a URL"@),
        is_zip(job) && !images::is_http(job.image_path@) ==> r == Ok::<WriteMode, String>(
            WriteMode::Zip,
        ),
        !is_zip(job) ==> r == Ok::<WriteMode, String>(
            if bmap_parsed {
                WriteMode::Bmap
            } else if is_direct {
                WriteMode::Direct
            } else {
                WriteMode::Buffered
            },
        ),
{
    if str_eq(job.compression.as_str(), "zip") {
        if images::is_http_url(job.image_path.as_str()) {
            return Err("zip images cannot be streamed from a URL".to_owned());
        }
        Ok(WriteMode::Zip)
    } else if bmap_parsed {
        Ok(WriteMode::Bmap)
    } else if is_direct {
        Ok(WriteMode::Direct)
    } else {
        Ok(WriteMode::Buffered)
    }
}

/// What follows a successful write.
#[derive(PartialEq, Eq, Structural, Clone, Copy, Debug)]
pub enum PostStep {
    /// Let the user pick a partition to mount and edit.
    ChoosePartition,
    /// Copy the drop files onto the auto-detected boot partition.
    CopyToBoot,
    Nothing,
}

pub fn post_write_step(job: &Job) -> (s: PostStep)
    ensures
        s == if job.edit_boot {
            PostStep::ChoosePartition
        } else if job.boot_config_files@.len() > 0 {
            PostStep::CopyToBoot
        } else {
            PostStep::Nothing
        },
{
    if job.edit_boot {
        PostStep::ChoosePartition
    } else if job.boot_config_files.len() > 0 {
        PostStep::CopyToBoot
    } else {
        PostStep::Nothing
    }
}

/// The partition the user chose, from the content of the answer file: none
/// where it is blank or says `__skip__`.
pub fn choice_from(content: &str) -> (r: Option<String>)
    ensures
        match r {
            Some(s) => s@ == text::trim(content@) && s@.len() > 0 && s@ != "__skip__"@,
            None => text::trim(content@).len() == 0 || text::trim(content@) == "__skip__"@,
        },
{
    let v = text::chars_of(content);
    let t = text::trimmed(v.as_slice());
    let s = text::string_of(t.as_slice());
    if t.len() == 0 || str_eq(s.as_str(), "__skip__") {
        None
    } else {
        Some(s)
    }
}

/// A user id from an environment value.
pub fn parse_uid(s: &str) -> (r: Option<u32>)
    ensures
        match r {
            Some(u) => text::parse_uint(s@, 0xffff_ffff) == Some(u as int),
            None => text::parse_uint(s@, 0xffff_ffff) is None,
        },
{
    let v = text::chars_of(s);
    assert(v@.subrange(0, v@.len() as int) =~= v@);
    match text::parse_uint_range(v.as_slice(), 0, v.len(), 0xffff_ffff) {
        Some(n) => Some(n as u32),
        None => None,
    }
}

/// The warning of the drop-only boot step: the mount failure, or the copy
/// failure after a successful mount; none where both went well.
pub fn boot_copy_warning(mount_error: Option<String>, copy_error: Option<String>) -> (r: Option<
    String,
>)
    ensures
        match mount_error {
            Some(m) => r matches Some(w) && w@ == "no editable boot partition found ("@ + m@
                + ")"@,
            None => match copy_error {
                Some(c) => r matches Some(w) && w@ == "could not copy boot files: "@ + c@,
                None => r is None,
            },
        },
{
    match mount_error {
        Some(m) => {
            let mut w = "no editable boot partition found (".to_owned();
            text::push_str(&mut w, m.as_str());
            text::push_str(&mut w, ")");
            Some(w)
        },
        None => match copy_error {
            Some(c) => Some(text::concat("could not copy boot files: ", c.as_str())),
            None => None,
        },
    }
}


/// The index of the first entry of an archive that is a file, given which
/// entries are files; the error where none is.
pub fn first_file_entry(is_file: &Vec<bool>) -> (r: Result<usize, String>)
    ensures
        match r {
            Ok(i) => i < is_file@.len() && is_file@[i as int] && forall|j: int|
                0 <= j < i ==> !is_file@[j],
            Err(e) => e@ == "zip archive contains no files"@ && forall|j: int|
                0 <= j < is_file@.len() ==> !is_file@[j],
        },
{
    let mut i: usize = 0;
    while i < is_file.len()
        invariant
            i <= is_file@.len(),
            forall|j: int| 0 <= j < i ==> !is_file@[j],
        decreases is_file.len() - i,
    {
        if is_file[i] {
            return Ok(i);
        }
        i += 1;
    }
    Err("zip archive contains no files".to_owned())
}

} // verus!
