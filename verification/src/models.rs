//! The records the GUI and the privileged helper exchange.

use vstd::prelude::*;

use crate::images::ImageInfo;

verus! {

/// A request to flash an image to one or more devices.
pub struct FlashRequest {
    pub image: ImageInfo,
    pub devices: Vec<String>,
    pub validate: bool,
    pub boot_config_files: Vec<String>,
    /// Keep the boot partition mounted for in-app editing before eject.
    pub edit_boot: bool,
}

/// Outcome of flashing one device.
pub struct FlashResult {
    pub ok: bool,
    pub device: String,
    pub bytes_written: u64,
    pub checksum: Option<String>,
    pub error: Option<String>,
}

/// Erase-and-format instead of writing an image.
pub struct FormatJob {
    pub filesystem: String,
    pub label: String,
}

/// The job the helper runs.
pub struct Job {
    pub image_path: String,
    pub compression: String,
    pub file_size: u64,
    pub devices: Vec<String>,
    pub validate: bool,
    pub boot_config_files: Vec<String>,
    /// Keep the boot partition mounted for in-app editing before eject.
    pub edit_boot: bool,
    /// Optional path to a .bmap file to skip blank regions when writing.
    pub bmap_path: Option<String>,
    /// HTTP Basic Auth credentials for a URL source (streamed directly).
    pub http_username: Option<String>,
    pub http_password: Option<String>,
    /// If set, erase & format each device instead of writing an image.
    pub format: Option<FormatJob>,
}

fn clone_strings(v: &Vec<String>) -> (r: Vec<String>)
    ensures
        r@ == v@,
{
    let mut r: Vec<String> = Vec::new();
    let mut i: usize = 0;
    while i < v.len()
        invariant
            i <= v@.len(),
            r@ == v@.take(i as int),
        decreases v.len() - i,
    {
        r.push(v[i].clone());
        i += 1;
        assert(r@ =~= v@.take(i as int));
    }
    assert(v@.take(v@.len() as int) =~= v@);
    r
}

/// The helper's job for a flash request: the image and targets as asked,
/// no credentials and no format step.
pub fn job_for(req: &FlashRequest) -> (j: Job)
    ensures
        j.image_path == req.image.path,
        j.compression == req.image.compression,
        j.file_size == req.image.file_size,
        j.devices@ == req.devices@,
        j.validate == req.validate,
        j.boot_config_files@ == req.boot_config_files@,
        j.edit_boot == req.edit_boot,
        j.bmap_path == req.image.bmap_path,
        j.http_username is None,
        j.http_password is None,
        j.format is None,
{
    Job {
        image_path: req.image.path.clone(),
        compression: req.image.compression.clone(),
        file_size: req.image.file_size,
        devices: clone_strings(&req.devices),
        validate: req.validate,
        boot_config_files: clone_strings(&req.boot_config_files),
        edit_boot: req.edit_boot,
        bmap_path: match &req.image.bmap_path {
            Some(b) => Some(b.clone()),
            None => None,
        },
        http_username: None,
        http_password: None,
        format: None,
    }
}

} // verus!
