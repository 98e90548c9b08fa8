use pyro::flash::{applescript_escape, elevation_script, flash_outcome, osascript_status, pkexec_status, sh_quote};
use pyro::helper::{
    boot_copy_warning, choice_from, exit_code, first_file_entry, format_result, parse_uid, post_write_step,
    want_direct, wants_bmap, write_mode, write_result, PostStep, WriteMode,
};
use pyro::images::ImageInfo;
use pyro::models::{job_for, FlashRequest, FlashResult, Job};

fn job(path: &str, compression: &str, bmap: Option<&str>) -> Job {
    Job {
        image_path: path.to_string(),
        compression: compression.to_string(),
        file_size: 10,
        devices: vec!["/dev/sdb".to_string()],
        validate: true,
        boot_config_files: vec![],
        edit_boot: false,
        bmap_path: bmap.map(|b| b.to_string()),
        http_username: None,
        http_password: None,
        format: None,
    }
}

#[test]
fn write_paths() {
    assert!(want_direct(&job("/a.img", "none", None)));
    assert!(!want_direct(&job("/a.zip", "zip", None)));
    assert!(!want_direct(&job("/a.img", "none", Some("/a.bmap"))));
    assert!(wants_bmap(&job("/a.img", "xz", Some("/a.bmap"))));
    assert!(!wants_bmap(&job("/a.zip", "zip", Some("/a.bmap"))));
    assert_eq!(write_mode(&job("/a.zip", "zip", None), false, false), Ok(WriteMode::Zip));
    assert_eq!(
        write_mode(&job("https://h/a.zip", "zip", None), false, false).unwrap_err(),
        "zip images cannot be streamed from a URL"
    );
    assert_eq!(write_mode(&job("/a.img", "none", None), true, true), Ok(WriteMode::Bmap));
    assert_eq!(write_mode(&job("/a.img", "none", None), false, true), Ok(WriteMode::Direct));
    assert_eq!(write_mode(&job("/a.img", "gzip", None), false, false), Ok(WriteMode::Buffered));
}

#[test]
fn post_write_steps() {
    let mut j = job("/a.img", "none", None);
    assert_eq!(post_write_step(&j), PostStep::Nothing);
    j.boot_config_files = vec!["/home/u/ssh".to_string()];
    assert_eq!(post_write_step(&j), PostStep::CopyToBoot);
    j.edit_boot = true;
    assert_eq!(post_write_step(&j), PostStep::ChoosePartition);
}

#[test]
fn device_results_and_exit_code() {
    let ok = write_result("/dev/sdb", Ok((100, "abc".to_string())), Some("warn".to_string()));
    assert!(ok.ok);
    assert_eq!(ok.bytes_written, 100);
    assert_eq!(ok.checksum.as_deref(), Some("abc"));
    assert_eq!(ok.warning.as_deref(), Some("warn"));
    let bad = write_result("/dev/sdc", Err("write error: x".to_string()), Some("ignored".to_string()));
    assert!(!bad.ok);
    assert_eq!(bad.error.as_deref(), Some("write error: x"));
    assert_eq!(bad.warning, None);
    let f = format_result("/dev/sdd", Ok(()));
    assert!(f.ok && f.error.is_none() && f.checksum.is_none());
    let g = format_result("/dev/sdd", Err("nope".to_string()));
    assert!(!g.ok);
    assert_eq!(exit_code(&vec![ok]), 0);
    assert_eq!(exit_code(&vec![f, bad]), 1);
    assert_eq!(exit_code(&vec![]), 0);
}

#[test]
fn partition_choice() {
    assert_eq!(choice_from(" /dev/sdb2\n"), Some("/dev/sdb2".to_string()));
    assert_eq!(choice_from("__skip__"), None);
    assert_eq!(choice_from("  "), None);
}

#[test]
fn user_ids() {
    assert_eq!(parse_uid("1000"), Some(1000));
    assert_eq!(parse_uid("4294967295"), Some(u32::MAX));
    assert_eq!(parse_uid("4294967296"), None);
    assert_eq!(parse_uid(""), None);
}

#[test]
fn boot_copy_warnings() {
    assert_eq!(
        boot_copy_warning(Some("no FAT".to_string()), None).as_deref(),
        Some("no editable boot partition found (no FAT)")
    );
    assert_eq!(
        boot_copy_warning(None, Some("denied".to_string())).as_deref(),
        Some("could not copy boot files: denied")
    );
    assert_eq!(boot_copy_warning(None, None), None);
}

#[test]
fn first_file_of_archive() {
    assert_eq!(first_file_entry(&vec![false, true, true]), Ok(1));
    assert_eq!(first_file_entry(&vec![false]).unwrap_err(), "zip archive contains no files");
}

#[test]
fn flash_outcomes() {
    let r = FlashResult { ok: true, device: "/dev/sdb".to_string(), bytes_written: 1, checksum: None, error: None };
    assert_eq!(flash_outcome(Ok(true), vec![]).map(|v| v.len()), Ok(0));
    assert_eq!(flash_outcome(Ok(false), vec![r]).map(|v| v.len()), Ok(1));
    assert_eq!(flash_outcome(Ok(false), vec![]).err().unwrap(), "Flashing failed or was cancelled");
    assert_eq!(flash_outcome(Err("e".to_string()), vec![]).err().unwrap(), "e");
}

#[test]
fn elevation_exit_codes() {
    assert_eq!(pkexec_status(Some(0)), Ok(true));
    assert_eq!(pkexec_status(Some(126)).unwrap_err(), "Authentication was cancelled or failed");
    assert_eq!(pkexec_status(Some(127)).unwrap_err(), "Authentication was cancelled or failed");
    assert_eq!(pkexec_status(Some(1)), Ok(false));
    assert_eq!(pkexec_status(None), Ok(false));
    assert_eq!(osascript_status(Some(0)), Ok(true));
    assert_eq!(osascript_status(Some(1)).unwrap_err(), "Authentication was cancelled");
    assert_eq!(osascript_status(Some(2)), Ok(false));
}

#[test]
fn quoting_for_the_privileged_shell() {
    assert_eq!(sh_quote("/tmp/it's"), "'/tmp/it'\\''s'");
    assert_eq!(applescript_escape("a\\b\"c"), "a\\\\b\\\"c");
    let args = vec!["/x/pyro-helper".to_string(), "/tmp/a b".to_string()];
    assert_eq!(
        elevation_script(&args),
        "do shell script \"'/x/pyro-helper' '/tmp/a b'\" with administrator privileges"
    );
}

#[test]
fn job_from_request() {
    let req = FlashRequest {
        image: ImageInfo {
            path: "/i.img".to_string(),
            name: "i.img".to_string(),
            file_size: 5,
            uncompressed_size: Some(5),
            compression: "none".to_string(),
            bmap_path: Some("/i.bmap".to_string()),
        },
        devices: vec!["/dev/sdb".to_string(), "/dev/sdc".to_string()],
        validate: true,
        boot_config_files: vec!["/c.txt".to_string()],
        edit_boot: true,
    };
    let j = job_for(&req);
    assert_eq!(j.image_path, "/i.img");
    assert_eq!(j.devices, req.devices);
    assert_eq!(j.bmap_path.as_deref(), Some("/i.bmap"));
    assert!(j.format.is_none() && j.http_username.is_none());
    assert!(j.edit_boot && j.validate);
}
