use pyro::images::{
    basic_auth_header, bmap_candidates, check_http_url, credentials_fit_exec, download_error, inspect_image,
    inspect_url, is_removable_temp, url_basename, ImageProbe,
};

#[test]
fn url_names() {
    assert_eq!(url_basename("https://example.com/images/os.img.xz?token=1/2"), "os.img.xz");
    assert_eq!(url_basename("https://example.com/dir/"), "dir");
    assert_eq!(url_basename("https://example.com"), "example.com");
    assert_eq!(url_basename("////"), "image");
    assert_eq!(url_basename(""), "image");
    assert_eq!(url_basename("?a/b"), "image");
}

#[test]
fn only_http_urls() {
    assert_eq!(check_http_url("https://x"), Ok(()));
    assert_eq!(check_http_url("http://x"), Ok(()));
    assert_eq!(check_http_url("ftp://x").unwrap_err(), "URL must start with http:// or https://");
    assert_eq!(check_http_url("http:/x").unwrap_err(), "URL must start with http:// or https://");
}

#[test]
fn inspects_remote_image() {
    let i = inspect_url("https://h/a/b.img.gz?x", Some("12345"), &[0x1f, 0x8b, 0, 0]).unwrap();
    assert_eq!(i.path, "https://h/a/b.img.gz?x");
    assert_eq!(i.name, "b.img.gz");
    assert_eq!(i.file_size, 12345);
    assert_eq!(i.compression, "gzip");
    assert_eq!(i.uncompressed_size, None);
    assert_eq!(i.bmap_path, None);
    let i = inspect_url("http://h/raw.img", Some("junk"), &[0, 0]).unwrap();
    assert_eq!(i.file_size, 0);
    assert_eq!(i.compression, "none");
    assert_eq!(i.uncompressed_size, Some(0));
    assert!(inspect_url("file:///x", None, &[]).is_err());
}

#[test]
fn sibling_bmap_candidates() {
    assert_eq!(
        bmap_candidates("/imgs/foo.img.xz"),
        vec!["/imgs/foo.img.xz.bmap", "/imgs/foo.img.bmap"]
    );
}

#[test]
fn inspects_local_image() {
    let probe = ImageProbe { is_file: true, size: 4096, head: vec![0x28, 0xb5, 0x2f, 0xfd], bmap_found: vec![false, true] };
    let i = inspect_image("/imgs/foo.img.zst", Some(probe)).unwrap();
    assert_eq!(i.name, "foo.img.zst");
    assert_eq!(i.file_size, 4096);
    assert_eq!(i.compression, "zstd");
    assert_eq!(i.bmap_path.as_deref(), Some("/imgs/foo.img.bmap"));
    let raw = ImageProbe { is_file: true, size: 10, head: vec![1, 2], bmap_found: vec![true, true] };
    let i = inspect_image("/imgs/raw.img", Some(raw)).unwrap();
    assert_eq!(i.uncompressed_size, Some(10));
    assert_eq!(i.bmap_path.as_deref(), Some("/imgs/raw.img.bmap"));
    let dir = ImageProbe { is_file: false, size: 0, head: vec![], bmap_found: vec![] };
    assert!(inspect_image("/imgs", Some(dir)).is_none());
    assert!(inspect_image("/missing", None).is_none());
}

#[test]
fn basic_auth() {
    assert!(credentials_fit_exec("user", Some("pass")));
    assert_eq!(basic_auth_header("user", Some("pass")), "Basic dXNlcjpwYXNz");
    assert_eq!(basic_auth_header("user", None), "Basic dXNlcjo=");
}

#[test]
fn download_errors() {
    assert_eq!(download_error(Some(401), "x"), "authentication required or failed for this URL");
    assert_eq!(download_error(Some(403), "x"), "authentication required or failed for this URL");
    assert_eq!(download_error(Some(404), "status 404"), "download failed: status 404");
    assert_eq!(download_error(None, "dns"), "download failed: dns");
}

#[test]
fn temp_files_must_lie_inside_the_temp_dir() {
    assert!(is_removable_temp("/tmp/pyro-dl-1-2", "/tmp"));
    assert!(is_removable_temp("/tmp/pyro-dl-1-2", "/tmp/"));
    assert!(!is_removable_temp("/tmp/../home/u/notes.txt", "/tmp"));
    assert!(!is_removable_temp("/tmp/a/..", "/tmp"));
    assert!(is_removable_temp("/tmp/a..b", "/tmp"));
    assert!(!is_removable_temp("/tmpfoo/x", "/tmp"));
    assert!(!is_removable_temp("/tmp", "/tmp"));
    assert!(!is_removable_temp("/home/u/x", "/tmp"));
    assert!(!is_removable_temp("/tmp/x", ""));
}

#[test]
fn basic_auth_of_longer_credentials() {
    assert_eq!(basic_auth_header("Aladdin", Some("open sesame")), "Basic QWxhZGRpbjpvcGVuIHNlc2FtZQ==");
}
