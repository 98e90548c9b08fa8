//! Source images: the image record, names taken from URLs and paths,
//! sibling block maps, and HTTP Basic Auth for URL sources.

use vstd::prelude::*;

use base64::Engine;

use crate::compression;
use crate::text;

verus! {

/// A source image selected by the user.
pub struct ImageInfo {
    pub path: String,
    pub name: String,
    pub file_size: u64,
    pub uncompressed_size: Option<u64>,
    /// "none" | "gzip" | "xz" | "zstd" | "bzip2" | "zip"
    pub compression: String,
    /// Path to an auto-detected sibling .bmap file, if any.
    pub bmap_path: Option<String>,
}

/// The size of the image once decompressed, where it is known: the file's
/// own size for an uncompressed image.
pub open spec fn uncompressed_of(compression: Seq<char>, file_size: u64) -> Option<u64> {
    if compression == "none"@ {
        Some(file_size)
    } else {
        None
    }
}

/// The last index of `c` in `s`.
pub open spec fn last_index_of(s: Seq<char>, c: char) -> Option<int>
    decreases s.len(),
{
    if s.len() == 0 {
        None
    } else if s.last() == c {
        Some(s.len() - 1)
    } else {
        last_index_of(s.drop_last(), c)
    }
}

pub proof fn lemma_last_index_of(s: Seq<char>, c: char)
    ensures
        last_index_of(s, c) matches Some(j) ==> 0 <= j < s.len() && s[j] == c && forall|t: int|
            j < t < s.len() ==> s[t] != c,
        last_index_of(s, c) is None ==> forall|t: int| 0 <= t < s.len() ==> s[t] != c,
    decreases s.len(),
{
    if s.len() > 0 && s.last() != c {
        lemma_last_index_of(s.drop_last(), c);
        assert forall|t: int| 0 <= t < s.len() - 1 implies s[t] == s.drop_last()[t] by {}
        assert(s[s.len() - 1] != c);
    }
}

/// The last non-empty `/`-separated segment of `s`.
pub open spec fn last_segment(s: Seq<char>) -> Option<Seq<char>>
    decreases s.len(),
{
    match last_index_of(s, '/') {
        None => if s.len() > 0 {
            Some(s)
        } else {
            None
        },
        Some(j) => {
            proof {
                lemma_last_index_of(s, '/');
            }
            if s.len() - (j + 1) > 0 {
                Some(s.skip(j + 1))
            } else {
                last_segment(s.take(j))
            }
        },
    }
}

/// `url` up to its first `?`.
pub open spec fn before_query(url: Seq<char>) -> Seq<char> {
    match text::find(url, "?"@) {
        Some(i) => url.take(i),
        None => url,
    }
}

/// The name of the file a URL points at: its last non-empty path segment,
/// query dropped; `image` where there is none.
pub open spec fn url_name(url: Seq<char>) -> Seq<char> {
    match last_segment(before_query(url)) {
        Some(s) => s,
        None => "image"@,
    }
}

proof fn lemma_last_slash(p: Seq<char>, name: Seq<char>)
    requires
        forall|i: int| 0 <= i < name.len() ==> name[i] != '/',
    ensures
        last_index_of(p + seq!['/'] + name, '/') == Some(p.len() as int),
    decreases name.len(),
{
    let s = p + seq!['/'] + name;
    if name.len() == 0 {
        assert(s.last() == '/');
    } else {
        assert(s.last() == name.last());
        assert(name.last() == name[name.len() - 1]);
        assert forall|i: int| 0 <= i < name.drop_last().len() implies name.drop_last()[i] != '/' by {
            assert(name.drop_last()[i] == name[i]);
        }
        lemma_last_slash(p, name.drop_last());
        assert(s.drop_last() =~= p + seq!['/'] + name.drop_last());
    }
}

proof fn lemma_find_first(h: Seq<char>, n: Seq<char>, k: int, m: int)
    requires
        0 <= k <= m,
        text::occurs_at(h, n, m),
        forall|j: int| k <= j < m ==> !text::occurs_at(h, n, j),
    ensures
        text::find_from(h, n, k) == Some(m),
    decreases m - k,
{
    if k < m {
        lemma_find_first(h, n, k + 1, m);
    }
}

proof fn lemma_no_question_mark(s: Seq<char>)
    requires
        forall|i: int| 0 <= i < s.len() ==> s[i] != '?',
    ensures
        before_query(s) == s,
{
    reveal_strlit("?");
    text::lemma_find_from_bounds(s, "?"@, 0);
    if text::find(s, "?"@) is Some {
        let i = text::find(s, "?"@).unwrap();
        assert(s.subrange(i, i + 1)[0] == s[i]);
        assert("?"@[0] == '?');
    }
}

/// A URL is named by its last path segment: `prefix/name`, where `name`
/// holds no `/` or `?` and nothing holds a `?`, is named `name`, and so is
/// `prefix/name?query` for any query.
pub proof fn lemma_url_names(prefix: Seq<char>, name: Seq<char>, query: Seq<char>)
    requires
        name.len() > 0,
        forall|i: int| 0 <= i < name.len() ==> name[i] != '/' && name[i] != '?',
        forall|i: int| 0 <= i < prefix.len() ==> prefix[i] != '?',
    ensures
        url_name(prefix + seq!['/'] + name) == name,
        url_name(prefix + seq!['/'] + name + seq!['?'] + query) == name,
{
    let s = prefix + seq!['/'] + name;
    assert forall|i: int| 0 <= i < s.len() implies s[i] != '?' by {
        if i < prefix.len() {
            assert(s[i] == prefix[i]);
        } else if i > prefix.len() {
            assert(s[i] == name[i - prefix.len() - 1]);
        }
    }
    lemma_no_question_mark(s);
    lemma_last_slash(prefix, name);
    lemma_last_index_of(s, '/');
    assert(s.skip(prefix.len() + 1 as int) =~= name);
    let q = s + seq!['?'] + query;
    reveal_strlit("?");
    text::lemma_find_from_bounds(q, "?"@, 0);
    assert(text::occurs_at(q, "?"@, s.len() as int)) by {
        assert(q.subrange(s.len() as int, s.len() + 1 as int) =~= "?"@);
    }
    assert forall|j: int| 0 <= j < s.len() implies !text::occurs_at(q, "?"@, j) by {
        if text::occurs_at(q, "?"@, j) {
            assert(q.subrange(j, j + 1)[0] == q[j]);
            assert(q[j] == s[j]);
        }
    }
    lemma_find_first(q, "?"@, 0, s.len() as int);
    assert(q.take(s.len() as int) =~= s);
}

fn rfind_char(s: &[char], hi: usize, c: char) -> (r: Option<usize>)
    requires
        hi <= s@.len(),
    ensures
        match r {
            Some(j) => last_index_of(s@.take(hi as int), c) == Some(j as int),
            None => last_index_of(s@.take(hi as int), c) is None,
        },
{
    let mut k = hi;
    while k > 0 && s[k - 1] != c
        invariant
            k <= hi <= s@.len(),
            last_index_of(s@.take(k as int), c) == last_index_of(s@.take(hi as int), c),
        decreases k,
    {
        assert(s@.take(k as int).drop_last() =~= s@.take(k - 1));
        k -= 1;
    }
    if k == 0 {
        assert(s@.take(0) =~= Seq::<char>::empty());
        None
    } else {
        Some(k - 1)
    }
}

/// The name of the file a URL points at.
pub fn url_basename(url: &str) -> (r: String)
    ensures
        r@ == url_name(url@),
{
    let v = text::chars_of(url);
    let q = vec!['?'];
    proof {
        reveal_strlit("?");
    }
    assert(q@ =~= "?"@);
    let end = match text::find_at(v.as_slice(), q.as_slice(), 0) {
        Some(i) => {
            proof {
                text::lemma_find_from_bounds(v@, q@, 0);
            }
            i
        },
        None => v.len(),
    };
    assert(v@.take(end as int) =~= before_query(url@));
    let mut hi = end;
    loop
        invariant
            hi <= end <= v@.len(),
            last_segment(v@.take(hi as int)) == last_segment(before_query(url@)),
        decreases hi,
    {
        match rfind_char(v.as_slice(), hi, '/') {
            None => {
                if hi > 0 {
                    return text::string_of_range(v.as_slice(), 0, hi);
                } else {
                    return "image".to_owned();
                }
            },
            Some(j) => {
                proof {
                    lemma_last_index_of(v@.take(hi as int), '/');
                }
                if hi - (j + 1) > 0 {
                    assert(v@.take(hi as int).skip(j + 1) =~= v@.subrange(j + 1, hi as int));
                    return text::string_of_range(v.as_slice(), j + 1, hi);
                }
                assert(v@.take(hi as int).take(j as int) =~= v@.take(j as int));
                hi = j;
            },
        }
    }
}

/// Whether `url` is an `http://` or `https://` URL; the error if not.
pub fn check_http_url(url: &str) -> (r: Result<(), String>)
    ensures
        r is Ok <==> (text::starts_with(url@, "http://"@) || text::starts_with(url@, "https://"@)),
        r matches Err(e) ==> e@ == "URL must start with http:// or https://"@,
{
    if is_http_url(url) {
        Ok(())
    } else {
        Err("URL must start with http:// or https://".to_owned())
    }
}

/// `url` starts with `http://` or `https://`.
pub fn is_http_url(url: &str) -> (b: bool)
    ensures
        b == (text::starts_with(url@, "http://"@) || text::starts_with(url@, "https://"@)),
{
    let v = text::chars_of(url);
    let a = text::chars_of("http://");
    let b = text::chars_of("https://");
    let sa = a.len() <= v.len() && text::matches_at(v.as_slice(), a.as_slice(), 0);
    let sb = b.len() <= v.len() && text::matches_at(v.as_slice(), b.as_slice(), 0);
    proof {
        if a@.len() <= v@.len() {
            assert(v@.subrange(0, a@.len() as int) =~= v@.take(a@.len() as int));
        }
        if b@.len() <= v@.len() {
            assert(v@.subrange(0, b@.len() as int) =~= v@.take(b@.len() as int));
        }
    }
    sa || sb
}

/// The record of an image, given where it is, its name, size and leading
/// bytes, and a sibling block map if one was found.
pub fn image_info(path: String, name: String, file_size: u64, head: &[u8], bmap_path: Option<
    String,
>) -> (r: ImageInfo)
    ensures
        r.path == path,
        r.name == name,
        r.file_size == file_size,
        r.compression@ == compression::compression_of(head@),
        r.uncompressed_size == uncompressed_of(r.compression@, file_size),
        r.bmap_path == bmap_path,
{
    let compression = compression::detect_compression_bytes(head);
    let uncompressed_size = if compression::str_eq(compression.as_str(), "none") {
        Some(file_size)
    } else {
        None
    };
    ImageInfo { path, name, file_size, uncompressed_size, compression, bmap_path }
}

/// The size a `Content-Length` header states, or 0.
pub open spec fn content_length(header: Option<Seq<char>>) -> u64 {
    match header {
        Some(h) => match text::parse_uint(h, 0xffff_ffff_ffff_ffff) {
            Some(n) => n as u64,
            None => 0,
        },
        None => 0,
    }
}

/// Parses a `Content-Length` header.
pub fn parse_content_length(header: Option<&str>) -> (n: Option<u64>)
    ensures
        match header {
            Some(h) => match text::parse_uint(h@, 0xffff_ffff_ffff_ffff) {
                Some(v) => n == Some(v as u64),
                None => n is None,
            },
            None => n is None,
        },
{
    match header {
        Some(h) => {
            let v = text::chars_of(h);
            assert(v@.subrange(0, v@.len() as int) =~= v@);
            text::parse_uint_range(v.as_slice(), 0, v.len(), 0xffff_ffff_ffff_ffff)
        },
        None => None,
    }
}

/// The record of a remote image, from its URL, its `Content-Length` header
/// and the first bytes of its body; it is streamed, so no block map.
pub fn inspect_url(url: &str, length_header: Option<&str>, head: &[u8]) -> (r: Result<
    ImageInfo,
    String,
>)
    ensures
        !is_http(url@) ==> (r matches Err(e) && e@ == "URL must start with http:// or https://"@),
        is_http(url@) ==> (r matches Ok(i) && i.path@ == url@ && i.name@ == url_name(url@)
            && i.file_size == content_length(
            match length_header {
                Some(h) => Some(h@),
                None => None,
            },
        ) && i.compression@ == compression::compression_of(head@) && i.uncompressed_size
            == uncompressed_of(i.compression@, i.file_size) && i.bmap_path is None),
{
    check_http_url(url)?;
    let file_size = match parse_content_length(length_header) {
        Some(n) => n,
        None => 0,
    };
    let name = url_basename(url);
    Ok(image_info(url.to_owned(), name, file_size, head, None))
}

pub open spec fn is_http(url: Seq<char>) -> bool {
    text::starts_with(url, "http://"@) || text::starts_with(url, "https://"@)
}


/// What `Path::file_name` gives for a path: its final component, unless
/// that is `..` or there is none.
pub uninterp spec fn path_file_name(path: Seq<char>) -> Option<Seq<char>>;

/// What `Path::with_extension` gives: the path with the extension of its
/// file name replaced by (or extended with) `ext`.
pub uninterp spec fn path_with_extension(path: Seq<char>, ext: Seq<char>) -> Seq<char>;

/// `Path::file_name` of `path`, as text.
#[verifier::external_body]
fn file_name_of(path: &str) -> (r: Option<String>)
    ensures
        match r {
            Some(n) => path_file_name(path@) == Some(n@),
            None => path_file_name(path@) is None,
        },
{
    std::path::Path::new(path).file_name().map(|n| n.to_string_lossy().to_string())
}

/// `Path::with_extension` of `path`, as text. The standard library panics
/// when the extension holds a path separator, so `ext` holds none.
#[verifier::external_body]
fn with_extension(path: &str, ext: &str) -> (r: String)
    requires
        forall|i: int| 0 <= i < ext@.len() ==> #[trigger] ext@[i] != '/' && ext@[i] != '\\',
    ensures
        r@ == path_with_extension(path@, ext@),
{
    std::path::Path::new(path).with_extension(ext).to_string_lossy().to_string()
}

/// The places a sibling block map may be at: `foo.img.xz.bmap`, then
/// `foo.img.bmap`.
pub open spec fn bmap_places(path: Seq<char>) -> Seq<Seq<char>> {
    seq![path + ".bmap"@, path_with_extension(path, "bmap"@)]
}

/// Where to look for a sibling .bmap next to `path` (e.g. foo.img.xz ->
/// foo.img.xz.bmap or foo.img.bmap), in order.
pub fn bmap_candidates(path: &str) -> (r: Vec<String>)
    ensures
        r@.map_values(|s: String| s@) == bmap_places(path@),
{
    proof {
        reveal_strlit("bmap");
    }
    let r = vec![text::concat(path, ".bmap"), with_extension(path, "bmap")];
    assert(r@.map_values(|s: String| s@) =~= bmap_places(path@));
    r
}

/// What was found out about a local path.
pub struct ImageProbe {
    /// Whether the path is a regular file.
    pub is_file: bool,
    /// Its size in bytes.
    pub size: u64,
    /// Its first bytes (up to eight).
    pub head: Vec<u8>,
    /// For each of `bmap_candidates`, whether a file is there.
    pub bmap_found: Vec<bool>,
}

/// The first of `places` that was found.
pub open spec fn first_found(places: Seq<Seq<char>>, found: Seq<bool>, i: int) -> Option<Seq<char>>
    decreases places.len() - i,
{
    if i < 0 || i >= places.len() {
        None
    } else if i < found.len() && found[i] {
        Some(places[i])
    } else {
        first_found(places, found, i + 1)
    }
}

/// Image metadata for a local path (size, magic-byte compression, sibling
/// block map), where the path has metadata (`probe`) and is a file.
#[verifier::loop_isolation(false)]
pub fn inspect_image(path: &str, probe: Option<ImageProbe>) -> (r: Option<ImageInfo>)
    ensures
        match probe {
            Some(p) => if p.is_file {
                r matches Some(i) && i.path@ == path@ && i.name@ == match path_file_name(path@) {
                    Some(n) => n,
                    None => Seq::<char>::empty(),
                } && i.file_size == p.size && i.compression@ == compression::compression_of(p.head@)
                    && i.uncompressed_size == uncompressed_of(i.compression@, p.size) && match first_found(
                    bmap_places(path@),
                    p.bmap_found@,
                    0,
                ) {
                    Some(b) => i.bmap_path matches Some(x) && x@ == b,
                    None => i.bmap_path is None,
                }
            } else {
                r is None
            },
            None => r is None,
        },
{
    let p = match probe {
        Some(p) => p,
        None => return None,
    };
    if !p.is_file {
        return None;
    }
    let name = match file_name_of(path) {
        Some(n) => n,
        None => String::new(),
    };
    let candidates = bmap_candidates(path);
    let ghost places = bmap_places(path@);
    let mut i: usize = 0;
    while i < candidates.len()
        invariant
            candidates@.map_values(|s: String| s@) == places,
            places == bmap_places(path@),
            i <= candidates@.len(),
            first_found(places, p.bmap_found@, i as int) == first_found(places, p.bmap_found@, 0),
        decreases candidates.len() - i,
    {
        if i < p.bmap_found.len() && p.bmap_found[i] {
            assert(places[i as int] == candidates@[i as int]@);
            assert(first_found(places, p.bmap_found@, i as int) == Some(places[i as int]));
            let found = Some(candidates[i].clone());
            return Some(image_info(path.to_owned(), name, p.size, p.head.as_slice(), found));
        }
        i += 1;
    }
    assert(first_found(places, p.bmap_found@, i as int) is None);
    Some(image_info(path.to_owned(), name, p.size, p.head.as_slice(), None))
}

/// Character `n < 64` of the standard base64 alphabet (RFC 4648).
pub open spec fn base64_char(n: int) -> char {
    if n < 26 {
        (65 + n) as char
    } else if n < 52 {
        (71 + n) as char
    } else if n < 62 {
        (n - 4) as char
    } else if n == 62 {
        '+'
    } else {
        '/'
    }
}

/// Standard base64 with padding (RFC 4648): each three bytes become four
/// characters of six bits each; a last one or two bytes become two or
/// three characters and `=` padding.
pub open spec fn base64_standard(data: Seq<u8>) -> Seq<char>
    decreases data.len(),
{
    if data.len() == 0 {
        seq![]
    } else if data.len() == 1 {
        let x = data[0] as int;
        seq![base64_char(x / 4), base64_char((x % 4) * 16), '=', '=']
    } else if data.len() == 2 {
        let x = data[0] as int;
        let y = data[1] as int;
        seq![base64_char(x / 4), base64_char((x % 4) * 16 + y / 16), base64_char((y % 16) * 4), '=']
    } else {
        let x = data[0] as int;
        let y = data[1] as int;
        let z = data[2] as int;
        seq![
            base64_char(x / 4),
            base64_char((x % 4) * 16 + y / 16),
            base64_char((y % 16) * 4 + z / 64),
            base64_char(z % 64),
        ] + base64_standard(data.skip(3))
    }
}

/// `n` bytes can be encoded without the encoded length overflowing.
pub open spec fn encodable_len(n: int) -> bool {
    let c = n / 3;
    c * 4 <= usize::MAX && (n % 3 == 0 || c * 4 + 4 <= usize::MAX)
}

/// `Engine::encode` of `base64::engine::general_purpose::STANDARD` on the
/// UTF-8 bytes of `data`: standard base64 with padding, four characters for
/// every three bytes or part of them. It panics only where the encoded
/// length overflows `usize`.
#[verifier::external_body]
fn base64_encode(data: &str) -> (r: String)
    requires
        encodable_len(vstd::utf8::encode_utf8(data@).len() as int),
    ensures
        r@ == base64_standard(vstd::utf8::encode_utf8(data@)),
        r@.len() == 4 * ((vstd::utf8::encode_utf8(data@).len() + 2) / 3),
{
    base64::engine::general_purpose::STANDARD.encode(data)
}

/// The credentials `user:password` that Basic Auth encodes.
pub open spec fn credentials(user: Seq<char>, password: Option<Seq<char>>) -> Seq<char> {
    user + ":"@ + match password {
        Some(p) => p,
        None => Seq::<char>::empty(),
    }
}

fn credentials_text(user: &str, password: Option<&str>) -> (r: String)
    ensures
        r@ == credentials(user@, match password {
            Some(p) => Some(p@),
            None => None,
        }),
{
    let mut raw = text::concat(user, ":");
    match password {
        Some(p) => text::push_str(&mut raw, p),
        None => {
            assert(raw@ + Seq::<char>::empty() =~= raw@);
        },
    }
    raw
}

/// The credentials are short enough to encode.
pub open spec fn credentials_fit(user: Seq<char>, password: Option<Seq<char>>) -> bool {
    encodable_len(vstd::utf8::encode_utf8(credentials(user, password)).len() as int)
}

/// Whether the credentials are short enough to encode.
pub fn credentials_fit_exec(user: &str, password: Option<&str>) -> (b: bool)
    ensures
        b == credentials_fit(user@, match password {
            Some(p) => Some(p@),
            None => None,
        }),
{
    let raw = credentials_text(user, password);
    let n = raw.as_str().as_bytes().len();
    let c = n / 3;
    let fits = c <= usize::MAX / 4;
    proof {
        assert(fits == (c * 4 <= usize::MAX)) by (nonlinear_arith)
            requires
                fits == (c <= usize::MAX / 4),
        ;
    }
    fits && (n % 3 == 0 || c * 4 <= usize::MAX - 4)
}

/// The `Authorization` header value for HTTP Basic Auth.
pub fn basic_auth_header(user: &str, password: Option<&str>) -> (r: String)
    requires
        credentials_fit(user@, match password {
            Some(p) => Some(p@),
            None => None,
        }),
    ensures
        r@ == "Basic "@ + base64_standard(vstd::utf8::encode_utf8(credentials(user@, match password {
            Some(p) => Some(p@),
            None => None,
        }))),
{
    let raw = credentials_text(user, password);
    let token = base64_encode(raw.as_str());
    text::concat("Basic ", token.as_str())
}


/// The error for a failed download: authentication where the server
/// answered 401 or 403, else the failure as described.
pub fn download_error(status: Option<u16>, description: &str) -> (r: String)
    ensures
        (status == Some(401u16) || status == Some(403u16)) ==> r@
            == "authentication required or failed for this URL"@,
        !(status == Some(401u16) || status == Some(403u16)) ==> r@ == "download failed: "@
            + description@,
{
    match status {
        Some(401) | Some(403) => "authentication required or failed for this URL".to_owned(),
        _ => text::concat("download failed: ", description),
    }
}

/// `path` names something inside the directory `dir`: `dir`'s text, then
/// a `/` (unless `dir` ends with one), then more.
pub open spec fn inside_dir(path: Seq<char>, dir: Seq<char>) -> bool {
    &&& dir.len() > 0
    &&& text::starts_with(path, dir)
    &&& if dir.last() == '/' {
        path.len() > dir.len()
    } else {
        path.len() > dir.len() + 1 && path[dir.len() as int] == '/'
    }
}

/// A `..` component of `path` starts at `i`.
pub open spec fn parent_at(path: Seq<char>, i: int) -> bool {
    &&& 0 <= i
    &&& i + 2 <= path.len()
    &&& path[i] == '.'
    &&& path[i + 1] == '.'
    &&& (i == 0 || path[i - 1] == '/')
    &&& (i + 2 == path.len() || path[i + 2] == '/')
}

/// A temporary file the app made may be removed: it lies inside the temp
/// directory and no `..` component leads it out.
pub open spec fn removable_temp(path: Seq<char>, dir: Seq<char>) -> bool {
    inside_dir(path, dir) && !(exists|i: int| #[trigger] parent_at(path, i))
}

/// Whether `path` may be removed as a temporary file of the app, given the
/// temp directory `dir`.
pub fn is_removable_temp(path: &str, dir: &str) -> (b: bool)
    ensures
        b == removable_temp(path@, dir@),
{
    let p = text::chars_of(path);
    let d = text::chars_of(dir);
    let dl = d.len();
    if dl == 0 || dl > p.len() || !text::matches_at(p.as_slice(), d.as_slice(), 0) {
        proof {
            if dl <= p@.len() {
                assert(p@.subrange(0, dl as int) =~= p@.take(dl as int));
            }
        }
        return false;
    }
    proof {
        assert(p@.subrange(0, dl as int) =~= p@.take(dl as int));
    }
    let inside = if d[dl - 1] == '/' {
        p.len() > dl
    } else {
        p.len() - dl > 1 && p[dl] == '/'
    };
    if !inside {
        return false;
    }
    let n = p.len();
    let mut i: usize = 0;
    while n >= 2 && i < n - 1
        invariant
            i <= n,
            n == p@.len(),
            p@ == path@,
            forall|j: int| 0 <= j < i ==> !parent_at(p@, j),
        decreases n - i,
    {
        if p[i] == '.' && p[i + 1] == '.' && (i == 0 || p[i - 1] == '/') && (i + 2 == n || p[i
            + 2] == '/') {
            proof {
                assert(parent_at(p@, i as int));
            }
            return false;
        }
        i += 1;
    }
    proof {
        assert forall|j: int| !#[trigger] parent_at(p@, j) by {
            if 0 <= j < i {
            }
        }
    }
    true
}

} // verus!
