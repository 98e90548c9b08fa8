//! Compression formats of source images: recognising them by their leading
//! magic bytes, and choosing the streaming decoder for a format name.

use vstd::prelude::*;

use crate::text;

verus! {

/// `b` begins with the bytes `m`.
pub open spec fn has_magic(b: Seq<u8>, m: Seq<u8>) -> bool {
    m.len() <= b.len() && b.take(m.len() as int) == m
}

/// The format name that the leading bytes `b` announce.
pub open spec fn compression_of(b: Seq<u8>) -> Seq<char> {
    if has_magic(b, seq![0x1fu8, 0x8bu8]) {
        "gzip"@
    } else if has_magic(b, seq![0xfdu8, 0x37u8, 0x7au8, 0x58u8, 0x5au8, 0x00u8]) {
        "xz"@
    } else if has_magic(b, seq![0x28u8, 0xb5u8, 0x2fu8, 0xfdu8]) {
        "zstd"@
    } else if has_magic(b, seq![0x42u8, 0x5au8, 0x68u8]) {
        "bzip2"@
    } else if has_magic(b, seq![0x50u8, 0x4bu8, 0x03u8, 0x04u8]) || has_magic(
        b,
        seq![0x50u8, 0x4bu8, 0x05u8, 0x06u8],
    ) {
        "zip"@
    } else {
        "none"@
    }
}

/// The format is told by the leading bytes: `1f 8b` is gzip,
/// `fd 37 7a 58 5a 00` xz, `28 b5 2f fd` zstd, `BZh` bzip2, `PK 03 04` or
/// `PK 05 06` zip, and anything else is no compression.
pub proof fn lemma_magic_bytes(b: Seq<u8>)
    ensures
        b.len() >= 2 && b[0] == 0x1f && b[1] == 0x8b ==> compression_of(b) == "gzip"@,
        b.len() >= 6 && b[0] == 0xfd && b[1] == 0x37 && b[2] == 0x7a && b[3] == 0x58 && b[4]
            == 0x5a && b[5] == 0x00 ==> compression_of(b) == "xz"@,
        b.len() >= 4 && b[0] == 0x28 && b[1] == 0xb5 && b[2] == 0x2f && b[3] == 0xfd
            ==> compression_of(b) == "zstd"@,
        b.len() >= 3 && b[0] == 0x42 && b[1] == 0x5a && b[2] == 0x68 ==> compression_of(b)
            == "bzip2"@,
        b.len() >= 4 && b[0] == 0x50 && b[1] == 0x4b && ((b[2] == 0x03 && b[3] == 0x04) || (b[2]
            == 0x05 && b[3] == 0x06)) ==> compression_of(b) == "zip"@,
        !(b.len() >= 2 && b[0] == 0x1f && b[1] == 0x8b) && !(b.len() >= 6 && b[0] == 0xfd && b[1]
            == 0x37 && b[2] == 0x7a && b[3] == 0x58 && b[4] == 0x5a && b[5] == 0x00) && !(b.len()
            >= 4 && b[0] == 0x28 && b[1] == 0xb5 && b[2] == 0x2f && b[3] == 0xfd) && !(b.len() >= 3
            && b[0] == 0x42 && b[1] == 0x5a && b[2] == 0x68) && !(b.len() >= 4 && b[0] == 0x50
            && b[1] == 0x4b && ((b[2] == 0x03 && b[3] == 0x04) || (b[2] == 0x05 && b[3] == 0x06)))
            ==> compression_of(b) == "none"@,
{
    let gz = seq![0x1fu8, 0x8bu8];
    let xz = seq![0xfdu8, 0x37u8, 0x7au8, 0x58u8, 0x5au8, 0x00u8];
    let zs = seq![0x28u8, 0xb5u8, 0x2fu8, 0xfdu8];
    let bz = seq![0x42u8, 0x5au8, 0x68u8];
    let z1 = seq![0x50u8, 0x4bu8, 0x03u8, 0x04u8];
    let z2 = seq![0x50u8, 0x4bu8, 0x05u8, 0x06u8];
    if b.len() >= 2 && b[0] == 0x1f && b[1] == 0x8b {
        assert(b.take(2) =~= gz);
    }
    if b.len() >= 6 && b[0] == 0xfd && b[1] == 0x37 && b[2] == 0x7a && b[3] == 0x58 && b[4] == 0x5a
        && b[5] == 0x00 {
        assert(b.take(6) =~= xz);
    }
    if b.len() >= 4 && b[0] == 0x28 && b[1] == 0xb5 && b[2] == 0x2f && b[3] == 0xfd {
        assert(b.take(4) =~= zs);
    }
    if b.len() >= 3 && b[0] == 0x42 && b[1] == 0x5a && b[2] == 0x68 {
        assert(b.take(3) =~= bz);
    }
    if b.len() >= 4 && b[0] == 0x50 && b[1] == 0x4b && b[2] == 0x03 && b[3] == 0x04 {
        assert(b.take(4) =~= z1);
    }
    if b.len() >= 4 && b[0] == 0x50 && b[1] == 0x4b && b[2] == 0x05 && b[3] == 0x06 {
        assert(b.take(4) =~= z2);
    }
    if has_magic(b, gz) {
        assert(b.take(2)[0] == b[0] && b.take(2)[1] == b[1]);
    }
    if has_magic(b, xz) {
        assert(b.take(6)[0] == b[0] && b.take(6)[1] == b[1] && b.take(6)[2] == b[2] && b.take(6)[3]
            == b[3] && b.take(6)[4] == b[4] && b.take(6)[5] == b[5]);
    }
    if has_magic(b, zs) {
        assert(b.take(4)[0] == b[0] && b.take(4)[1] == b[1] && b.take(4)[2] == b[2] && b.take(4)[3]
            == b[3]);
    }
    if has_magic(b, bz) {
        assert(b.take(3)[0] == b[0] && b.take(3)[1] == b[1] && b.take(3)[2] == b[2]);
    }
    if has_magic(b, z1) || has_magic(b, z2) {
        assert(b.take(4)[0] == b[0] && b.take(4)[1] == b[1] && b.take(4)[2] == b[2] && b.take(4)[3]
            == b[3]);
    }
}

fn starts_with_bytes(b: &[u8], m: &[u8]) -> (r: bool)
    ensures
        r == has_magic(b@, m@),
{
    if m.len() > b.len() {
        return false;
    }
    let mut i: usize = 0;
    while i < m.len()
        invariant
            m@.len() <= b@.len(),
            i <= m@.len(),
            forall|t: int| 0 <= t < i ==> b@[t] == m@[t],
        decreases m.len() - i,
    {
        if b[i] != m[i] {
            assert(b@.take(m@.len() as int)[i as int] != m@[i as int]);
            return false;
        }
        i += 1;
    }
    assert(b@.take(m@.len() as int) =~= m@);
    true
}

/// Detect compression from the leading magic bytes.
pub fn detect_compression_bytes(b: &[u8]) -> (s: String)
    ensures
        s@ == compression_of(b@),
{
    let gz = vec![0x1fu8, 0x8bu8];
    let xz = vec![0xfdu8, 0x37u8, 0x7au8, 0x58u8, 0x5au8, 0x00u8];
    let zs = vec![0x28u8, 0xb5u8, 0x2fu8, 0xfdu8];
    let bz = vec![0x42u8, 0x5au8, 0x68u8];
    let zip1 = vec![0x50u8, 0x4bu8, 0x03u8, 0x04u8];
    let zip2 = vec![0x50u8, 0x4bu8, 0x05u8, 0x06u8];
    assert(gz@ =~= seq![0x1fu8, 0x8bu8]);
    assert(xz@ =~= seq![0xfdu8, 0x37u8, 0x7au8, 0x58u8, 0x5au8, 0x00u8]);
    assert(zs@ =~= seq![0x28u8, 0xb5u8, 0x2fu8, 0xfdu8]);
    assert(bz@ =~= seq![0x42u8, 0x5au8, 0x68u8]);
    assert(zip1@ =~= seq![0x50u8, 0x4bu8, 0x03u8, 0x04u8]);
    assert(zip2@ =~= seq![0x50u8, 0x4bu8, 0x05u8, 0x06u8]);
    if starts_with_bytes(b, gz.as_slice()) {
        "gzip".to_owned()
    } else if starts_with_bytes(b, xz.as_slice()) {
        "xz".to_owned()
    } else if starts_with_bytes(b, zs.as_slice()) {
        "zstd".to_owned()
    } else if starts_with_bytes(b, bz.as_slice()) {
        "bzip2".to_owned()
    } else if starts_with_bytes(b, zip1.as_slice()) || starts_with_bytes(b, zip2.as_slice()) {
        "zip".to_owned()
    } else {
        "none".to_owned()
    }
}

/// The streaming decoders for formats other than zip.
#[derive(PartialEq, Eq, Structural, Clone, Copy, Debug)]
pub enum Decoder {
    Plain,
    Gzip,
    Xz,
    Zstd,
    Bzip2,
}

/// The decoder a format name asks for.
pub open spec fn decoder_of(name: Seq<char>) -> Option<Decoder> {
    if name == "none"@ {
        Some(Decoder::Plain)
    } else if name == "gzip"@ {
        Some(Decoder::Gzip)
    } else if name == "xz"@ {
        Some(Decoder::Xz)
    } else if name == "zstd"@ {
        Some(Decoder::Zstd)
    } else if name == "bzip2"@ {
        Some(Decoder::Bzip2)
    } else {
        None
    }
}

/// Whether the characters of `a` are those of `b`.
pub fn str_eq(a: &str, b: &str) -> (r: bool)
    ensures
        r == (a@ == b@),
{
    let x = text::chars_of(a);
    let y = text::chars_of(b);
    if x.len() != y.len() {
        return false;
    }
    let r = text::matches_at(x.as_slice(), y.as_slice(), 0);
    assert(x@.subrange(0, y@.len() as int) =~= x@);
    r
}

/// The decoder for `compression`, or the error for a format it does not
/// know.
pub fn streaming_decoder(compression: &str) -> (r: Result<Decoder, String>)
    ensures
        match r {
            Ok(d) => decoder_of(compression@) == Some(d),
            Err(e) => decoder_of(compression@) is None && e@ == "unsupported compression: "@
                + compression@,
        },
{
    if str_eq(compression, "none") {
        Ok(Decoder::Plain)
    } else if str_eq(compression, "gzip") {
        Ok(Decoder::Gzip)
    } else if str_eq(compression, "xz") {
        Ok(Decoder::Xz)
    } else if str_eq(compression, "zstd") {
        Ok(Decoder::Zstd)
    } else if str_eq(compression, "bzip2") {
        Ok(Decoder::Bzip2)
    } else {
        let mut e = "unsupported compression: ".to_owned();
        text::push_str(&mut e, compression);
        Err(e)
    }
}

} // verus!
