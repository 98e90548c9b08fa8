use pyro::compression::{detect_compression_bytes, str_eq, streaming_decoder, Decoder};
use pyro::digest::hex;
use pyro::text;

fn chars(s: &str) -> Vec<char> {
    s.chars().collect()
}

#[test]
fn trims_unicode_whitespace() {
    let v = chars("\u{3000}\t hello world \u{a0}\n");
    let t: String = text::trimmed(&v).into_iter().collect();
    assert_eq!(t, "hello world");
    assert_eq!(text::trimmed(&chars("   ")).len(), 0);
}

#[test]
fn parses_unsigned_like_str_parse() {
    let cases = ["42", "+7", "", "+", "-1", "1a", "18446744073709551615", "18446744073709551616", "007"];
    for c in cases {
        let v = chars(c);
        let got = text::parse_uint_range(&v, 0, v.len(), u64::MAX);
        assert_eq!(got, c.parse::<u64>().ok(), "case {c:?}");
    }
    let v = chars("4294967296");
    assert_eq!(text::parse_uint_range(&v, 0, v.len(), u32::MAX as u64), None);
}

#[test]
fn splits_lines_like_str_lines() {
    for s in ["a\nb", "a\r\nb\n", "\n", "", "x\n\ny\r", "one"] {
        let got: Vec<String> = text::split_lines(&chars(s))
            .into_iter()
            .map(|l| l.into_iter().collect())
            .collect();
        let want: Vec<String> = s.lines().map(|l| l.to_string()).collect();
        assert_eq!(got, want, "case {s:?}");
    }
}

#[test]
fn splits_words_like_split_whitespace() {
    for s in ["  /dev/sda1  vfat ", "a\tb\u{2003}c", "", "   "] {
        let got: Vec<String> = text::split_words(&chars(s))
            .into_iter()
            .map(|l| l.into_iter().collect())
            .collect();
        let want: Vec<String> = s.split_whitespace().map(|l| l.to_string()).collect();
        assert_eq!(got, want, "case {s:?}");
    }
}

#[test]
fn finds_first_occurrence() {
    let h = chars("abcabc");
    assert_eq!(text::find_at(&h, &chars("bc"), 0), Some(1));
    assert_eq!(text::find_at(&h, &chars("bc"), 2), Some(4));
    assert_eq!(text::find_at(&h, &chars("x"), 0), None);
    assert_eq!(text::find_at(&h, &chars(""), 6), Some(6));
}

#[test]
fn renders_decimal() {
    let mut s = String::from("n=");
    text::push_decimal(&mut s, 0);
    text::push_decimal(&mut s, 1234567890);
    assert_eq!(s, "n=01234567890");
}

#[test]
fn case_mapping_wrappers() {
    assert_eq!(text::to_uppercase("boot ß"), "BOOT SS");
    assert_eq!(text::to_lowercase("ÄBC"), "äbc");
    assert_eq!(text::take_chars("äbcdef", 3), "äbc");
    assert_eq!(text::take_chars("ab", 3), "ab");
}

#[test]
fn detects_each_compression() {
    assert_eq!(detect_compression_bytes(&[0x1f, 0x8b, 8, 0]), "gzip");
    assert_eq!(detect_compression_bytes(&[0xfd, b'7', b'z', b'X', b'Z', 0]), "xz");
    assert_eq!(detect_compression_bytes(&[0x28, 0xb5, 0x2f, 0xfd, 1]), "zstd");
    assert_eq!(detect_compression_bytes(&[0x42, 0x5a, 0x68]), "bzip2");
    assert_eq!(detect_compression_bytes(&[0x50, 0x4b, 0x03, 0x04]), "zip");
    assert_eq!(detect_compression_bytes(&[0x50, 0x4b, 0x05, 0x06]), "zip");
    assert_eq!(detect_compression_bytes(&[0x1f]), "none");
    assert_eq!(detect_compression_bytes(&[]), "none");
    assert_eq!(detect_compression_bytes(&[0xfd, b'7', b'z', b'X', b'Z']), "none");
}

#[test]
fn chooses_decoder_or_reports_unknown_format() {
    assert_eq!(streaming_decoder("none"), Ok(Decoder::Plain));
    assert_eq!(streaming_decoder("gzip"), Ok(Decoder::Gzip));
    assert_eq!(streaming_decoder("xz"), Ok(Decoder::Xz));
    assert_eq!(streaming_decoder("zstd"), Ok(Decoder::Zstd));
    assert_eq!(streaming_decoder("bzip2"), Ok(Decoder::Bzip2));
    assert_eq!(streaming_decoder("zip"), Err("unsupported compression: zip".to_string()));
    assert!(str_eq("abc", "abc"));
    assert!(!str_eq("abc", "abd"));
}

#[test]
fn hex_is_two_lowercase_digits_per_byte() {
    assert_eq!(hex(&[0x00, 0x0f, 0xab, 0xff]), "000fabff");
    assert_eq!(hex(&[]), "");
}
