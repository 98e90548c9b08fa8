use pyro::bmap::{cuts_badly, parse_text, Bmap};

const SAMPLE: &str = "<?xml version=\"1.0\" ?>\n<bmap version=\"2.0\">\n    <ImageSize> 821752 </ImageSize>\n    <BlockSize> 4096 </BlockSize>\n    <BlocksCount> 201 </BlocksCount>\n    <BlockMap>\n        <Range chksum=\"a\"> 100-120 </Range>\n        <Range chksum=\"b\"> 0-5 </Range>\n        <Range chksum=\"c\"> 7 </Range>\n    </BlockMap>\n</bmap>\n";

#[test]
fn parses_sample_bmap() {
    assert!(!cuts_badly(SAMPLE));
    let m = parse_text(SAMPLE).unwrap();
    assert_eq!(m.block_size, 4096);
    assert_eq!(m.image_size, 821752);
    assert_eq!(m.ranges, vec![(0, 5), (7, 7), (100, 120)]);
}

#[test]
fn missing_block_size_is_an_error() {
    let e = parse_text("<bmap><Range> 1-2 </Range></bmap>").err().unwrap();
    assert_eq!(e, "bmap missing BlockSize");
}

#[test]
fn zero_block_size_is_an_error() {
    let e = parse_text("<BlockSize>0</BlockSize><Range>1</Range>").err().unwrap();
    assert_eq!(e, "bmap BlockSize is zero");
}

#[test]
fn no_ranges_is_an_error() {
    let e = parse_text("<BlockSize>512</BlockSize><Range>x-y</Range>").err().unwrap();
    assert_eq!(e, "bmap has no block ranges");
}

#[test]
fn block_len_of_last_block_is_short() {
    let m = Bmap { block_size: 4096, image_size: 10000, ranges: vec![(0, 2)] };
    assert_eq!(m.block_len(0), 4096);
    assert_eq!(m.block_len(2), 10000 - 8192);
    assert_eq!(m.block_len(5), 0);
    let n = Bmap { block_size: 512, image_size: 0, ranges: vec![(0, 0)] };
    assert_eq!(n.block_len(9), 512);
}

#[test]
fn block_lengths_add_up_to_the_image_size() {
    let m = Bmap { block_size: 4096, image_size: 10000, ranges: vec![(0, 2)] };
    let lens: Vec<usize> = (0..4).map(|b| m.block_len(b)).collect();
    assert_eq!(lens, vec![4096, 4096, 1808, 0]);
    assert_eq!(lens.iter().sum::<usize>(), 10000);
    let unknown = Bmap { block_size: 4096, image_size: 0, ranges: vec![] };
    assert_eq!(unknown.block_len(7), 4096);
}
