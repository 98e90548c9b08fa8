use pyro::bmap::Bmap;
use pyro::write::{
    direct_write_len, short_block_message, BmapReadback, BmapWrite, Readback, StreamWrite,
    ALIGN, CHUNK, SYNC_EVERY,
};

#[test]
fn stream_write_syncs_every_64_mib() {
    let mut w = StreamWrite::new();
    let chunk = vec![7u8; CHUNK];
    let mut syncs = 0;
    for i in 1..=32 {
        let sync = w.record(&chunk);
        if sync {
            syncs += 1;
            assert_eq!(i % 16, 0);
        }
    }
    assert_eq!(syncs, 2);
    assert_eq!(w.total(), 32 * CHUNK as u64);
    assert_eq!(SYNC_EVERY, 16 * CHUNK as u64);
    let (n, sum) = w.finish();
    assert_eq!(n, 32 * CHUNK as u64);
    assert_eq!(sum.len(), 64);
}

#[test]
fn checksum_of_known_data() {
    let mut w = StreamWrite::new();
    w.record(b"ab");
    w.record_direct(b"c");
    let (n, sum) = w.finish();
    assert_eq!(n, 3);
    assert_eq!(sum, "ba7816bf8f01cfea414140de5dae2223b00361a396177a9cb410ff61f20015ad");
}

#[test]
fn direct_writes_round_up_to_alignment() {
    assert_eq!(direct_write_len(0), 0);
    assert_eq!(direct_write_len(1), ALIGN);
    assert_eq!(direct_write_len(ALIGN), ALIGN);
    assert_eq!(direct_write_len(ALIGN + 1), 2 * ALIGN);
    assert_eq!(direct_write_len(CHUNK), CHUNK);
}

#[test]
fn bmap_write_skips_unmapped_blocks() {
    let map = Bmap { block_size: 512, image_size: 0, ranges: vec![(1, 2), (5, 5)] };
    assert!(map.ready_for_writing());
    let mut w = BmapWrite::new(map);
    let block = vec![1u8; 512];
    let mut written = Vec::new();
    for b in 0..8u64 {
        assert!(w.has_room());
        if let Some((off, _sync)) = w.next(&block) {
            assert_eq!(off, b * 512);
            written.push(b);
        }
    }
    assert_eq!(written, vec![1, 2, 5]);
    assert_eq!(w.total(), 3 * 512);
    let (n, sum) = w.finish();
    assert_eq!(n, 1536);
    assert_eq!(sum.len(), 64);
}

#[test]
fn unsorted_map_is_not_ready() {
    let map = Bmap { block_size: 512, image_size: 0, ranges: vec![(5, 5), (1, 2)] };
    assert!(!map.ready_for_writing());
    let zero = Bmap { block_size: 0, image_size: 0, ranges: vec![] };
    assert!(!zero.ready_for_writing());
}

#[test]
fn readback_lengths_and_outcomes() {
    let total = CHUNK as u64 + 10;
    let r = Readback::new(total);
    assert_eq!(r.next_len(), CHUNK);
    assert_eq!(r.next_direct_len(), CHUNK);
    let mut r = r;
    r.absorb(&vec![0u8; CHUNK]);
    assert_eq!(r.next_len(), 10);
    assert_eq!(r.next_direct_len(), ALIGN);
    r.absorb_direct(&vec![0u8; ALIGN]);
    assert_eq!(r.read_so_far(), total);
    assert!(r.finished());
    assert_eq!(
        r.finish("00").unwrap_err(),
        "validation failed: written data does not match image"
    );

    let mut short = Readback::new(100);
    short.absorb(&[1u8; 40]);
    assert!(!short.finished());
    assert_eq!(short.finish("x").unwrap_err(), "validation read short: 40 of 100 bytes");
}

#[test]
fn readback_of_written_data_matches() {
    let mut w = StreamWrite::new();
    w.record(b"hello world");
    let (n, sum) = w.finish();
    let mut r = Readback::new(n);
    r.absorb(b"hello ");
    r.absorb(b"world");
    assert_eq!(r.finish(&sum), Ok(()));
}

#[test]
fn bmap_readback_visits_ranges_in_order() {
    let map = Bmap { block_size: 100, image_size: 450, ranges: vec![(0, 1), (3, 2), (4, 4)] };
    let mut r = BmapReadback::new(map, 450);
    let mut seen = Vec::new();
    while let Some((b, off, len)) = r.next() {
        seen.push((b, off, len));
        r.absorb(&[0u8]);
    }
    assert_eq!(seen, vec![(0, 0, 100), (1, 100, 100), (4, 400, 50)]);
    assert!(r.finish("nope").is_err());
}

#[test]
fn bmap_readback_visits_overlapping_blocks_once() {
    let map = Bmap { block_size: 10, image_size: 0, ranges: vec![(0, 3), (2, 5), (2, 2)] };
    let mut r = BmapReadback::new(map, 100);
    let mut seen = Vec::new();
    while let Some((b, _, _)) = r.next() {
        seen.push(b);
    }
    assert_eq!(seen, vec![0, 1, 2, 3, 4, 5]);
}

#[test]
fn bmap_readback_reads_short_last_block_without_image_size() {
    let map = Bmap { block_size: 4, image_size: 0, ranges: vec![(0, 9)] };
    let mut r = BmapReadback::new(map, 10);
    let mut seen = Vec::new();
    while let Some(x) = r.next() {
        seen.push(x);
    }
    assert_eq!(seen, vec![(0, 0, 4), (1, 4, 4), (2, 8, 2)]);
}

#[test]
fn bmap_readback_matches_what_the_write_wrote() {
    let map = Bmap { block_size: 4, image_size: 0, ranges: vec![(0, 0), (0, 1), (3, 9)] };
    let image: Vec<u8> = (0u8..14).collect();
    let mut w = BmapWrite::new(map.clone());
    let mut wrote = Vec::new();
    for chunk in image.chunks(4) {
        if let Some((off, _)) = w.next(chunk) {
            wrote.push((off / 4, off, chunk.len() as u64));
        }
    }
    let len = w.streamed();
    assert_eq!(len, 14);
    let (_, sum) = w.finish();
    let mut r = BmapReadback::new(map, len);
    let mut asked = Vec::new();
    while let Some((b, off, l)) = r.next() {
        asked.push((b, off, l));
        r.absorb(&image[off as usize..(off + l) as usize]);
    }
    assert_eq!(asked, wrote);
    assert_eq!(asked, vec![(0, 0, 4), (1, 4, 4), (3, 12, 2)]);
    assert_eq!(r.finish(&sum), Ok(()));
}

#[test]
fn short_block_names_the_block() {
    assert_eq!(short_block_message(42), "validation read short at block 42");
}

#[test]
fn checksum_is_sha256_of_written_bytes() {
    let mut w = StreamWrite::new();
    w.record(b"ab");
    w.record_direct(b"c");
    let (n, sum) = w.finish();
    assert_eq!(n, 3);
    assert_eq!(sum, "ba7816bf8f01cfea414140de5dae2223b00361a396177a9cb410ff61f20015ad");
}

#[test]
fn readback_of_other_bytes_fails() {
    let mut w = StreamWrite::new();
    w.record(b"abc");
    let (n, sum) = w.finish();
    let mut r = Readback::new(n);
    r.absorb(b"abd");
    assert_eq!(
        r.finish(&sum).unwrap_err(),
        "validation failed: written data does not match image"
    );
}

#[test]
fn direct_readback_ignores_padding() {
    let mut w = StreamWrite::new();
    w.record(b"abc");
    let (n, sum) = w.finish();
    let mut r = Readback::new(n);
    let mut block = [0u8; 8];
    block[..3].copy_from_slice(b"abc");
    r.absorb_direct(&block);
    assert!(r.finished());
    assert_eq!(r.finish(&sum), Ok(()));
}

#[test]
fn bmap_write_checksums_mapped_blocks_only() {
    let map = Bmap { block_size: 2, image_size: 6, ranges: vec![(0, 0), (2, 2)] };
    let mut w = BmapWrite::new(map.clone());
    assert_eq!(w.next(b"ab"), Some((0, false)));
    assert_eq!(w.next(b"zz"), None);
    assert_eq!(w.next(b"c"), Some((4, false)));
    let (n, sum) = w.finish();
    assert_eq!(n, 3);
    assert_eq!(sum, "ba7816bf8f01cfea414140de5dae2223b00361a396177a9cb410ff61f20015ad");
    let mut r = BmapReadback::new(map, 5);
    while let Some((b, _, _)) = r.next() {
        if b == 0 {
            r.absorb(b"ab");
        } else {
            r.absorb(b"c");
        }
    }
    assert_eq!(r.finish(&sum), Ok(()));
}
