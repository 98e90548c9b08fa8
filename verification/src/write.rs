//! The bookkeeping of writing an image to a device and reading it back:
//! byte counts, periodic syncing, block-map skipping, direct-I/O alignment
//! and the final checksum comparison. The caller performs the I/O and
//! reports each chunk; these types decide what happens next.

use vstd::prelude::*;

use crate::blockplan::{self, block_mapped};
use crate::bmap::{self, Bmap};
use crate::digest::{self, Sha256Hasher};
use crate::text;

verus! {

/// Bytes moved per read/write call.
pub const CHUNK: usize = 4194304;

/// Sync the device once this many bytes have been written since the last
/// sync, so that progress tracks the device and not the page cache.
pub const SYNC_EVERY: u64 = 67108864;

/// Alignment of direct-I/O transfers: a multiple of the common logical block
/// sizes 512 and 4096; `CHUNK` is a multiple of it.
pub const ALIGN: usize = 4096;

/// Transfers are 4 MiB, syncing comes every 64 MiB written, and direct
/// I/O is aligned to 4096 bytes, of which a transfer is a whole number.
pub proof fn lemma_transfer_sizes()
    ensures
        CHUNK == 4 * 1024 * 1024,
        SYNC_EVERY == 64 * 1024 * 1024,
        ALIGN == 4096,
        CHUNK % ALIGN == 0,
{
}

/// The lowercase hex SHA-256 checksum of `data`, as the write reports it
/// and the readback expects it.
pub open spec fn checksum_of(data: Seq<u8>) -> Seq<char> {
    digest::hex_of(digest::sha256_of(data))
}

/// Finalizes `h` and renders the digest as lowercase hex.
fn digest_hex(h: Sha256Hasher) -> (s: String)
    ensures
        s@ == checksum_of(digest::sha256_absorbed(h)),
{
    let d = digest::sha256_finalize(h);
    digest::hex(d.as_slice())
}

/// Progress of a sequential write: bytes written, bytes not yet synced, and
/// the checksum of everything written.
pub struct StreamWrite {
    hasher: Sha256Hasher,
    total: u64,
    since_sync: u64,
}

impl StreamWrite {
    pub closed spec fn written(&self) -> nat {
        self.total as nat
    }

    pub closed spec fn unsynced(&self) -> nat {
        self.since_sync as nat
    }

    /// Everything written so far, in order.
    pub closed spec fn data(&self) -> Seq<u8> {
        digest::sha256_absorbed(self.hasher)
    }

    pub closed spec fn wf(&self) -> bool {
        &&& self.since_sync <= self.total
        &&& self.since_sync < SYNC_EVERY
        &&& self.data().len() == self.total
    }

    pub fn new() -> (w: Self)
        ensures
            w.wf(),
            w.written() == 0,
            w.unsynced() == 0,
            w.data() == Seq::<u8>::empty(),
    {
        StreamWrite { hasher: digest::sha256_new(), total: 0, since_sync: 0 }
    }

    /// Bytes written so far.
    pub fn total(&self) -> (n: u64)
        ensures
            n == self.written(),
    {
        self.total
    }

    /// Whether `n` more bytes can be counted.
    pub fn has_room(&self, n: usize) -> (b: bool)
        ensures
            b == (self.written() + n <= u64::MAX),
    {
        n as u64 <= u64::MAX - self.total
    }

    /// Records `data`, just written to the device. Returns whether the
    /// device must be synced now; the unsynced amount then starts over, so
    /// that it always stays below `SYNC_EVERY`.
    pub fn record(&mut self, data: &[u8]) -> (sync: bool)
        requires
            old(self).wf(),
            old(self).written() + data@.len() <= u64::MAX,
        ensures
            final(self).wf(),
            final(self).written() == old(self).written() + data@.len(),
            final(self).data() == old(self).data() + data@,
            sync == (old(self).unsynced() + data@.len() >= SYNC_EVERY),
            final(self).unsynced() == if sync {
                0
            } else {
                old(self).unsynced() + data@.len()
            },
            final(self).unsynced() < SYNC_EVERY,
    {
        digest::sha256_update(&mut self.hasher, data);
        let n = data.len() as u64;
        self.total = self.total + n;
        if self.since_sync + n >= SYNC_EVERY {
            self.since_sync = 0;
            true
        } else {
            self.since_sync = self.since_sync + n;
            false
        }
    }

    /// Records `data`, just written to the device without the page cache:
    /// nothing is left unsynced by it.
    pub fn record_direct(&mut self, data: &[u8])
        requires
            old(self).wf(),
            old(self).written() + data@.len() <= u64::MAX,
        ensures
            final(self).wf(),
            final(self).written() == old(self).written() + data@.len(),
            final(self).data() == old(self).data() + data@,
            final(self).unsynced() == old(self).unsynced(),
    {
        digest::sha256_update(&mut self.hasher, data);
        let n = data.len() as u64;
        self.total = self.total + n;
    }

    /// The total written and the hex checksum of all of it.
    pub fn finish(self) -> (r: (u64, String))
        requires
            self.wf(),
        ensures
            r.0 == self.written(),
            r.0 == self.data().len(),
            r.1@ == checksum_of(self.data()),
    {
        (self.total, digest_hex(self.hasher))
    }
}

/// The write length for `n` bytes of data under direct I/O: `n` rounded up
/// to a multiple of `ALIGN` (the padding is zeroes).
pub fn direct_write_len(n: usize) -> (w: usize)
    requires
        n <= CHUNK,
    ensures
        w % ALIGN == 0,
        n <= w < n + ALIGN,
        w <= CHUNK,
        n % ALIGN == 0 ==> w == n,
{
    if n % ALIGN == 0 {
        n
    } else {
        let pad = ALIGN - (n % ALIGN);
        n + pad
    }
}

/// A write that consults a block map: the decompressed image is read block
/// by block, and only mapped blocks are written, at their own offsets.
pub struct BmapWrite {
    map: Bmap,
    block: u64,
    ri: usize,
    stream: StreamWrite,
    streamed: u64,
    log: Ghost<Seq<(u64, nat)>>,
    regular: Ghost<bool>,
}

impl BmapWrite {
    pub closed spec fn next_block(&self) -> u64 {
        self.block
    }

    pub closed spec fn block_size(&self) -> u64 {
        self.map.block_size
    }

    pub closed spec fn ranges(&self) -> Seq<(u64, u64)> {
        self.map.ranges@
    }

    pub closed spec fn written(&self) -> nat {
        self.stream.written()
    }

    /// The mapped blocks written so far, concatenated in order.
    pub closed spec fn data(&self) -> Seq<u8> {
        self.stream.data()
    }

    pub closed spec fn unsynced(&self) -> nat {
        self.stream.unsynced()
    }

    /// The bytes of the image read so far, mapped or not.
    pub closed spec fn image_len(&self) -> nat {
        self.streamed as nat
    }

    /// The blocks written so far, with their lengths, in order.
    pub closed spec fn log(&self) -> Seq<(u64, nat)> {
        self.log@
    }

    /// Every block read so far but the latest was whole.
    pub closed spec fn regular(&self) -> bool {
        self.regular@
    }

    pub closed spec fn wf(&self) -> bool {
        &&& self.map.block_size > 0
        &&& bmap::sorted_pairs(self.map.ranges@)
        &&& self.ri <= self.map.ranges@.len()
        &&& forall|j: int| 0 <= j < self.ri ==> (#[trigger] self.map.ranges@[j]).1 < self.block
        &&& self.stream.wf()
        &&& self.stream.written() <= self.block * self.map.block_size
        &&& self.streamed <= self.block * self.map.block_size
        &&& self.regular@ ==> {
            &&& self.log@ == blockplan::plan_range(
                self.map.ranges@,
                self.map.block_size,
                self.streamed as int,
                0,
                self.block as int,
            )
            &&& self.block == blockplan::block_count(
                self.streamed as int,
                self.map.block_size as int,
            )
        }
    }

    pub fn new(map: Bmap) -> (w: Self)
        requires
            map.block_size > 0,
            bmap::sorted_pairs(map.ranges@),
        ensures
            w.wf(),
            w.next_block() == 0,
            w.block_size() == map.block_size,
            w.ranges() == map.ranges@,
            w.written() == 0,
            w.data() == Seq::<u8>::empty(),
            w.image_len() == 0,
            w.log() == Seq::<(u64, nat)>::empty(),
            w.regular(),
    {
        let bs = map.block_size;
        proof {
            assert((0 + bs - 1) / (bs as int) == 0) by (nonlinear_arith)
                requires
                    bs > 0,
            ;
        }
        BmapWrite {
            map,
            block: 0,
            ri: 0,
            stream: StreamWrite::new(),
            streamed: 0,
            log: Ghost(Seq::empty()),
            regular: Ghost(true),
        }
    }

    /// Whether one more block can be read without its end overflowing `u64`.
    pub fn has_room(&self) -> (b: bool)
        requires
            self.wf(),
        ensures
            b == ((self.next_block() + 1) * self.block_size() <= u64::MAX),
    {
        let bs = self.map.block_size;
        if self.block == u64::MAX {
            proof {
                assert((self.block + 1) * bs >= self.block + 1) by (nonlinear_arith)
                    requires
                        bs > 0,
                ;
            }
            return false;
        }
        let next = self.block + 1;
        let b = next <= u64::MAX / bs;
        proof {
            assert(b == (next * bs <= u64::MAX)) by (nonlinear_arith)
                requires
                    bs > 0,
                    b == (next <= u64::MAX / bs),
            ;
        }
        b
    }

    /// Records that the next block of the image, `data`, was read. Returns
    /// the device offset to write it at and whether to sync after it, or
    /// `None` where the block is not mapped and is skipped.
    pub fn next(&mut self, data: &[u8]) -> (r: Option<(u64, bool)>)
        requires
            old(self).wf(),
            0 < data@.len() <= old(self).block_size(),
            (old(self).next_block() + 1) * old(self).block_size() <= u64::MAX,
        ensures
            final(self).wf(),
            final(self).next_block() == old(self).next_block() + 1,
            final(self).block_size() == old(self).block_size(),
            final(self).ranges() == old(self).ranges(),
            final(self).image_len() == old(self).image_len() + data@.len(),
            final(self).regular() == (old(self).regular() && old(self).image_len()
                == old(self).next_block() * old(self).block_size()),
            r is Some <==> block_mapped(old(self).ranges(), old(self).next_block()),
            r is Some ==> final(self).log() == old(self).log().push(
                (old(self).next_block(), data@.len()),
            ),
            r is None ==> final(self).log() == old(self).log(),
            match r {
                Some((off, sync)) => {
                    &&& off == old(self).next_block() * old(self).block_size()
                    &&& final(self).written() == old(self).written() + data@.len()
                    &&& final(self).data() == old(self).data() + data@
                    &&& sync == (old(self).unsynced() + data@.len() >= SYNC_EVERY)
                    &&& final(self).unsynced() == if sync {
                        0
                    } else {
                        old(self).unsynced() + data@.len()
                    }
                },
                None => {
                    &&& final(self).written() == old(self).written()
                    &&& final(self).data() == old(self).data()
                    &&& final(self).unsynced() == old(self).unsynced()
                },
            },
    {
        let ghost ranges = self.map.ranges@;
        let bs = self.map.block_size;
        let block = self.block;
        let len = self.map.ranges.len();
        let mut ri = self.ri;
        while ri < len && block > self.map.ranges[ri].1
            invariant
                self.map.ranges@ == ranges,
                len == ranges.len(),
                ri <= len,
                forall|j: int| 0 <= j < ri ==> (#[trigger] ranges[j]).1 < block,
            decreases len - ri,
        {
            ri = ri + 1;
        }
        self.ri = ri;
        let mapped = self.ri < len && block >= self.map.ranges[self.ri].0;
        proof {
            if mapped {
                assert(ranges[self.ri as int].0 <= block <= ranges[self.ri as int].1);
            } else {
                assert forall|j: int| 0 <= j < ranges.len() implies !((#[trigger] ranges[j]).0
                    <= block && block <= ranges[j].1) by {
                    if j >= self.ri {
                        assert(j == self.ri || bmap::pair_le(ranges[self.ri as int], ranges[j]));
                    }
                }
            }
            assert(block * bs + bs == (block + 1) * bs) by (nonlinear_arith);
            assert((block + 1) * bs >= block + 1) by (nonlinear_arith)
                requires
                    bs > 0,
            ;
        }
        let off = block * bs;
        let n = data.len() as u64;
        let l0 = self.streamed;
        let ghost aligned = l0 == block * bs;
        let ghost log0 = self.log@;
        let ghost entry = if mapped {
            seq![(block, n as nat)]
        } else {
            Seq::<(u64, nat)>::empty()
        };
        proof {
            if self.regular@ && aligned {
                let l1 = l0 + n;
                blockplan::lemma_plan_extend(ranges, bs, l1 as int, 0, block as int);
                blockplan::lemma_plan_full_blocks(ranges, bs, l0 as int, l1 as int, 0, block as int);
                assert(blockplan::block_bytes(l1 as int, bs as int, block as int) == n);
                assert(blockplan::plan_entry(ranges, bs, l1 as int, block as int) == entry);
                assert((l1 + bs - 1) / (bs as int) == block + 1) by (nonlinear_arith)
                    requires
                        bs > 0,
                        l1 == block * bs + n,
                        0 < n <= bs,
                {
                    let x = l1 + bs - 1;
                    assert(x == (block + 1) * bs + (n - 1));
                    vstd::arithmetic::div_mod::lemma_fundamental_div_mod(x, bs as int);
                    vstd::arithmetic::div_mod::lemma_div_multiples_vanish_fancy(
                        block + 1,
                        n - 1,
                        bs as int,
                    );
                }
                assert(log0 + entry == blockplan::plan_range(
                    ranges,
                    bs,
                    l1 as int,
                    0,
                    block + 1,
                ));
            }
        }
        self.streamed = l0 + n;
        proof {
            self.regular@ = self.regular@ && aligned;
        }
        self.block = block + 1;
        proof {
            assert((block + 1) * bs == block * bs + bs) by (nonlinear_arith);
        }
        if mapped {
            let sync = self.stream.record(data);
            proof {
                self.log@ = log0.push((block, n as nat));
                assert(log0 + entry =~= log0.push((block, n as nat)));
            }
            Some((off, sync))
        } else {
            proof {
                assert(log0 + entry =~= log0);
            }
            None
        }
    }

    /// The bytes of the image read so far, mapped or not: the length a
    /// readback of this write checks.
    pub fn streamed(&self) -> (n: u64)
        ensures
            n == self.image_len(),
    {
        self.streamed
    }

    /// Bytes written so far.
    pub fn total(&self) -> (n: u64)
        requires
            self.wf(),
        ensures
            n == self.written(),
    {
        self.stream.total()
    }

    /// The total written and the hex checksum of all of it.
    pub fn finish(self) -> (r: (u64, String))
        requires
            self.wf(),
        ensures
            r.0 == self.written(),
            r.0 == self.data().len(),
            r.1@ == checksum_of(self.data()),
    {
        self.stream.finish()
    }
}


/// The error for a readback that ended early.
pub open spec fn short_read_message(done: nat, total: nat) -> Seq<char> {
    "validation read short: "@ + text::dec_digits(done) + " of "@ + text::dec_digits(total)
        + " bytes"@
}

/// The error for a readback whose checksum differs from the write's.
pub open spec fn mismatch_message() -> Seq<char> {
    "validation failed: written data does not match image"@
}

/// Compares the checksum of what `h` absorbed with `expected`.
fn check_digest(h: Sha256Hasher, expected: &str) -> (r: Result<(), String>)
    ensures
        r is Ok <==> expected@ == checksum_of(digest::sha256_absorbed(h)),
        r matches Err(e) ==> e@ == mismatch_message(),
{
    let actual = digest_hex(h);
    let a = text::chars_of(actual.as_str());
    let x = text::chars_of(expected);
    proof {
        assert(a@.subrange(0, a@.len() as int) =~= a@);
    }
    if a.len() == x.len() && text::matches_at(a.as_slice(), x.as_slice(), 0) {
        proof {
            assert(a@.subrange(0, x@.len() as int) =~= a@);
        }
        Ok(())
    } else {
        Err("validation failed: written data does not match image".to_owned())
    }
}

/// A readback passes when it read exactly `total` bytes and their checksum
/// is `expected`.
pub open spec fn readback_passes(expected: Seq<char>, total: nat, read: Seq<u8>) -> bool {
    read.len() == total && expected == checksum_of(read)
}

/// Reading a written image back from the device and checksumming it.
pub struct Readback {
    hasher: Sha256Hasher,
    total: u64,
    done: u64,
}

impl Readback {
    pub closed spec fn expected_len(&self) -> nat {
        self.total as nat
    }

    pub closed spec fn read_len(&self) -> nat {
        self.done as nat
    }

    /// Everything checksummed so far, in order.
    pub closed spec fn data(&self) -> Seq<u8> {
        digest::sha256_absorbed(self.hasher)
    }

    pub closed spec fn wf(&self) -> bool {
        self.done <= self.total && self.data().len() == self.done
    }

    /// A readback of the first `total` bytes of the device.
    pub fn new(total: u64) -> (r: Self)
        ensures
            r.wf(),
            r.expected_len() == total,
            r.read_len() == 0,
            r.data() == Seq::<u8>::empty(),
    {
        Readback { hasher: digest::sha256_new(), total, done: 0 }
    }

    /// Bytes read back so far.
    pub fn read_so_far(&self) -> (n: u64)
        ensures
            n == self.read_len(),
    {
        self.done
    }

    /// Whether everything written has been read back.
    pub fn finished(&self) -> (b: bool)
        requires
            self.wf(),
        ensures
            b == (self.read_len() == self.expected_len()),
    {
        self.done >= self.total
    }

    /// How much to read next through the page cache: what is left, at most
    /// one chunk.
    pub fn next_len(&self) -> (n: usize)
        requires
            self.wf(),
            self.read_len() < self.expected_len(),
        ensures
            n == if self.expected_len() - self.read_len() < CHUNK {
                self.expected_len() - self.read_len()
            } else {
                CHUNK as int
            },
            0 < n <= CHUNK,
    {
        let rem = self.total - self.done;
        if rem < CHUNK as u64 {
            rem as usize
        } else {
            CHUNK
        }
    }

    /// How much to read next under direct I/O: a whole chunk, or what is
    /// left rounded up to a multiple of `ALIGN`.
    pub fn next_direct_len(&self) -> (n: usize)
        requires
            self.wf(),
            self.read_len() < self.expected_len(),
        ensures
            self.expected_len() - self.read_len() >= CHUNK ==> n == CHUNK,
            self.expected_len() - self.read_len() < CHUNK ==> {
                &&& n % ALIGN == 0
                &&& self.expected_len() - self.read_len() <= n
                &&& n < self.expected_len() - self.read_len() + ALIGN
            },
            0 < n <= CHUNK,
    {
        let rem = self.total - self.done;
        if rem >= CHUNK as u64 {
            CHUNK
        } else {
            let r = rem as usize;
            ((r + ALIGN - 1) / ALIGN) * ALIGN
        }
    }

    /// Checksums `data`, the next bytes read back.
    pub fn absorb(&mut self, data: &[u8])
        requires
            old(self).wf(),
            old(self).read_len() + data@.len() <= old(self).expected_len(),
        ensures
            final(self).wf(),
            final(self).expected_len() == old(self).expected_len(),
            final(self).read_len() == old(self).read_len() + data@.len(),
            final(self).data() == old(self).data() + data@,
    {
        digest::sha256_update(&mut self.hasher, data);
        self.done = self.done + data.len() as u64;
    }

    /// Checksums the part of `data`, read back under direct I/O, that lies
    /// within the written image; any padding past its end is ignored.
    pub fn absorb_direct(&mut self, data: &[u8])
        requires
            old(self).wf(),
        ensures
            final(self).wf(),
            final(self).expected_len() == old(self).expected_len(),
            final(self).read_len() == old(self).read_len() + if data@.len() < old(
                self,
            ).expected_len() - old(self).read_len() {
                data@.len() as int
            } else {
                old(self).expected_len() - old(self).read_len()
            },
            final(self).data() == old(self).data() + data@.take(
                final(self).read_len() - old(self).read_len(),
            ),
    {
        let rem = self.total - self.done;
        let use_n = if (data.len() as u64) < rem {
            data.len()
        } else {
            rem as usize
        };
        let part = vstd::slice::slice_subrange(data, 0, use_n);
        digest::sha256_update(&mut self.hasher, part);
        self.done = self.done + use_n as u64;
    }

    /// Whether the readback passed: it must be complete and its checksum must be
    /// `expected`.
    pub fn finish(self, expected: &str) -> (r: Result<(), String>)
        requires
            self.wf(),
        ensures
            r is Ok <==> readback_passes(expected@, self.expected_len(), self.data()),
            self.read_len() != self.expected_len() ==> (r matches Err(e) && e@
                == short_read_message(self.read_len(), self.expected_len())),
            self.read_len() == self.expected_len() ==> (r matches Err(e) ==> e@
                == mismatch_message()),
    {
        if self.done != self.total {
            let mut e = "validation read short: ".to_owned();
            text::push_decimal(&mut e, self.done);
            text::push_str(&mut e, " of ");
            text::push_decimal(&mut e, self.total);
            text::push_str(&mut e, " bytes");
            return Err(e);
        }
        check_digest(self.hasher, expected)
    }
}


/// Range `r` holds no block from `b` on.
pub open spec fn no_block_from(r: (u64, u64), b: u64) -> bool {
    r.1 < b || r.0 > r.1
}

/// Reading back the blocks a block-map write wrote, in the order it wrote
/// them, each with the length it wrote, and checksumming them.
pub struct BmapReadback {
    map: Bmap,
    len: u64,
    nb: u64,
    ri: usize,
    blk: u64,
    hasher: Sha256Hasher,
}

impl BmapReadback {
    pub closed spec fn map_of(&self) -> &Bmap {
        &self.map
    }

    /// The length of the image that was written.
    pub closed spec fn image_len(&self) -> nat {
        self.len as nat
    }

    /// Everything checksummed so far, in order.
    pub closed spec fn data(&self) -> Seq<u8> {
        digest::sha256_absorbed(self.hasher)
    }

    /// The blocks still to be read back, with their lengths, in order.
    pub closed spec fn pending(&self) -> Seq<(u64, nat)> {
        blockplan::plan_range(
            self.map.ranges@,
            self.map.block_size,
            self.len as int,
            self.blk as int,
            self.nb as int,
        )
    }

    pub closed spec fn wf(&self) -> bool {
        &&& self.map.block_size > 0
        &&& bmap::sorted_pairs(self.map.ranges@)
        &&& self.nb == blockplan::block_count(self.len as int, self.map.block_size as int)
        &&& self.blk <= self.nb
        &&& self.ri <= self.map.ranges@.len()
        &&& forall|j: int|
            0 <= j < self.ri ==> no_block_from(#[trigger] self.map.ranges@[j], self.blk)
    }

    /// A readback of a block-map write of `len` image bytes with `map`: it
    /// asks for the blocks that write wrote.
    pub fn new(map: Bmap, len: u64) -> (r: Self)
        requires
            map.block_size > 0,
            bmap::sorted_pairs(map.ranges@),
        ensures
            r.wf(),
            r.map_of() == &map,
            r.image_len() == len,
            r.pending() == blockplan::bmap_plan(map.ranges@, map.block_size, len as int),
            r.data() == Seq::<u8>::empty(),
    {
        let bs = map.block_size;
        let q = len / bs;
        proof {
            if len % bs != 0 {
                assert(q < u64::MAX) by (nonlinear_arith)
                    requires
                        bs > 0,
                        q == len / bs,
                        len % bs != 0,
                        len <= u64::MAX,
                {
                    if bs == 1 {
                        assert(len % bs == 0);
                    }
                    assert(q * bs <= len);
                }
            }
        }
        let nb = if len % bs == 0 {
            q
        } else {
            q + 1
        };
        proof {
            let x = len + bs - 1;
            assert(nb == x / (bs as int)) by (nonlinear_arith)
                requires
                    bs > 0,
                    q == len / bs,
                    nb == if len % bs == 0 {
                        q as int
                    } else {
                        q + 1
                    },
                    x == len + bs - 1,
            {
                vstd::arithmetic::div_mod::lemma_fundamental_div_mod(len as int, bs as int);
                vstd::arithmetic::div_mod::lemma_fundamental_div_mod(x, bs as int);
            }
        }
        BmapReadback { map, len, nb, ri: 0, blk: 0, hasher: digest::sha256_new() }
    }

    /// The next block to read back: its number, its device offset and its
    /// length; `None` when all are done.
    #[verifier::rlimit(30)]
    pub fn next(&mut self) -> (r: Option<(u64, u64, u64)>)
        requires
            old(self).wf(),
        ensures
            final(self).wf(),
            final(self).map_of() == old(self).map_of(),
            final(self).image_len() == old(self).image_len(),
            final(self).data() == old(self).data(),
            match r {
                Some((b, off, l)) => {
                    &&& old(self).pending() == seq![(b, l as nat)] + final(self).pending()
                    &&& off == b * old(self).map_of().block_size
                },
                None => old(self).pending() == Seq::<(u64, nat)>::empty(),
            },
    {
        let ghost ranges = self.map.ranges@;
        let n = self.map.ranges.len();
        let blk = self.blk;
        let bs = self.map.block_size;
        let nb = self.nb;
        let ghost len = self.len as int;
        let mut ri = self.ri;
        while ri < n && (self.map.ranges[ri].1 < blk || self.map.ranges[ri].0 > self.map.ranges[ri].1)
            invariant
                self.map.ranges@ == ranges,
                n == ranges.len(),
                ri <= n,
                blk == self.blk,
                forall|j: int| 0 <= j < ri ==> no_block_from(#[trigger] ranges[j], blk),
            decreases n - ri,
        {
            ri += 1;
        }
        self.ri = ri;
        if ri == n {
            proof {
                assert forall|b: int| blk <= b < nb implies #[trigger] blockplan::plan_entry(
                    ranges,
                    bs,
                    len,
                    b,
                ) == Seq::<(u64, nat)>::empty() by {
                    if 0 <= b <= u64::MAX && block_mapped(ranges, b as u64) {
                        let j = choose|j: int|
                            0 <= j < ranges.len() && (#[trigger] ranges[j]).0 <= b as u64 && b as u64
                                <= ranges[j].1;
                        assert(no_block_from(ranges[j], blk));
                    }
                }
                blockplan::lemma_plan_skip(ranges, bs, len, blk as int, nb as int, nb as int);
            }
            return None;
        }
        let s = self.map.ranges[ri].0;
        let c = if s > blk {
            s
        } else {
            blk
        };
        proof {
            assert forall|b: int| blk <= b < c implies #[trigger] blockplan::plan_entry(
                ranges,
                bs,
                len,
                b,
            ) == Seq::<(u64, nat)>::empty() by {
                if 0 <= b <= u64::MAX && block_mapped(ranges, b as u64) {
                    let j = choose|j: int|
                        0 <= j < ranges.len() && (#[trigger] ranges[j]).0 <= b as u64 && b as u64
                            <= ranges[j].1;
                    if j < ri {
                        assert(no_block_from(ranges[j], blk));
                    } else if j > ri {
                        assert(bmap::pair_le(ranges[ri as int], ranges[j]));
                    }
                }
            }
        }
        if c >= nb {
            proof {
                blockplan::lemma_plan_skip(ranges, bs, len, blk as int, nb as int, nb as int);
            }
            return None;
        }
        proof {
            blockplan::lemma_plan_skip(ranges, bs, len, blk as int, c as int, nb as int);
            assert(ranges[ri as int].0 <= c && c <= ranges[ri as int].1);
            assert(block_mapped(ranges, c));
            blockplan::lemma_below_count(len, bs as int, c as int);
        }
        let off = c * bs;
        let rem = self.len - off;
        let l = if rem < bs {
            rem
        } else {
            bs
        };
        self.blk = c + 1;
        proof {
            assert(blockplan::plan_entry(ranges, bs, len, c as int) == seq![(c, l as nat)]);
            assert forall|j: int| 0 <= j < ri implies no_block_from(
                #[trigger] ranges[j],
                self.blk,
            ) by {
                assert(no_block_from(ranges[j], blk));
            }
        }
        Some((c, off, l))
    }

    /// Checksums `data`, the block just read back.
    pub fn absorb(&mut self, data: &[u8])
        requires
            old(self).wf(),
        ensures
            final(self).wf(),
            final(self).map_of() == old(self).map_of(),
            final(self).image_len() == old(self).image_len(),
            final(self).pending() == old(self).pending(),
            final(self).data() == old(self).data() + data@,
    {
        digest::sha256_update(&mut self.hasher, data);
    }

    /// Whether the readback passed: the checksum of what was read back must
    /// be `expected`.
    pub fn finish(self, expected: &str) -> (r: Result<(), String>)
        ensures
            r is Ok <==> expected@ == checksum_of(self.data()),
            r matches Err(e) ==> e@ == mismatch_message(),
    {
        check_digest(self.hasher, expected)
    }
}

/// A block-map write fed its image in whole blocks (only the last may be
/// short) has written exactly the blocks, with the lengths, that a
/// readback of the same map and image length asks for (see
/// `BmapReadback::new`), in the same order: each mapped block within the
/// image once, ascending.
pub proof fn lemma_bmap_write_follows_plan(w: BmapWrite)
    requires
        w.wf(),
        w.regular(),
    ensures
        w.log() == blockplan::bmap_plan(w.ranges(), w.block_size(), w.image_len() as int),
{
}

/// A readback that reads back in full exactly the bytes a write wrote
/// passes against the checksum that write reports.
pub proof fn lemma_faithful_readback_passes(w: StreamWrite, r: Readback)
    requires
        w.wf(),
        r.wf(),
        r.expected_len() == w.written(),
        r.data() == w.data(),
    ensures
        readback_passes(checksum_of(w.data()), r.expected_len(), r.data()),
{
}

/// A block-map readback that checksums exactly the bytes a block-map write
/// wrote passes against the checksum that write reports.
pub proof fn lemma_faithful_bmap_readback_passes(w: BmapWrite, r: BmapReadback)
    requires
        w.wf(),
        r.wf(),
        r.data() == w.data(),
    ensures
        checksum_of(w.data()) == checksum_of(r.data()),
{
}

/// The error for a block that could not be read back in full.
pub fn short_block_message(block: u64) -> (s: String)
    ensures
        s@ == "validation read short at block "@ + text::dec_digits(block as nat),
{
    let mut s = "validation read short at block ".to_owned();
    text::push_decimal(&mut s, block);
    s
}

} // verus!
