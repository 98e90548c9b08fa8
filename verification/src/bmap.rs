//! Block maps (`.bmap` files written by `bmaptool`): which blocks of the
//! uncompressed image hold data, so that only those need to be written and
//! read back.

use vstd::prelude::*;

use crate::blockplan;
use crate::text;

verus! {

broadcast use vstd::seq_lib::group_to_multiset_ensures;

/// A parsed block map.
#[derive(Clone, Debug)]
pub struct Bmap {
    pub block_size: u64,
    pub image_size: u64,
    /// Inclusive block ranges that contain data, in ascending order.
    pub ranges: Vec<(u64, u64)>,
}

/// The lexicographic order of pairs, as `(u64, u64)` orders them.
pub open spec fn pair_le(a: (u64, u64), b: (u64, u64)) -> bool {
    a.0 < b.0 || (a.0 == b.0 && a.1 <= b.1)
}

pub open spec fn sorted_pairs(s: Seq<(u64, u64)>) -> bool {
    forall|i: int, j: int| 0 <= i < j < s.len() ==> pair_le(#[trigger] s[i], #[trigger] s[j])
}

pub open spec fn open_tag(name: Seq<char>) -> Seq<char> {
    seq!['<'] + name + seq!['>']
}

pub open spec fn close_tag(name: Seq<char>) -> Seq<char> {
    seq!['<', '/'] + name + seq!['>']
}

/// The trimmed text between the first `<name>` of `xml` and the first
/// `</name>` after it.
pub open spec fn tag_text(xml: Seq<char>, name: Seq<char>) -> Option<Seq<char>> {
    match text::find(xml, open_tag(name)) {
        None => None,
        Some(o) => {
            let start = o + open_tag(name).len();
            match text::find_from(xml, close_tag(name), start) {
                None => None,
                Some(e) => Some(text::trim(xml.subrange(start, e))),
            }
        },
    }
}

pub open spec fn u64_max() -> int {
    0xffff_ffff_ffff_ffff
}

/// The number in tag `name`, if it is there and parses as a `u64`.
pub open spec fn tag_u64(xml: Seq<char>, name: Seq<char>) -> Option<int> {
    match tag_text(xml, name) {
        None => None,
        Some(t) => text::parse_uint(t, u64_max()),
    }
}

pub open spec fn block_size_name() -> Seq<char> {
    seq!['B', 'l', 'o', 'c', 'k', 'S', 'i', 'z', 'e']
}

pub open spec fn image_size_name() -> Seq<char> {
    seq!['I', 'm', 'a', 'g', 'e', 'S', 'i', 'z', 'e']
}

pub open spec fn range_open() -> Seq<char> {
    seq!['<', 'R', 'a', 'n', 'g', 'e']
}

pub open spec fn range_close() -> Seq<char> {
    seq!['<', '/', 'R', 'a', 'n', 'g', 'e', '>']
}

/// A range body: `a-b` (each side trimmed) or a single block `n`.
pub open spec fn range_of(b: Seq<char>) -> Option<(u64, u64)> {
    match text::find(b, seq!['-']) {
        Some(i) => match (
            text::parse_uint(text::trim(b.take(i)), u64_max()),
            text::parse_uint(text::trim(b.skip(i + 1)), u64_max()),
        ) {
            (Some(x), Some(y)) => Some((x as u64, y as u64)),
            _ => None,
        },
        None => match text::parse_uint(text::trim(b), u64_max()) {
            Some(n) => Some((n as u64, n as u64)),
            None => None,
        },
    }
}

/// The trimmed bodies of the `<Range ...> body </Range>` elements of `x`
/// from index `k` on. `None` where a `>` follows the `</Range>` that closes
/// an element, so that the body's bounds cross.
pub open spec fn range_bodies(x: Seq<char>, k: int) -> Option<Seq<Seq<char>>>
    decreases x.len() + 1 - k,
{
    if k < 0 {
        Some(seq![])
    } else {
        match text::find_from(x, range_open(), k) {
            None => Some(seq![]),
            Some(r) => match text::find_from(x, seq!['>'], r) {
                None => Some(seq![]),
                Some(g) => match text::find_from(x, range_close(), r) {
                    None => Some(seq![]),
                    Some(c) => {
                        proof {
                            text::lemma_find_from_bounds(x, range_open(), k);
                            text::lemma_find_from_bounds(x, range_close(), r);
                        }
                        if c < g + 1 {
                            None
                        } else {
                            match range_bodies(x, c + 8) {
                                None => None,
                                Some(rest) => Some(seq![text::trim(x.subrange(g + 1, c))] + rest),
                            }
                        }
                    },
                },
            },
        }
    }
}

/// The ranges that parse among `bodies`, in order.
pub open spec fn parsed_ranges(bodies: Seq<Seq<char>>) -> Seq<(u64, u64)>
    decreases bodies.len(),
{
    if bodies.len() == 0 {
        seq![]
    } else {
        let rest = parsed_ranges(bodies.drop_first());
        match range_of(bodies[0]) {
            Some(p) => seq![p] + rest,
            None => rest,
        }
    }
}

/// Parsing `xml` would cut a range body with crossing bounds.
pub open spec fn bmap_cuts_badly(xml: Seq<char>) -> bool {
    &&& tag_u64(xml, block_size_name()) matches Some(bs)
    &&& bs != 0
    &&& range_bodies(xml, 0) is None
}


/// The image size the map states, or 0 where it states none.
pub open spec fn image_size_of(xml: Seq<char>) -> int {
    match tag_u64(xml, image_size_name()) {
        Some(v) => v,
        None => 0,
    }
}

/// The trimmed text of tag `name` in `xml`.
fn tag(xml: &[char], name: &[char]) -> (r: Option<Vec<char>>)
    ensures
        match r {
            Some(t) => tag_text(xml@, name@) == Some(t@),
            None => tag_text(xml@, name@) is None,
        },
{
    let open = text::joined3(vec!['<'].as_slice(), name, vec!['>'].as_slice());
    let close = text::joined3(vec!['<', '/'].as_slice(), name, vec!['>'].as_slice());
    assert(open@ =~= open_tag(name@));
    assert(close@ =~= close_tag(name@));
    match text::find_at(xml, open.as_slice(), 0) {
        None => None,
        Some(o) => {
            proof {
                text::lemma_find_from_bounds(xml@, open@, 0);
            }
            let xl = xml.len();
            assert(o + open@.len() <= xl);
            let start = o + open.len();
            match text::find_at(xml, close.as_slice(), start) {
                None => None,
                Some(e) => {
                    proof {
                        text::lemma_find_from_bounds(xml@, close@, start as int);
                    }
                    let (a, b) = text::trim_bounds(xml, start, e);
                    Some(text::chars_range(xml, a, b))
                },
            }
        },
    }
}

/// The number in tag `name` of `xml`.
fn tag_number(xml: &[char], name: &[char]) -> (r: Option<u64>)
    ensures
        match r {
            Some(v) => tag_u64(xml@, name@) == Some(v as int),
            None => tag_u64(xml@, name@) is None,
        },
{
    match tag(xml, name) {
        None => None,
        Some(t) => {
            let r = text::parse_uint_range(t.as_slice(), 0, t.len(), 0xffff_ffff_ffff_ffff);
            assert(t@.subrange(0, t@.len() as int) =~= t@);
            r
        },
    }
}

/// Parses one range body: `a-b` or a single block number.
pub fn parse_range(b: &[char]) -> (r: Option<(u64, u64)>)
    ensures
        r == range_of(b@),
{
    let dash = vec!['-'];
    assert(dash@ =~= seq!['-']);
    match text::find_at(b, dash.as_slice(), 0) {
        Some(i) => {
            proof {
                text::lemma_find_from_bounds(b@, seq!['-'], 0);
            }
            let bl = b.len();
            assert(i + 1 <= bl);
            let (a0, a1) = text::trim_bounds(b, 0, i);
            let (b0, b1) = text::trim_bounds(b, i + 1, b.len());
            assert(b@.subrange(0, i as int) =~= b@.take(i as int));
            assert(b@.subrange(i + 1, b@.len() as int) =~= b@.skip(i + 1));
            let x = text::parse_uint_range(b, a0, a1, 0xffff_ffff_ffff_ffff);
            let y = text::parse_uint_range(b, b0, b1, 0xffff_ffff_ffff_ffff);
            match (x, y) {
                (Some(x), Some(y)) => Some((x, y)),
                _ => None,
            }
        },
        None => {
            let (a0, a1) = text::trim_bounds(b, 0, b.len());
            assert(b@.subrange(0, b@.len() as int) =~= b@);
            match text::parse_uint_range(b, a0, a1, 0xffff_ffff_ffff_ffff) {
                Some(n) => Some((n, n)),
                None => None,
            }
        },
    }
}

/// The ranges of the `<Range>` elements of `x` that parse, in order; `None`
/// where an element's body bounds cross.
fn scan_ranges(x: &[char]) -> (r: Option<Vec<(u64, u64)>>)
    ensures
        match r {
            Some(v) => range_bodies(x@, 0) matches Some(bodies) && v@ == parsed_ranges(bodies),
            None => range_bodies(x@, 0) is None,
        },
{
    let ro = vec!['<', 'R', 'a', 'n', 'g', 'e'];
    let gt = vec!['>'];
    let rc = vec!['<', '/', 'R', 'a', 'n', 'g', 'e', '>'];
    assert(ro@ =~= range_open());
    assert(gt@ =~= seq!['>']);
    assert(rc@ =~= range_close());
    let mut out: Vec<(u64, u64)> = Vec::new();
    let mut k: usize = 0;
    loop
        invariant
            ro@ == range_open(),
            gt@ == seq!['>'],
            rc@ == range_close(),
            k <= x@.len(),
            range_bodies(x@, 0) is Some <==> range_bodies(x@, k as int) is Some,
            range_bodies(x@, k as int) is Some ==> parsed_ranges(range_bodies(x@, 0).unwrap())
                == out@ + parsed_ranges(range_bodies(x@, k as int).unwrap()),
        decreases x.len() - k,
    {
        let ghost here = range_bodies(x@, k as int);
        let r = match text::find_at(x, ro.as_slice(), k) {
            None => {
                assert(parsed_ranges(seq![]) =~= seq![]);
                assert(out@ + seq![] =~= out@);
                return Some(out);
            },
            Some(r) => r,
        };
        let g = match text::find_at(x, gt.as_slice(), r) {
            None => {
                assert(parsed_ranges(seq![]) =~= seq![]);
                assert(out@ + seq![] =~= out@);
                return Some(out);
            },
            Some(g) => g,
        };
        let c = match text::find_at(x, rc.as_slice(), r) {
            None => {
                assert(parsed_ranges(seq![]) =~= seq![]);
                assert(out@ + seq![] =~= out@);
                return Some(out);
            },
            Some(c) => c,
        };
        proof {
            text::lemma_find_from_bounds(x@, range_open(), k as int);
            text::lemma_find_from_bounds(x@, seq!['>'], r as int);
            text::lemma_find_from_bounds(x@, range_close(), r as int);
        }
        if c < g + 1 {
            return None;
        }
        let (a, b) = text::trim_bounds(x, g + 1, c);
        let body = text::chars_range(x, a, b);
        let parsed = parse_range(body.as_slice());
        proof {
            if let Some(rest) = range_bodies(x@, c + 8) {
                let s = seq![body@] + rest;
                assert(s[0] == body@);
                assert(s.drop_first() =~= rest);
                assert(parsed_ranges(s) == match range_of(body@) {
                    Some(p) => seq![p] + parsed_ranges(rest),
                    None => parsed_ranges(rest),
                });
            }
        }
        if let Some(p) = parsed {
            proof {
                if let Some(rest) = range_bodies(x@, c + 8) {
                    assert(out@.push(p) + parsed_ranges(rest) =~= out@ + (seq![p]
                        + parsed_ranges(rest)));
                }
            }
            out.push(p);
        }
        k = c + 8;
    }
}

/// Whether parsing `xml` would cut a range body with crossing bounds.
pub fn cuts_badly(xml: &str) -> (b: bool)
    ensures
        b == bmap_cuts_badly(xml@),
{
    let x = text::chars_of(xml);
    let bsn = vec!['B', 'l', 'o', 'c', 'k', 'S', 'i', 'z', 'e'];
    assert(bsn@ =~= block_size_name());
    match tag_number(x.as_slice(), bsn.as_slice()) {
        None => false,
        Some(0) => false,
        Some(_) => scan_ranges(x.as_slice()).is_none(),
    }
}

/// `v` in ascending order.
pub fn sort_pairs(v: &Vec<(u64, u64)>) -> (r: Vec<(u64, u64)>)
    ensures
        sorted_pairs(r@),
        r@.to_multiset() == v@.to_multiset(),
{
    let mut r: Vec<(u64, u64)> = Vec::new();
    let mut i: usize = 0;
    while i < v.len()
        invariant
            i <= v@.len(),
            sorted_pairs(r@),
            r@.to_multiset() == v@.take(i as int).to_multiset(),
        decreases v.len() - i,
    {
        let x = v[i];
        let mut p: usize = 0;
        while p < r.len() && (r[p].0 < x.0 || (r[p].0 == x.0 && r[p].1 <= x.1))
            invariant
                p <= r@.len(),
                forall|q: int| 0 <= q < p ==> pair_le(#[trigger] r@[q], x),
            decreases r.len() - p,
        {
            p += 1;
        }
        let ghost r0 = r@;
        r.insert(p, x);
        assert(r@ == r0.insert(p as int, x));
        assert forall|a: int, b: int| 0 <= a < b < r@.len() implies pair_le(
            #[trigger] r@[a],
            #[trigger] r@[b],
        ) by {
            if b < p {
                assert(r@[a] == r0[a] && r@[b] == r0[b]);
            } else if b == p {
                assert(r@[a] == r0[a]);
            } else if a == p {
                assert(r@[b] == r0[b - 1]);
                assert(!pair_le(r0[p as int], x));
                if b - 1 > p {
                    assert(pair_le(r0[p as int], r0[b - 1]));
                }
            } else if a < p {
                assert(r@[a] == r0[a] && r@[b] == r0[b - 1]);
                assert(pair_le(r0[a], x));
                assert(!pair_le(r0[p as int], x));
                if b - 1 > p {
                    assert(pair_le(r0[p as int], r0[b - 1]));
                }
            } else {
                assert(r@[a] == r0[a - 1] && r@[b] == r0[b - 1]);
            }
        }
        assert(v@.take(i + 1) =~= v@.take(i as int).push(x));
        i += 1;
    }
    assert(v@.take(v@.len() as int) =~= v@);
    r
}

proof fn lemma_size_tag_names()
    ensures
        block_size_name() == "BlockSize"@,
        image_size_name() == "ImageSize"@,
        u64_max() == 0xffff_ffff_ffff_ffff,
{
    reveal_strlit("BlockSize");
    reveal_strlit("ImageSize");
    assert(block_size_name() =~= "BlockSize"@);
    assert(image_size_name() =~= "ImageSize"@);
}

/// The image size is read as a full `u64`: where the `ImageSize` tag holds
/// the decimal of any `n` up to `u64::MAX`, the image size is `n`; where
/// it holds nothing that parses, it is 0.
pub proof fn lemma_image_size_tag(xml: Seq<char>, t: Seq<char>)
    requires
        tag_text(xml, "ImageSize"@) == Some(t),
    ensures
        text::parse_uint(t, 0xffff_ffff_ffff_ffff) matches Some(n) ==> image_size_of(xml) == n,
        text::parse_uint(t, 0xffff_ffff_ffff_ffff) is None ==> image_size_of(xml) == 0,
{
    lemma_size_tag_names();
}

/// The block size is read as a full `u64`: where the `BlockSize` tag holds
/// the decimal of any `n` up to `u64::MAX`, that is the block size.
pub proof fn lemma_block_size_tag(xml: Seq<char>, t: Seq<char>)
    requires
        tag_text(xml, "BlockSize"@) == Some(t),
    ensures
        tag_u64(xml, block_size_name()) == text::parse_uint(t, 0xffff_ffff_ffff_ffff),
{
    lemma_size_tag_names();
}

/// Reads a block map from the text of a `.bmap` file.
pub fn parse_text(xml: &str) -> (r: Result<Bmap, String>)
    requires
        !bmap_cuts_badly(xml@),
    ensures
        tag_u64(xml@, block_size_name()) is None ==> (r matches Err(e) && e@
            == "bmap missing BlockSize"@),
        tag_u64(xml@, block_size_name()) == Some(0int) ==> (r matches Err(e) && e@
            == "bmap BlockSize is zero"@),
        tag_u64(xml@, block_size_name()) is Some && tag_u64(xml@, block_size_name()).unwrap()
            != 0 ==> {
            let bs = tag_u64(xml@, block_size_name()).unwrap();
            let found = parsed_ranges(range_bodies(xml@, 0).unwrap());
            &&& found.len() == 0 ==> (r matches Err(e) && e@ == "bmap has no block ranges"@)
            &&& found.len() > 0 ==> (r matches Ok(m) && m.block_size == bs && m.image_size
                == image_size_of(xml@) && sorted_pairs(m.ranges@) && m.ranges@.to_multiset()
                == found.to_multiset())
        },
        r matches Ok(m) ==> (tag_text(xml@, "BlockSize"@) matches Some(t) && text::parse_uint(
            t,
            0xffff_ffff_ffff_ffff,
        ) == Some(m.block_size as int)),
        r matches Ok(m) ==> m.image_size == match tag_text(xml@, "ImageSize"@) {
            Some(t) => match text::parse_uint(t, 0xffff_ffff_ffff_ffff) {
                Some(n) => n,
                None => 0,
            },
            None => 0,
        },
{
    proof {
        lemma_size_tag_names();
    }
    let x = text::chars_of(xml);
    let bsn = vec!['B', 'l', 'o', 'c', 'k', 'S', 'i', 'z', 'e'];
    let isn = vec!['I', 'm', 'a', 'g', 'e', 'S', 'i', 'z', 'e'];
    assert(bsn@ =~= block_size_name());
    assert(isn@ =~= image_size_name());
    let block_size = match tag_number(x.as_slice(), bsn.as_slice()) {
        None => return Err("bmap missing BlockSize".to_owned()),
        Some(v) => v,
    };
    if block_size == 0 {
        return Err("bmap BlockSize is zero".to_owned());
    }
    let image_size = match tag_number(x.as_slice(), isn.as_slice()) {
        Some(v) => v,
        None => 0,
    };
    let found = match scan_ranges(x.as_slice()) {
        Some(v) => v,
        None => {
            return Err("bmap has no block ranges".to_owned());
        },
    };
    if found.len() == 0 {
        return Err("bmap has no block ranges".to_owned());
    }
    let ranges = sort_pairs(&found);
    Ok(Bmap { block_size, image_size, ranges })
}

impl Bmap {
    /// Whether the block size is nonzero and the ranges are in ascending
    /// order, as a block-map write needs.
    pub fn ready_for_writing(&self) -> (b: bool)
        ensures
            b == (self.block_size > 0 && sorted_pairs(self.ranges@)),
    {
        if self.block_size == 0 {
            return false;
        }
        let n = self.ranges.len();
        let mut i: usize = 1;
        if n == 0 {
            return true;
        }
        while i < n
            invariant
                n == self.ranges@.len(),
                1 <= i <= n,
                sorted_pairs(self.ranges@.take(i as int)),
            decreases n - i,
        {
            let a = self.ranges[i - 1];
            let b = self.ranges[i];
            if !(a.0 < b.0 || (a.0 == b.0 && a.1 <= b.1)) {
                assert(!sorted_pairs(self.ranges@)) by {
                    assert(!pair_le(self.ranges@[i - 1], self.ranges@[i as int]));
                }
                return false;
            }
            let ghost s = self.ranges@.take(i + 1);
            assert forall|x: int, y: int| 0 <= x < y < s.len() implies pair_le(
                #[trigger] s[x],
                #[trigger] s[y],
            ) by {
                assert(s[x] == self.ranges@.take(i as int)[x] || x == i);
                if y < i {
                    assert(s[y] == self.ranges@.take(i as int)[y]);
                    assert(s[x] == self.ranges@.take(i as int)[x]);
                } else {
                    assert(s[x] == self.ranges@.take(i as int)[x]);
                    if x < i - 1 {
                        assert(pair_le(self.ranges@.take(i as int)[x], self.ranges@.take(
                            i as int,
                        )[i - 1]));
                    }
                }
            }
            i += 1;
        }
        assert(self.ranges@.take(n as int) =~= self.ranges@);
        true
    }

    /// The number of bytes of the image that block `block` covers.
    pub open spec fn spec_block_len(&self, block: u64) -> int {
        if self.image_size == 0 {
            self.block_size as int
        } else {
            let start = block * self.block_size;
            let remaining = if self.image_size >= start {
                self.image_size - start
            } else {
                0
            };
            if remaining < self.block_size {
                remaining
            } else {
                self.block_size as int
            }
        }
    }

    /// Length in bytes of `block` (the final block may be short).
    pub fn block_len(&self, block: u64) -> (n: usize)
        requires
            self.image_size != 0 ==> block * self.block_size <= u64::MAX,
        ensures
            n == self.spec_block_len(block) as usize,
    {
        if self.image_size == 0 {
            return self.block_size as usize;
        }
        let start = block * self.block_size;
        let remaining = self.image_size.saturating_sub(start);
        let m = if remaining < self.block_size {
            remaining
        } else {
            self.block_size
        };
        m as usize
    }
}

/// The number of blocks of an image of known size.
pub open spec fn image_blocks(m: &Bmap) -> int {
    blockplan::block_count(m.image_size as int, m.block_size as int)
}

/// The sum of the lengths of blocks `0..k`.
pub open spec fn block_len_sum(m: &Bmap, k: nat) -> int
    decreases k,
{
    if k == 0 {
        0
    } else {
        block_len_sum(m, (k - 1) as nat) + m.spec_block_len((k - 1) as u64)
    }
}

proof fn lemma_block_len_sum(m: &Bmap, k: nat)
    requires
        m.block_size > 0,
        m.image_size > 0,
        k <= m.image_size,
    ensures
        block_len_sum(m, k) == if k * m.block_size < m.image_size {
            k * m.block_size
        } else {
            m.image_size as int
        },
    decreases k,
{
    if k > 0 {
        let b = (k - 1) as nat;
        lemma_block_len_sum(m, b);
        assert(k * m.block_size == b * m.block_size + m.block_size) by (nonlinear_arith)
            requires
                k == b + 1,
        ;
        assert(b * m.block_size <= k * m.block_size);
        let bu = b as u64;
        assert(bu as int == b);
        assert(block_len_sum(m, k) == block_len_sum(m, b) + m.spec_block_len(bu));
        let start = bu * m.block_size;
        assert(start == b * m.block_size);
        if b * m.block_size < m.image_size {
            assert(m.spec_block_len(bu) == if m.image_size - start < m.block_size {
                m.image_size - start
            } else {
                m.block_size as int
            });
        } else {
            assert(m.spec_block_len(bu) == 0);
        }
    } else {
        assert(0 * m.block_size == 0);
    }
}

/// With a known image size, every block of the image is whole but the
/// last, which holds the rest; blocks past the image hold nothing; and the
/// lengths of the image's blocks add up to the image size.
pub proof fn lemma_block_lens_cover_image(m: &Bmap, k: u64)
    requires
        m.block_size > 0,
        m.image_size > 0,
    ensures
        block_len_sum(m, image_blocks(m) as nat) == m.image_size,
        k + 1 < image_blocks(m) ==> m.spec_block_len(k) == m.block_size,
        k + 1 == image_blocks(m) ==> 0 < m.spec_block_len(k) <= m.block_size,
        k >= image_blocks(m) ==> m.spec_block_len(k) == 0,
{
    let s = m.image_size as int;
    let bs = m.block_size as int;
    let nb = image_blocks(m);
    assert(nb >= 1) by {
        blockplan::lemma_within_count(s, bs, 0);
    }
    blockplan::lemma_below_count(s, bs, nb - 1);
    assert(nb <= s) by (nonlinear_arith)
        requires
            (nb - 1) * bs < s,
            bs >= 1,
            nb >= 1,
    ;
    if nb * bs < s {
        blockplan::lemma_within_count(s, bs, nb);
    }
    lemma_block_len_sum(m, nb as nat);
    if k + 1 < nb {
        blockplan::lemma_below_count(s, bs, k + 1);
        assert((k + 1) * bs == k * bs + bs) by (nonlinear_arith);
    }
    if k + 1 == nb {
        blockplan::lemma_below_count(s, bs, k as int);
    }
    if k >= nb {
        if k * bs < s {
            blockplan::lemma_within_count(s, bs, k as int);
        }
    }
}

} // verus!
