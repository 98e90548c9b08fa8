//! Which blocks a block-map write puts on the device, and how long each is:
//! the image is read in blocks of the map's block size, and a block is
//! written where the map lists it. A readback of the same image asks for
//! exactly these blocks, in the same order.

use vstd::prelude::*;

verus! {

/// Block `b` lies in one of `ranges` (inclusive bounds).
pub open spec fn block_mapped(ranges: Seq<(u64, u64)>, b: u64) -> bool {
    exists|j: int| 0 <= j < ranges.len() && (#[trigger] ranges[j]).0 <= b && b <= ranges[j].1
}

/// The number of blocks of `bs` bytes that `len` bytes fill, the last one
/// possibly short.
pub open spec fn block_count(len: int, bs: int) -> int {
    (len + bs - 1) / bs
}

/// The bytes of block `b` within `len` bytes read in blocks of `bs`.
pub open spec fn block_bytes(len: int, bs: int, b: int) -> int {
    if len - b * bs < bs {
        len - b * bs
    } else {
        bs
    }
}

/// What a block-map write writes of block `b` of an image of `len` bytes:
/// the block and its length, where it is mapped and lies within the image.
pub open spec fn plan_entry(ranges: Seq<(u64, u64)>, bs: u64, len: int, b: int) -> Seq<(u64, nat)> {
    if 0 <= b <= u64::MAX && block_mapped(ranges, b as u64) && b * bs < len {
        seq![(b as u64, block_bytes(len, bs as int, b) as nat)]
    } else {
        seq![]
    }
}

/// The entries of the blocks `a..k`, in order.
pub open spec fn plan_range(ranges: Seq<(u64, u64)>, bs: u64, len: int, a: int, k: int) -> Seq<
    (u64, nat),
>
    decreases k - a,
{
    if a >= k {
        seq![]
    } else {
        plan_entry(ranges, bs, len, a) + plan_range(ranges, bs, len, a + 1, k)
    }
}

/// The blocks, with their lengths, that a block-map write of `len` image
/// bytes writes, in the order it writes them.
pub open spec fn bmap_plan(ranges: Seq<(u64, u64)>, bs: u64, len: int) -> Seq<(u64, nat)> {
    plan_range(ranges, bs, len, 0, block_count(len, bs as int))
}

pub proof fn lemma_plan_extend(ranges: Seq<(u64, u64)>, bs: u64, len: int, a: int, k: int)
    requires
        a <= k,
    ensures
        plan_range(ranges, bs, len, a, k + 1) == plan_range(ranges, bs, len, a, k) + plan_entry(
            ranges,
            bs,
            len,
            k,
        ),
    decreases k - a,
{
    if a < k {
        lemma_plan_extend(ranges, bs, len, a + 1, k);
        assert(plan_entry(ranges, bs, len, a) + (plan_range(ranges, bs, len, a + 1, k) + plan_entry(
            ranges,
            bs,
            len,
            k,
        )) =~= (plan_entry(ranges, bs, len, a) + plan_range(ranges, bs, len, a + 1, k))
            + plan_entry(ranges, bs, len, k));
    } else {
        assert(plan_range(ranges, bs, len, k + 1, k + 1) =~= Seq::<(u64, nat)>::empty());
        assert(plan_entry(ranges, bs, len, k) + Seq::<(u64, nat)>::empty() =~= plan_entry(
            ranges,
            bs,
            len,
            k,
        ));
        assert(Seq::<(u64, nat)>::empty() + plan_entry(ranges, bs, len, k) =~= plan_entry(
            ranges,
            bs,
            len,
            k,
        ));
    }
}

/// Where the blocks `a..k` are whole in both lengths, the lengths do not
/// change their entries.
pub proof fn lemma_plan_full_blocks(ranges: Seq<(u64, u64)>, bs: u64, l1: int, l2: int, a: int, k: int)
    requires
        bs > 0,
        0 <= a,
        k * bs <= l1,
        k * bs <= l2,
    ensures
        plan_range(ranges, bs, l1, a, k) == plan_range(ranges, bs, l2, a, k),
    decreases k - a,
{
    if a < k {
        assert(a * bs + bs <= k * bs) by (nonlinear_arith)
            requires
                a < k,
                bs > 0,
        ;
        lemma_plan_full_blocks(ranges, bs, l1, l2, a + 1, k);
        assert(plan_entry(ranges, bs, l1, a) == plan_entry(ranges, bs, l2, a));
    }
}

/// Blocks without an entry can be passed over.
pub proof fn lemma_plan_skip(ranges: Seq<(u64, u64)>, bs: u64, len: int, a: int, c: int, k: int)
    requires
        a <= c <= k,
        forall|b: int| a <= b < c ==> #[trigger] plan_entry(ranges, bs, len, b) == Seq::<
            (u64, nat),
        >::empty(),
    ensures
        plan_range(ranges, bs, len, a, k) == plan_range(ranges, bs, len, c, k),
    decreases c - a,
{
    if a < c {
        lemma_plan_skip(ranges, bs, len, a + 1, c, k);
        assert(plan_entry(ranges, bs, len, a) == Seq::<(u64, nat)>::empty());
        assert(plan_range(ranges, bs, len, a, k) =~= plan_range(ranges, bs, len, a + 1, k));
    }
}

/// A block that starts within `len` bytes is one of their blocks.
pub proof fn lemma_within_count(len: int, bs: int, b: int)
    requires
        bs > 0,
        0 <= b,
        b * bs < len,
    ensures
        b < block_count(len, bs),
{
    assert(b < (len + bs - 1) / bs) by (nonlinear_arith)
        requires
            bs > 0,
            0 <= b,
            b * bs < len,
    {
        assert((b + 1) * bs <= len + bs - 1);
        assert(((b + 1) * bs) / bs == b + 1) by {
            vstd::arithmetic::div_mod::lemma_div_by_multiple(b + 1, bs);
        }
        vstd::arithmetic::div_mod::lemma_div_is_ordered((b + 1) * bs, len + bs - 1, bs);
    }
}

/// Each of the blocks of `len` bytes starts within them.
pub proof fn lemma_below_count(len: int, bs: int, b: int)
    requires
        bs > 0,
        0 <= b,
        b < block_count(len, bs),
    ensures
        b * bs < len,
{
    if b * bs >= len {
        let x = len + bs - 1;
        vstd::arithmetic::div_mod::lemma_fundamental_div_mod(x, bs);
        assert(x / bs < b + 1) by (nonlinear_arith)
            requires
                bs > 0,
                b * bs >= len,
                x == len + bs - 1,
                x == bs * (x / bs) + x % bs,
                0 <= x % bs < bs,
        ;
    }
}

/// The blocks of a plan ascend.
pub open spec fn ascending_blocks(p: Seq<(u64, nat)>) -> bool {
    forall|i: int, j: int| 0 <= i < j < p.len() ==> #[trigger] p[i].0 < #[trigger] p[j].0
}

proof fn lemma_plan_range_props(ranges: Seq<(u64, u64)>, bs: u64, len: int, a: int, k: int)
    requires
        0 <= a,
    ensures
        ascending_blocks(plan_range(ranges, bs, len, a, k)),
        forall|t: int|
            0 <= t < plan_range(ranges, bs, len, a, k).len() ==> {
                let e = #[trigger] plan_range(ranges, bs, len, a, k)[t];
                &&& a <= e.0 < k
                &&& block_mapped(ranges, e.0)
                &&& e.0 * bs < len
                &&& e.1 == block_bytes(len, bs as int, e.0 as int)
            },
        forall|b: u64|
            a <= b < k && block_mapped(ranges, b) && b * bs < len ==> exists|t: int|
                0 <= t < plan_range(ranges, bs, len, a, k).len() && (#[trigger] plan_range(
                    ranges,
                    bs,
                    len,
                    a,
                    k,
                )[t]).0 == b,
    decreases k - a,
{
    if a < k {
        lemma_plan_range_props(ranges, bs, len, a + 1, k);
        let h = plan_entry(ranges, bs, len, a);
        let rest = plan_range(ranges, bs, len, a + 1, k);
        let all = plan_range(ranges, bs, len, a, k);
        assert(all == h + rest);
        assert forall|t: int| 0 <= t < h.len() implies h[t].0 == a by {}
        assert forall|i: int, j: int| 0 <= i < j < all.len() implies #[trigger] all[i].0
            < #[trigger] all[j].0 by {
            if i < h.len() {
                assert(all[j] == rest[j - h.len()]);
            } else {
                assert(all[i] == rest[i - h.len()]);
                assert(all[j] == rest[j - h.len()]);
            }
        }
        assert forall|t: int| 0 <= t < all.len() implies {
            let e = #[trigger] all[t];
            &&& a <= e.0 < k
            &&& block_mapped(ranges, e.0)
            &&& e.0 * bs < len
            &&& e.1 == block_bytes(len, bs as int, e.0 as int)
        } by {
            if t >= h.len() {
                assert(all[t] == rest[t - h.len()]);
            }
        }
        assert forall|b: u64| a <= b < k && block_mapped(ranges, b) && b * bs < len implies exists|
            t: int,
        | 0 <= t < all.len() && (#[trigger] all[t]).0 == b by {
            if b == a {
                assert(all[0] == h[0]);
            } else {
                let t = choose|t: int| 0 <= t < rest.len() && (#[trigger] rest[t]).0 == b;
                assert(all[t + h.len()] == rest[t]);
            }
        }
    } else {
        assert(plan_range(ranges, bs, len, a, k) =~= Seq::<(u64, nat)>::empty());
    }
}

/// A block-map write of `len` image bytes writes each mapped block that
/// lies within the image exactly once, in ascending order, with the length
/// the image has there, and nothing else.
pub proof fn lemma_bmap_plan_visits_mapped_blocks(ranges: Seq<(u64, u64)>, bs: u64, len: int)
    requires
        bs > 0,
    ensures
        ascending_blocks(bmap_plan(ranges, bs, len)),
        forall|t: int|
            0 <= t < bmap_plan(ranges, bs, len).len() ==> {
                let e = #[trigger] bmap_plan(ranges, bs, len)[t];
                &&& block_mapped(ranges, e.0)
                &&& e.0 * bs < len
                &&& e.1 == block_bytes(len, bs as int, e.0 as int)
            },
        forall|b: u64|
            block_mapped(ranges, b) && b * bs < len ==> exists|t: int|
                0 <= t < bmap_plan(ranges, bs, len).len() && (#[trigger] bmap_plan(
                    ranges,
                    bs,
                    len,
                )[t]).0 == b,
{
    let nb = block_count(len, bs as int);
    lemma_plan_range_props(ranges, bs, len, 0, nb);
    assert forall|b: u64| block_mapped(ranges, b) && b * bs < len implies exists|t: int|
        0 <= t < bmap_plan(ranges, bs, len).len() && (#[trigger] bmap_plan(ranges, bs, len)[t]).0
            == b by {
        lemma_within_count(len, bs as int, b as int);
        let t = choose|t: int|
            0 <= t < plan_range(ranges, bs, len, 0, nb).len() && (#[trigger] plan_range(
                ranges,
                bs,
                len,
                0,
                nb,
            )[t]).0 == b;
        assert(bmap_plan(ranges, bs, len)[t].0 == b);
    }
}

} // verus!
