//! The boot-partition editor's rules: which paths it may touch, and how a
//! directory listing is shown.

use vstd::prelude::*;

use crate::bootconfig;
use crate::order;
use crate::text;

verus! {

broadcast use vstd::seq_lib::group_to_multiset_ensures;

/// One entry of a directory listing on the boot partition.
pub struct BootEntry {
    pub name: String,
    pub is_dir: bool,
    pub size: u64,
}

/// `p` lies within a boot-partition mountpoint: under `/tmp/pyro-boot`, and
/// with no `..` anywhere.
pub open spec fn allowed_path(p: Seq<char>) -> bool {
    text::starts_with(p, "/tmp/pyro-boot"@) && text::find(p, ".."@) is None
}

/// `p` starts with `/tmp/pyro-boot` and has no two dots in a row.
pub open spec fn under_boot_prefix_without_dotdot(p: Seq<char>) -> bool {
    &&& p.len() >= 14
    &&& p.take(14) == "/tmp/pyro-boot"@
    &&& forall|i: int| 0 <= i < p.len() - 1 ==> !(#[trigger] p[i] == '.' && p[i + 1] == '.')
}

/// The editor may touch exactly the paths that start with
/// `/tmp/pyro-boot` and hold no `..`: every such path is allowed, and no
/// other.
pub proof fn lemma_allowed_paths(p: Seq<char>)
    ensures
        allowed_path(p) <==> under_boot_prefix_without_dotdot(p),
{
    reveal_strlit("/tmp/pyro-boot");
    reveal_strlit("..");
    text::lemma_find_from_bounds(p, ".."@, 0);
    if text::find(p, ".."@) is Some {
        let i = text::find(p, ".."@).unwrap();
        assert(p.subrange(i, i + 2) == ".."@);
        assert(p.subrange(i, i + 2)[0] == p[i]);
        assert(p.subrange(i, i + 2)[1] == p[i + 1]);
        assert(p[i] == '.' && p[i + 1] == '.');
    } else {
        assert forall|i: int| 0 <= i < p.len() - 1 implies !(#[trigger] p[i] == '.' && p[i + 1]
            == '.') by {
            if p[i] == '.' && p[i + 1] == '.' {
                assert(p.subrange(i, i + 2) =~= ".."@);
                assert(text::occurs_at(p, ".."@, i));
            }
        }
    }
}

/// The mount directory of every process, `/tmp/pyro-boot-<pid>`, is a path
/// the editor may touch, so that it can list the partition's root.
pub proof fn lemma_mount_dir_allowed(pid: u32)
    ensures
        allowed_path(bootconfig::mount_dir(pid)),
{
    let d = bootconfig::mount_dir(pid);
    let digits = text::dec_digits(pid as nat);
    reveal_strlit("/tmp/pyro-boot-");
    reveal_strlit("/tmp/pyro-boot");
    text::lemma_dec_digits_are_digits(pid as nat);
    assert(d == "/tmp/pyro-boot-"@ + digits);
    assert(d.take(14) =~= "/tmp/pyro-boot"@);
    assert forall|i: int| 0 <= i < d.len() - 1 implies !(#[trigger] d[i] == '.' && d[i + 1]
        == '.') by {
        if i >= 15 {
            assert(d[i] == digits[i - 15]);
        }
    }
    lemma_allowed_paths(d);
}

/// Every path is restricted to the `/tmp/pyro-boot*` mountpoint as a
/// safety guard.
pub fn guard(p: &str) -> (r: Result<(), String>)
    ensures
        r is Ok <==> allowed_path(p@),
        r is Ok <==> under_boot_prefix_without_dotdot(p@),
        r matches Err(e) ==> e@ == "path is outside the boot partition"@,
{
    let v = text::chars_of(p);
    let prefix = text::chars_of("/tmp/pyro-boot");
    let dots = vec!['.', '.'];
    proof {
        reveal_strlit("..");
    }
    assert(dots@ =~= ".."@);
    let starts = prefix.len() <= v.len() && text::matches_at(v.as_slice(), prefix.as_slice(), 0);
    proof {
        if prefix@.len() <= v@.len() {
            assert(v@.subrange(0, prefix@.len() as int) =~= v@.take(prefix@.len() as int));
        }
    }
    proof {
        lemma_allowed_paths(p@);
    }
    if starts && text::find_at(v.as_slice(), dots.as_slice(), 0).is_none() {
        Ok(())
    } else {
        Err("path is outside the boot partition".to_owned())
    }
}

/// Entry `a` is listed no later than entry `b`: directories first, then by
/// name ignoring case.
pub open spec fn entry_le(a: BootEntry, b: BootEntry) -> bool {
    (a.is_dir && !b.is_dir) || (a.is_dir == b.is_dir && order::lex_le(
        text::unicode_lower(a.name@),
        text::unicode_lower(b.name@),
    ))
}

/// Entries whose names start with `.` (dotfiles, volume metadata) are
/// hidden.
pub open spec fn visible(e: BootEntry) -> bool {
    !(e.name@.len() > 0 && e.name@[0] == '.')
}

/// The visible entries of `es[..i]`, in order.
pub open spec fn visible_prefix(es: Seq<BootEntry>, i: int) -> Seq<BootEntry>
    decreases i,
{
    if i <= 0 || i > es.len() {
        seq![]
    } else if visible(es[i - 1]) {
        visible_prefix(es, i - 1).push(es[i - 1])
    } else {
        visible_prefix(es, i - 1)
    }
}

/// `a` and `b` are listed at the same place in the order: both directories
/// or both not, with names equal ignoring case.
pub open spec fn same_rank(a: BootEntry, b: BootEntry) -> bool {
    a.is_dir == b.is_dir && text::unicode_lower(a.name@) == text::unicode_lower(b.name@)
}

/// The entries of the same rank as `e`.
pub open spec fn rank_of(e: BootEntry) -> spec_fn(BootEntry) -> bool {
    |x: BootEntry| same_rank(x, e)
}

pub open spec fn sorted_entries(s: Seq<BootEntry>) -> bool {
    forall|i: int, j: int| 0 <= i < j < s.len() ==> entry_le(#[trigger] s[i], #[trigger] s[j])
}

proof fn lemma_entry_total(a: BootEntry, b: BootEntry)
    ensures
        entry_le(a, b) || entry_le(b, a),
{
    order::lemma_lex_total(text::unicode_lower(a.name@), text::unicode_lower(b.name@));
}

proof fn lemma_entry_trans(a: BootEntry, b: BootEntry, c: BootEntry)
    requires
        entry_le(a, b),
        entry_le(b, c),
    ensures
        entry_le(a, c),
{
    if a.is_dir == b.is_dir && b.is_dir == c.is_dir {
        order::lemma_lex_trans(
            text::unicode_lower(a.name@),
            text::unicode_lower(b.name@),
            text::unicode_lower(c.name@),
        );
    }
}

/// Inserting `e` where everything before it is listed no later and the
/// first entry after it strictly later keeps, for every rank, the entries of
/// that rank in the order they were added.
proof fn lemma_insert_keeps_rank_order(r0: Seq<BootEntry>, p: int, e: BootEntry, e0: BootEntry)
    requires
        sorted_entries(r0),
        0 <= p <= r0.len(),
        p < r0.len() ==> !entry_le(r0[p], e),
    ensures
        r0.insert(p, e).filter(rank_of(e0)) == if same_rank(e, e0) {
            r0.filter(rank_of(e0)).push(e)
        } else {
            r0.filter(rank_of(e0))
        },
{
    broadcast use vstd::seq_lib::group_seq_properties;

    let f = rank_of(e0);
    let head = r0.take(p);
    let tail = r0.skip(p);
    assert(r0.insert(p, e) =~= head + seq![e] + tail);
    assert(r0 =~= head + tail);
    Seq::filter_distributes_over_add(head + seq![e], tail, f);
    Seq::filter_distributes_over_add(head, seq![e], f);
    Seq::filter_distributes_over_add(head, tail, f);
    assert(seq![e] =~= Seq::<BootEntry>::empty().push(e));
    Seq::<BootEntry>::empty().lemma_filter_push(e, f);
    assert(Seq::<BootEntry>::empty().filter(f) =~= Seq::<BootEntry>::empty()) by {
        reveal(Seq::filter);
    }
    if same_rank(e, e0) {
        assert forall|q: int| 0 <= q < tail.len() implies !f(#[trigger] tail[q]) by {
            let x = tail[q];
            assert(x == r0[p + q]);
            if same_rank(x, e0) {
                order::lemma_lex_refl(text::unicode_lower(x.name@));
                assert(entry_le(x, e));
                if q > 0 {
                    assert(entry_le(r0[p], r0[p + q]));
                    lemma_entry_trans(r0[p], x, e);
                }
            }
        }
        tail.lemma_all_neg_filter_empty(f);
        assert(tail.filter(f) =~= Seq::<BootEntry>::empty());
    }
}

/// How a directory listing is shown: dotfiles hidden, directories first,
/// then by name ignoring case; entries of the same rank keep their order.
pub fn boot_entries(entries: Vec<BootEntry>) -> (r: Vec<BootEntry>)
    ensures
        sorted_entries(r@),
        r@.to_multiset() == visible_prefix(entries@, entries@.len() as int).to_multiset(),
        forall|e: BootEntry|
            #[trigger] r@.filter(rank_of(e)) == visible_prefix(entries@, entries@.len() as int).filter(
                rank_of(e),
            ),
{
    let mut r: Vec<BootEntry> = Vec::new();
    let mut keys: Vec<Vec<char>> = Vec::new();
    let mut i: usize = 0;
    let n = entries.len();
    let mut rest = entries;
    let ghost es = rest@;
    while rest.len() > 0
        invariant
            n == es.len(),
            i + rest@.len() == n,
            rest@ == es.skip(i as int),
            keys@.len() == r@.len(),
            forall|t: int| 0 <= t < r@.len() ==> #[trigger] keys@[t]@ == text::unicode_lower(r@[t].name@),
            sorted_entries(r@),
            r@.to_multiset() == visible_prefix(es, i as int).to_multiset(),
            forall|e0: BootEntry|
                #[trigger] r@.filter(rank_of(e0)) == visible_prefix(es, i as int).filter(
                    rank_of(e0),
                ),
        decreases rest.len(),
    {
        let e = rest.remove(0);
        assert(e == es[i as int]);
        assert(rest@ =~= es.skip(i + 1));
        let first_char_dot = {
            let cs = text::chars_of(e.name.as_str());
            cs.len() > 0 && cs[0] == '.'
        };
        if !first_char_dot {
            let lname = text::to_lowercase(e.name.as_str());
            let k = text::chars_of(lname.as_str());
            let mut p: usize = 0;
            while p < r.len() && (r[p].is_dir && !e.is_dir || r[p].is_dir == e.is_dir && order::str_le(
                keys[p].as_slice(),
                k.as_slice(),
            ))
                invariant
                    p <= r@.len(),
                    keys@.len() == r@.len(),
                    forall|t: int| 0 <= t < r@.len() ==> #[trigger] keys@[t]@ == text::unicode_lower(r@[t].name@),
                    k@ == text::unicode_lower(e.name@),
                    forall|q: int| 0 <= q < p ==> entry_le(#[trigger] r@[q], e),
                decreases r.len() - p,
            {
                p += 1;
            }
            let ghost r0 = r@;
            proof {
                if p < r@.len() {
                    assert(!entry_le(r0[p as int], e));
                    lemma_entry_total(r0[p as int], e);
                }
            }
            r.insert(p, e);
            keys.insert(p, k);
            proof {
                assert forall|a: int, b: int| 0 <= a < b < r@.len() implies entry_le(
                    #[trigger] r@[a],
                    #[trigger] r@[b],
                ) by {
                    if b < p {
                        assert(r@[a] == r0[a] && r@[b] == r0[b]);
                    } else if b == p {
                        assert(r@[a] == r0[a]);
                    } else if a == p {
                        assert(r@[b] == r0[b - 1]);
                        if b - 1 > p {
                            lemma_entry_trans(e, r0[p as int], r0[b - 1]);
                        }
                    } else if a < p {
                        assert(r@[a] == r0[a] && r@[b] == r0[b - 1]);
                        lemma_entry_trans(r0[a], e, r0[p as int]);
                        if b - 1 > p {
                            lemma_entry_trans(r0[a], r0[p as int], r0[b - 1]);
                        }
                    } else {
                        assert(r@[a] == r0[a - 1] && r@[b] == r0[b - 1]);
                    }
                }
                assert(visible(e));
                assert(visible_prefix(es, i + 1) == visible_prefix(es, i as int).push(e));
                assert forall|e0: BootEntry| #[trigger] r@.filter(rank_of(e0)) == visible_prefix(
                    es,
                    i + 1,
                ).filter(rank_of(e0)) by {
                    lemma_insert_keeps_rank_order(r0, p as int, e, e0);
                    visible_prefix(es, i as int).lemma_filter_push(e, rank_of(e0));
                    assert(r@ == r0.insert(p as int, e));
                }
            }
        } else {
            proof {
                assert(!visible(e));
                assert(visible_prefix(es, i + 1) == visible_prefix(es, i as int));
            }
        }
        i += 1;
    }
    r
}

} // verus!
