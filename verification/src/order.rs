//! The order of strings (`Ord` for `str`: lexicographic by character, which
//! UTF-8 byte order agrees with) and sorted, duplicate-free string lists.

use vstd::prelude::*;

verus! {

/// `a` sorts no later than `b`.
pub open spec fn lex_le(a: Seq<char>, b: Seq<char>) -> bool
    decreases a.len(),
{
    if a.len() == 0 {
        true
    } else if b.len() == 0 {
        false
    } else if a[0] != b[0] {
        a[0] < b[0]
    } else {
        lex_le(a.drop_first(), b.drop_first())
    }
}

/// `a` sorts strictly before `b`.
pub open spec fn lex_lt(a: Seq<char>, b: Seq<char>) -> bool {
    lex_le(a, b) && a != b
}

pub proof fn lemma_lex_total(a: Seq<char>, b: Seq<char>)
    ensures
        lex_le(a, b) || lex_le(b, a),
    decreases a.len(),
{
    if a.len() > 0 && b.len() > 0 && a[0] == b[0] {
        lemma_lex_total(a.drop_first(), b.drop_first());
    }
}

pub proof fn lemma_lex_antisym(a: Seq<char>, b: Seq<char>)
    requires
        lex_le(a, b),
        lex_le(b, a),
    ensures
        a == b,
    decreases a.len(),
{
    if a.len() > 0 && b.len() > 0 {
        lemma_lex_antisym(a.drop_first(), b.drop_first());
        assert(a =~= seq![a[0]] + a.drop_first());
        assert(b =~= seq![b[0]] + b.drop_first());
    } else {
        assert(a =~= b);
    }
}

pub proof fn lemma_lex_trans(a: Seq<char>, b: Seq<char>, c: Seq<char>)
    requires
        lex_le(a, b),
        lex_le(b, c),
    ensures
        lex_le(a, c),
    decreases a.len(),
{
    if a.len() > 0 && b.len() > 0 && c.len() > 0 && a[0] == b[0] && b[0] == c[0] {
        lemma_lex_trans(a.drop_first(), b.drop_first(), c.drop_first());
    }
}

pub proof fn lemma_lex_refl(a: Seq<char>)
    ensures
        lex_le(a, a),
    decreases a.len(),
{
    if a.len() > 0 {
        lemma_lex_refl(a.drop_first());
    }
}

/// Whether `a` sorts no later than `b`.
pub fn str_le(a: &[char], b: &[char]) -> (r: bool)
    ensures
        r == lex_le(a@, b@),
{
    let mut i: usize = 0;
    assert(a@.skip(0) =~= a@);
    assert(b@.skip(0) =~= b@);
    while i < a.len() && i < b.len() && a[i] == b[i]
        invariant
            i <= a@.len(),
            i <= b@.len(),
            lex_le(a@.skip(i as int), b@.skip(i as int)) == lex_le(a@, b@),
        decreases a.len() - i,
    {
        assert(a@.skip(i as int).drop_first() =~= a@.skip(i + 1));
        assert(b@.skip(i as int).drop_first() =~= b@.skip(i + 1));
        i += 1;
    }
    if i == a.len() {
        true
    } else if i == b.len() {
        false
    } else {
        a[i] < b[i]
    }
}

/// `s` is in strictly ascending order (sorted, no duplicates).
pub open spec fn strictly_sorted(s: Seq<Seq<char>>) -> bool {
    forall|i: int, j: int| 0 <= i < j < s.len() ==> lex_lt(#[trigger] s[i], #[trigger] s[j])
}

/// The views of a list of strings.
pub open spec fn views(v: Seq<String>) -> Seq<Seq<char>> {
    v.map_values(|s: String| s@)
}

/// The strings of `v` in ascending order, each once (`sort` then `dedup`).
pub fn sorted_unique(v: &Vec<String>) -> (r: Vec<String>)
    ensures
        strictly_sorted(views(r@)),
        views(r@).to_set() == views(v@).to_set(),
{
    let mut r: Vec<String> = Vec::new();
    let mut rc: Vec<Vec<char>> = Vec::new();
    let mut i: usize = 0;
    while i < v.len()
        invariant
            i <= v@.len(),
            rc@.len() == r@.len(),
            forall|t: int| 0 <= t < r@.len() ==> #[trigger] rc@[t]@ == r@[t]@,
            strictly_sorted(views(r@)),
            views(r@).to_set() == views(v@.take(i as int)).to_set(),
        decreases v.len() - i,
    {
        let x = crate::text::chars_of(v[i].as_str());
        let mut p: usize = 0;
        while p < rc.len() && !str_le(x.as_slice(), rc[p].as_slice())
            invariant
                p <= rc@.len(),
                rc@.len() == r@.len(),
                forall|t: int| 0 <= t < r@.len() ==> #[trigger] rc@[t]@ == r@[t]@,
                forall|q: int| 0 <= q < p ==> !lex_le(x@, #[trigger] r@[q]@),
            decreases rc.len() - p,
        {
            p += 1;
        }
        let ghost vr = views(r@);
        assert(views(v@.take(i + 1)) =~= views(v@.take(i as int)).push(x@));
        proof {
            views(v@.take(i as int)).lemma_push_to_set_commute(x@);
        }
        if p < rc.len() && str_le(rc[p].as_slice(), x.as_slice()) {
            proof {
                lemma_lex_antisym(x@, r@[p as int]@);
                assert(vr[p as int] == x@);
                assert(vr.to_set().contains(x@));
                assert(views(v@.take(i + 1)).to_set() =~= vr.to_set());
            }
        } else {
            let ghost r0 = r@;
            r.insert(p, v[i].clone());
            rc.insert(p, x);
            proof {
                assert(views(r@) =~= vr.insert(p as int, x@));
                assert forall|a: int, b: int| 0 <= a < b < views(r@).len() implies lex_lt(
                    #[trigger] views(r@)[a],
                    #[trigger] views(r@)[b],
                ) by {
                    let w = views(r@);
                    if b < p {
                        assert(w[a] == vr[a] && w[b] == vr[b]);
                    } else if b == p {
                        assert(w[a] == vr[a]);
                        assert(!lex_le(x@, vr[a]));
                        lemma_lex_total(x@, vr[a]);
                    } else if a == p {
                        assert(w[b] == vr[b - 1]);
                        lemma_lex_total(x@, vr[p as int]);
                        if b - 1 > p {
                            lemma_lex_trans(x@, vr[p as int], vr[b - 1]);
                            if x@ == vr[b - 1] {
                                lemma_lex_antisym(vr[p as int], vr[b - 1]);
                            }
                        }
                    } else if a < p {
                        assert(w[a] == vr[a] && w[b] == vr[b - 1]);
                        assert(!lex_le(x@, vr[a]));
                        lemma_lex_total(x@, vr[a]);
                        lemma_lex_total(x@, vr[p as int]);
                        lemma_lex_trans(vr[a], x@, vr[p as int]);
                        if b - 1 > p {
                            lemma_lex_trans(vr[a], vr[p as int], vr[b - 1]);
                        }
                        if vr[a] == vr[b - 1] {
                            lemma_lex_antisym(vr[a], vr[p as int]);
                        }
                    } else {
                        assert(w[a] == vr[a - 1] && w[b] == vr[b - 1]);
                    }
                }
                assert(views(r@).to_set() =~= vr.to_set().insert(x@)) by {
                    assert forall|e: Seq<char>| views(r@).to_set().contains(e) implies vr.to_set().insert(
                        x@,
                    ).contains(e) by {
                        let k = choose|k: int| 0 <= k < views(r@).len() && views(r@)[k] == e;
                        if k < p {
                            assert(vr[k] == e);
                        } else if k > p {
                            assert(vr[k - 1] == e);
                        }
                    }
                    assert forall|e: Seq<char>| vr.to_set().insert(x@).contains(e) implies views(
                        r@,
                    ).to_set().contains(e) by {
                        if e == x@ {
                            assert(views(r@)[p as int] == e);
                        } else {
                            let k = choose|k: int| 0 <= k < vr.len() && vr[k] == e;
                            if k < p {
                                assert(views(r@)[k] == e);
                            } else {
                                assert(views(r@)[k + 1] == e);
                            }
                        }
                    }
                }
                assert(views(v@.take(i + 1)).to_set() =~= views(v@.take(i as int)).to_set().insert(
                    x@,
                ));
            }
        }
        i += 1;
    }
    assert(v@.take(v@.len() as int) =~= v@);
    r
}

} // verus!
