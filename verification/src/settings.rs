//! Persisted user preferences, and the list of recently used image URLs.

use vstd::prelude::*;

use crate::compression::str_eq;
use crate::text;

verus! {

/// User preferences.
pub struct Settings {
    /// Verify the write by reading the device back and comparing checksums.
    pub validate: bool,
    /// Show a desktop notification when a flash finishes.
    pub notifications: bool,
    /// UI language code (e.g. "en", "de").
    pub language: String,
    /// Most-recently-used image URLs (newest first), for quick re-selection.
    pub recent_urls: Vec<String>,
}

/// How many recent URLs we remember.
pub const RECENT_URLS_MAX: usize = 8;

/// The UI language used where none is stored.
pub fn default_language() -> (s: String)
    ensures
        s@ == "en"@,
{
    "en".to_owned()
}

impl Default for Settings {
    fn default() -> (s: Self)
        ensures
            s.validate,
            s.notifications,
            s.language@ == "en"@,
            s.recent_urls@.len() == 0,
    {
        Settings {
            validate: true,
            notifications: true,
            language: default_language(),
            recent_urls: Vec::new(),
        }
    }
}

/// The views of a list of strings.
pub open spec fn views(v: Seq<String>) -> Seq<Seq<char>> {
    v.map_values(|s: String| s@)
}

/// `l` with every occurrence of `u` removed, the rest in order.
pub open spec fn without(l: Seq<Seq<char>>, u: Seq<char>) -> Seq<Seq<char>>
    decreases l.len(),
{
    if l.len() == 0 {
        seq![]
    } else {
        let w = without(l.drop_last(), u);
        if l.last() == u {
            w
        } else {
            w.push(l.last())
        }
    }
}

/// At most the first `RECENT_URLS_MAX` entries of `s`.
pub open spec fn capped(s: Seq<Seq<char>>) -> Seq<Seq<char>> {
    if s.len() <= RECENT_URLS_MAX {
        s
    } else {
        s.take(RECENT_URLS_MAX as int)
    }
}

/// The recent list after using `u`: `u` moved (or added) to the front, no
/// other copy of it kept, and the list capped.
pub open spec fn recent_after(l: Seq<Seq<char>>, u: Seq<char>) -> Seq<Seq<char>> {
    capped(seq![u] + without(l, u))
}

/// Records a successfully-used image URL at the front of the recent list
/// (de-duplicated, capped). Returns whether the settings changed and are to
/// be stored: not where the URL is blank.
pub fn add_recent_url(settings: &mut Settings, url: &str) -> (store: bool)
    ensures
        store == (text::trim(url@).len() > 0),
        store ==> views(final(settings).recent_urls@) == recent_after(
            views(old(settings).recent_urls@),
            text::trim(url@),
        ),
        !store ==> final(settings).recent_urls@ == old(settings).recent_urls@,
        final(settings).validate == old(settings).validate,
        final(settings).notifications == old(settings).notifications,
        final(settings).language == old(settings).language,
{
    let v = text::chars_of(url);
    let (a, b) = text::trim_bounds(v.as_slice(), 0, v.len());
    assert(v@.subrange(0, v@.len() as int) =~= v@);
    if a == b {
        return false;
    }
    let trimmed = text::string_of_range(v.as_slice(), a, b);
    let ghost u = trimmed@;
    let ghost l = views(settings.recent_urls@);
    let mut kept: Vec<String> = Vec::new();
    let mut i: usize = 0;
    while i < settings.recent_urls.len()
        invariant
            i <= settings.recent_urls@.len(),
            l == views(settings.recent_urls@),
            u == trimmed@,
            views(kept@) == without(l.take(i as int), u),
        decreases settings.recent_urls.len() - i,
    {
        assert(l.take(i + 1).drop_last() =~= l.take(i as int));
        let ghost before = views(kept@);
        if !str_eq(settings.recent_urls[i].as_str(), trimmed.as_str()) {
            kept.push(settings.recent_urls[i].clone());
            assert(views(kept@) =~= before.push(l[i as int]));
        }
        i += 1;
    }
    assert(l.take(l.len() as int) =~= l);
    let ghost w = views(kept@);
    kept.insert(0, trimmed);
    assert(views(kept@) =~= seq![u] + w);
    kept.truncate(RECENT_URLS_MAX);
    assert(views(kept@) =~= capped(seq![u] + w));
    settings.recent_urls = kept;
    true
}

pub proof fn lemma_without_absent(l: Seq<Seq<char>>, u: Seq<char>)
    ensures
        !without(l, u).contains(u),
        without(l, u).len() <= l.len(),
    decreases l.len(),
{
    if l.len() > 0 {
        lemma_without_absent(l.drop_last(), u);
        if l.last() != u {
            assert forall|i: int| 0 <= i < without(l, u).len() implies without(l, u)[i] != u by {
                if i < without(l.drop_last(), u).len() {
                    assert(without(l, u)[i] == without(l.drop_last(), u)[i]);
                }
            }
        }
    }
}

/// Removing `u` keeps every other entry.
pub proof fn lemma_without_keeps_others(l: Seq<Seq<char>>, u: Seq<char>, x: Seq<char>)
    ensures
        x != u ==> (without(l, u).contains(x) <==> l.contains(x)),
    decreases l.len(),
{
    if l.len() > 0 {
        lemma_without_keeps_others(l.drop_last(), u, x);
        let w = without(l.drop_last(), u);
        if x != u {
            if l.contains(x) {
                let i = choose|i: int| 0 <= i < l.len() && l[i] == x;
                if i < l.len() - 1 {
                    assert(l.drop_last()[i] == x);
                    let j = choose|j: int| 0 <= j < w.len() && w[j] == x;
                    if l.last() != u {
                        assert(w.push(l.last())[j] == x);
                    }
                } else {
                    assert(l.last() == x);
                    assert(w.push(l.last())[w.len() as int] == x);
                }
            }
            if without(l, u).contains(x) {
                let j = choose|j: int| 0 <= j < without(l, u).len() && without(l, u)[j] == x;
                if l.last() != u && j == w.len() {
                    assert(l[l.len() - 1] == x);
                } else {
                    assert(w[j] == x);
                    let i = choose|i: int| 0 <= i < l.drop_last().len() && l.drop_last()[i] == x;
                    assert(l[i] == x);
                }
            }
        }
    }
}

/// The recent list holds at most 8 URLs: the one just used, then the
/// others that were there, none dropped until the list is full.
pub proof fn lemma_recent_list_size(l: Seq<Seq<char>>, u: Seq<char>)
    ensures
        recent_after(l, u).len() == if without(l, u).len() + 1 <= 8 {
            without(l, u).len() + 1
        } else {
            8
        },
        !l.contains(u) && l.len() < 8 ==> recent_after(l, u) == seq![u] + l,
{
    if !l.contains(u) {
        lemma_without_noop(l, u);
    }
}

pub proof fn lemma_without_noop(l: Seq<Seq<char>>, u: Seq<char>)
    requires
        !l.contains(u),
    ensures
        without(l, u) == l,
    decreases l.len(),
{
    if l.len() > 0 {
        assert(!l.drop_last().contains(u)) by {
            if l.drop_last().contains(u) {
                let i = choose|i: int| 0 <= i < l.drop_last().len() && l.drop_last()[i] == u;
                assert(l[i] == u);
            }
        }
        lemma_without_noop(l.drop_last(), u);
        assert(l.last() != u) by {
            assert(l[l.len() - 1] == l.last());
        }
        assert(l.drop_last().push(l.last()) =~= l);
    }
}

pub proof fn lemma_without_no_dups(l: Seq<Seq<char>>, u: Seq<char>)
    requires
        l.no_duplicates(),
    ensures
        without(l, u).no_duplicates(),
        forall|x: Seq<char>| without(l, u).contains(x) ==> l.contains(x),
    decreases l.len(),
{
    if l.len() > 0 {
        let d = l.drop_last();
        assert(d.no_duplicates()) by {
            assert forall|i: int, j: int| 0 <= i < d.len() && 0 <= j < d.len() && i != j implies d[i]
                != d[j] by {
                assert(d[i] == l[i] && d[j] == l[j]);
            }
        }
        lemma_without_no_dups(d, u);
        let w = without(d, u);
        assert forall|x: Seq<char>| without(l, u).contains(x) implies l.contains(x) by {
            let k = choose|k: int| 0 <= k < without(l, u).len() && without(l, u)[k] == x;
            if k < w.len() {
                assert(w[k] == x);
                assert(w.contains(x));
                assert(d.contains(x));
                let m = choose|m: int| 0 <= m < d.len() && d[m] == x;
                assert(l[m] == x);
            } else {
                assert(x == l.last());
                assert(l[l.len() - 1] == x);
            }
        }
        if l.last() != u {
            assert(!w.contains(l.last())) by {
                if w.contains(l.last()) {
                    assert(d.contains(l.last()));
                    let m = choose|m: int| 0 <= m < d.len() && d[m] == l.last();
                    assert(l[m] == l[l.len() - 1]);
                }
            }
            assert forall|i: int, j: int|
                0 <= i < w.push(l.last()).len() && 0 <= j < w.push(l.last()).len() && i != j implies w.push(
                l.last(),
            )[i] != w.push(l.last())[j] by {
                if i < w.len() && j < w.len() {
                } else if i < w.len() {
                    assert(w.contains(w[i]));
                } else if j < w.len() {
                    assert(w.contains(w[j]));
                }
            }
        }
    }
}

/// The recent list after using a URL starts with it, holds it once, never
/// exceeds `RECENT_URLS_MAX` entries, keeps the others in their order, and
/// stays free of duplicates where it was. Using the same URL again changes
/// nothing.
pub proof fn lemma_recent_urls(l: Seq<Seq<char>>, u: Seq<char>)
    ensures
        recent_after(l, u).len() >= 1,
        recent_after(l, u)[0] == u,
        recent_after(l, u).len() <= RECENT_URLS_MAX,
        forall|i: int| 1 <= i < recent_after(l, u).len() ==> #[trigger] recent_after(l, u)[i] != u,
        recent_after(l, u).drop_first() == without(l, u).take(recent_after(l, u).len() - 1),
        l.no_duplicates() ==> recent_after(l, u).no_duplicates(),
        recent_after(recent_after(l, u), u) == recent_after(l, u),
{
    let w = without(l, u);
    let r = recent_after(l, u);
    lemma_without_absent(l, u);
    assert(r[0] == u);
    assert forall|i: int| 1 <= i < r.len() implies #[trigger] r[i] != u by {
        assert(r[i] == w[i - 1]);
    }
    assert(r.drop_first() =~= w.take(r.len() - 1));
    if l.no_duplicates() {
        lemma_without_no_dups(l, u);
        assert forall|i: int, j: int| 0 <= i < r.len() && 0 <= j < r.len() && i != j implies r[i]
            != r[j] by {
            if i > 0 && j > 0 {
                assert(r[i] == w[i - 1] && r[j] == w[j - 1]);
            } else if i == 0 {
                assert(r[j] == w[j - 1]);
            } else {
                assert(r[i] == w[i - 1]);
            }
        }
    }
    let g = r.drop_first();
    assert(!g.contains(u)) by {
        if g.contains(u) {
            let k = choose|k: int| 0 <= k < g.len() && g[k] == u;
            assert(r[k + 1] == u);
        }
    }
    assert(r =~= seq![u] + g);
    lemma_without_append(seq![u], g, u);
    lemma_without_noop(g, u);
    assert(without(seq![u], u) =~= seq![]) by {
        assert(seq![u].drop_last() =~= Seq::<Seq<char>>::empty());
        assert(without(Seq::<Seq<char>>::empty(), u) =~= seq![]);
        assert(seq![u].last() == u);
    }
    assert(without(r, u) =~= g);
}

pub proof fn lemma_without_append(a: Seq<Seq<char>>, b: Seq<Seq<char>>, u: Seq<char>)
    ensures
        without(a + b, u) == without(a, u) + without(b, u),
    decreases b.len(),
{
    if b.len() == 0 {
        assert(a + b =~= a);
        assert(without(a, u) + without(b, u) =~= without(a, u));
    } else {
        lemma_without_append(a, b.drop_last(), u);
        assert((a + b).drop_last() =~= a + b.drop_last());
        assert((a + b).last() == b.last());
        if b.last() != u {
            assert(without(a, u) + without(b.drop_last(), u).push(b.last()) =~= (without(a, u)
                + without(b.drop_last(), u)).push(b.last()));
        }
    }
}

} // verus!
