//! Eviction of the tile images kept in memory. Loaded tile images are held
//! so that a tile shown again needs no disk read; an entry not used for 30
//! seconds is dropped unless a tile on screen shows it, and above 2000
//! entries the oldest ones not on screen go too.

use vstd::prelude::*;

use super::download::NANOS_PER_SEC;

verus! {

/// One held tile image: its asset path, the id of its image handle, and
/// when it was last used (nanoseconds on the caller's monotonic clock).
#[derive(Debug)]
pub struct TileAsset {
    pub path: String,
    pub handle: u64,
    pub accessed_ns: u64,
}

/// Entries unused for longer than this may be evicted.
pub const TILE_ASSET_EVICTION_NS: u64 = 30 * NANOS_PER_SEC;

/// The cache is cut back to this many entries where possible.
pub const TILE_ASSET_CACHE_HARD_CAP: usize = 2000;

/// No two entries hold the same image.
pub open spec fn handles_distinct(s: Seq<TileAsset>) -> bool {
    forall|i: int, j: int| 0 <= i < j < s.len() ==> s[i].handle != s[j].handle
}

/// An entry unused for longer than the eviction age at `now` (an access
/// later than `now` has zero age).
pub open spec fn expired(e: TileAsset, now: u64) -> bool {
    now - e.accessed_ns > TILE_ASSET_EVICTION_NS
}

/// First pass: an entry stays if it is fresh or on screen.
pub open spec fn survives_age(now: u64, active: Seq<u64>) -> spec_fn(TileAsset) -> bool {
    |e: TileAsset| !expired(e, now) || active.contains(e.handle)
}

/// Whether `x` comes before `e` in eviction order: used earlier, or used at
/// the same time with a smaller handle id.
pub open spec fn evicted_before(x: TileAsset, e: TileAsset) -> bool {
    x.accessed_ns < e.accessed_ns || (x.accessed_ns == e.accessed_ns && x.handle < e.handle)
}

/// The place of `e` in eviction order among `s`: how many entries come
/// before it.
pub open spec fn eviction_rank(s: Seq<TileAsset>, e: TileAsset) -> nat {
    s.filter(|x: TileAsset| evicted_before(x, e)).len()
}

/// Second pass over `s`, when it holds more than the cap: the entries among
/// the `excess` first in eviction order go, unless they are on screen.
pub open spec fn survives_cap(s: Seq<TileAsset>, excess: nat, active: Seq<u64>) -> spec_fn(TileAsset) -> bool {
    |e: TileAsset| !(eviction_rank(s, e) < excess && !active.contains(e.handle))
}

/// The entries left after eviction at `now`.
pub open spec fn after_eviction(s: Seq<TileAsset>, now: u64, active: Seq<u64>, cap: nat) -> Seq<TileAsset> {
    let s1 = s.filter(survives_age(now, active));
    if s1.len() > cap {
        s1.filter(survives_cap(s1, (s1.len() - cap) as nat, active))
    } else {
        s1
    }
}

fn holds(v: &Vec<u64>, x: u64) -> (r: bool)
    ensures
        r == v@.contains(x),
{
    let mut i: usize = 0;
    while i < v.len()
        invariant
            i <= v@.len(),
            forall|j: int| 0 <= j < i ==> v@[j] != x,
        decreases v@.len() - i,
    {
        if v[i] == x {
            return true;
        }
        i = i + 1;
    }
    false
}

/// How many entries of `s` come before `e` in eviction order.
fn rank_of(s: &Vec<TileAsset>, e: &TileAsset) -> (r: usize)
    ensures
        r == eviction_rank(s@, *e),
{
    let ghost p = |x: TileAsset| evicted_before(x, *e);
    let mut n: usize = 0;
    let mut j: usize = 0;
    while j < s.len()
        invariant
            j <= s@.len(),
            p == (|x: TileAsset| evicted_before(x, *e)),
            n == s@.take(j as int).filter(p).len(),
            n <= j,
        decreases s@.len() - j,
    {
        proof {
            assert(s@.take(j as int).push(s@[j as int]) =~= s@.take(j + 1));
            s@.take(j as int).lemma_filter_push(s@[j as int], p);
        }
        let x = &s[j];
        if x.accessed_ns < e.accessed_ns || (x.accessed_ns == e.accessed_ns && x.handle < e.handle) {
            n = n + 1;
        }
        j = j + 1;
    }
    proof {
        assert(s@.take(j as int) =~= s@);
    }
    n
}

/// Evicts entries at `now`: first those unused for longer than the eviction
/// age, then, while more than `cap` remain, the first ones in eviction order,
/// sparing in both passes every entry whose image is on screen (`active`).
pub fn evict_tile_assets(entries: Vec<TileAsset>, now: u64, active: &Vec<u64>, cap: usize) -> (r: Vec<TileAsset>)
    ensures
        r@ == after_eviction(entries@, now, active@, cap as nat),
{
    let ghost keep1 = survives_age(now, active@);
    let ghost orig = entries@;
    let mut rest = entries;
    let n0 = rest.len();
    let mut first: Vec<TileAsset> = Vec::new();
    let mut i: usize = 0;
    while rest.len() > 0
        invariant
            n0 == orig.len(),
            i + rest@.len() == orig.len(),
            rest@ == orig.skip(i as int),
            keep1 == survives_age(now, active@),
            first@ == orig.take(i as int).filter(keep1),
        decreases rest@.len(),
    {
        let e = rest.remove(0);
        proof {
            assert(orig.take(i as int).push(e) =~= orig.take(i + 1));
            orig.take(i as int).lemma_filter_push(e, keep1);
            assert(rest@ =~= orig.skip(i + 1));
        }
        let fresh = !(now > e.accessed_ns && now - e.accessed_ns > TILE_ASSET_EVICTION_NS);
        if fresh || holds(active, e.handle) {
            first.push(e);
        }
        i = i + 1;
    }
    proof {
        assert(orig.take(i as int) =~= orig);
    }
    if first.len() <= cap {
        return first;
    }
    let excess: usize = first.len() - cap;
    let ghost s1 = first@;
    let ghost keep2 = survives_cap(s1, excess as nat, active@);
    let mut ranks: Vec<usize> = Vec::new();
    let mut k: usize = 0;
    while k < first.len()
        invariant
            k <= first@.len(),
            s1 == first@,
            ranks@.len() == k,
            forall|q: int| 0 <= q < k ==> ranks@[q] == eviction_rank(s1, s1[q]),
        decreases first@.len() - k,
    {
        let rank = rank_of(&first, &first[k]);
        ranks.push(rank);
        k = k + 1;
    }
    let n = first.len();
    let mut out: Vec<TileAsset> = Vec::new();
    let mut k: usize = 0;
    while first.len() > 0
        invariant
            n == s1.len(),
            k + first@.len() == s1.len(),
            first@ == s1.skip(k as int),
            ranks@.len() == s1.len(),
            forall|q: int| 0 <= q < s1.len() ==> ranks@[q] == eviction_rank(s1, s1[q]),
            keep2 == survives_cap(s1, excess as nat, active@),
            out@ == s1.take(k as int).filter(keep2),
        decreases first@.len(),
    {
        let e = first.remove(0);
        proof {
            assert(e == s1[k as int]);
            assert(s1.take(k as int).push(e) =~= s1.take(k + 1));
            s1.take(k as int).lemma_filter_push(e, keep2);
            assert(first@ =~= s1.skip(k + 1));
        }
        let rank = ranks[k];
        if !(rank < excess && !holds(active, e.handle)) {
            out.push(e);
        }
        k = k + 1;
    }
    proof {
        assert(s1.take(k as int) =~= s1);
    }
    out
}

/// Eviction never drops an image that a tile on screen shows, and keeps
/// nothing that was not held before.
pub proof fn lemma_eviction_spares_active(s: Seq<TileAsset>, now: u64, active: Seq<u64>, cap: nat)
    ensures
        forall|i: int|
            0 <= i < s.len() && active.contains(#[trigger] s[i].handle) ==> after_eviction(
                s,
                now,
                active,
                cap,
            ).contains(s[i]),
        forall|e: TileAsset| #[trigger] after_eviction(s, now, active, cap).contains(e) ==> s.contains(e),
{
    let p1 = survives_age(now, active);
    let s1 = s.filter(p1);
    let p2 = survives_cap(s1, (s1.len() - cap) as nat, active);
    assert forall|i: int|
        0 <= i < s.len() && active.contains(#[trigger] s[i].handle) implies after_eviction(
            s,
            now,
            active,
            cap,
        ).contains(s[i]) by {
        s.lemma_filter_contains(p1, i);
        if s1.len() > cap {
            let j = choose|j: int| 0 <= j < s1.len() && s1[j] == s[i];
            s1.lemma_filter_contains(p2, j);
        }
    }
    assert forall|e: TileAsset| #[trigger] after_eviction(s, now, active, cap).contains(e) implies s.contains(
        e,
    ) by {
        if s1.len() > cap {
            s1.lemma_filter_contains_rev(p2, e);
        }
        s.lemma_filter_contains_rev(p1, e);
    }
}

/// Filtering by a weaker predicate keeps at least as many entries, and
/// strictly more when some entry passes only the weaker one.
proof fn lemma_filter_len_mono(s: Seq<TileAsset>, p: spec_fn(TileAsset) -> bool, q: spec_fn(TileAsset) -> bool)
    requires
        forall|i: int| 0 <= i < s.len() && p(s[i]) ==> q(s[i]),
    ensures
        s.filter(p).len() <= s.filter(q).len(),
        (exists|i: int| 0 <= i < s.len() && q(s[i]) && !p(s[i])) ==> s.filter(p).len() < s.filter(q).len(),
    decreases s.len(),
{
    if s.len() > 0 {
        let t = s.drop_last();
        let x = s.last();
        assert forall|i: int| 0 <= i < t.len() && p(t[i]) implies q(t[i]) by {
            assert(t[i] == s[i]);
        }
        lemma_filter_len_mono(t, p, q);
        assert(t.push(x) =~= s);
        t.lemma_filter_push(x, p);
        t.lemma_filter_push(x, q);
        if exists|i: int| 0 <= i < s.len() && q(s[i]) && !p(s[i]) {
            let i = choose|i: int| 0 <= i < s.len() && q(s[i]) && !p(s[i]);
            if i < t.len() {
                assert(t[i] == s[i]);
            }
        }
    }
}

/// An entry of `s` comes before fewer entries of `s` than there are.
proof fn lemma_rank_below_len(s: Seq<TileAsset>, i: int)
    requires
        0 <= i < s.len(),
    ensures
        eviction_rank(s, s[i]) < s.len(),
    decreases s.len(),
{
    let e = s[i];
    let p = |x: TileAsset| evicted_before(x, e);
    let t = s.drop_last();
    assert(t.push(s.last()) =~= s);
    t.lemma_filter_push(s.last(), p);
    t.lemma_filter_len(p);
    if i < t.len() {
        assert(t[i] == s[i]);
        lemma_rank_below_len(t, i);
    }
}

/// An entry earlier in eviction order has a smaller rank.
proof fn lemma_rank_strictly_increasing(s: Seq<TileAsset>, i: int, e: TileAsset)
    requires
        0 <= i < s.len(),
        evicted_before(s[i], e),
    ensures
        eviction_rank(s, s[i]) < eviction_rank(s, e),
{
    let p = |x: TileAsset| evicted_before(x, s[i]);
    let q = |x: TileAsset| evicted_before(x, e);
    lemma_filter_len_mono(s, p, q);
    assert(q(s[i]) && !p(s[i]));
}

/// Keeping some entries keeps their handles distinct.
proof fn lemma_filter_keeps_handles_distinct(s: Seq<TileAsset>, p: spec_fn(TileAsset) -> bool)
    requires
        handles_distinct(s),
    ensures
        handles_distinct(s.filter(p)),
    decreases s.len(),
{
    reveal(Seq::filter);
    if s.len() > 0 {
        let rest = s.drop_last();
        assert(handles_distinct(rest));
        lemma_filter_keeps_handles_distinct(rest, p);
        let fr = rest.filter(p);
        if p(s.last()) {
            assert forall|j: int| 0 <= j < fr.len() implies fr[j].handle != s.last().handle by {
                assert(fr.contains(fr[j]));
                rest.lemma_filter_contains_rev(p, fr[j]);
                let k = choose|k: int| 0 <= k < rest.len() && rest[k] == fr[j];
                assert(s[k] == rest[k]);
            }
            assert(handles_distinct(fr.push(s.last())));
        }
    }
}

/// Among entries with distinct handles, exactly `len - k` have a rank of
/// at least `k`: the ranks are `0 .. len`, each taken once.
proof fn lemma_rank_count(s: Seq<TileAsset>, k: nat)
    requires
        handles_distinct(s),
        k <= s.len(),
    ensures
        s.filter(|e: TileAsset| eviction_rank(s, e) >= k).len() == s.len() - k,
{
    broadcast use vstd::set::group_set_axioms;
    broadcast use vstd::seq_lib::seq_to_set_is_finite;
    let n = s.len();
    let pk = |e: TileAsset| eviction_rank(s, e) >= k;
    let f = |e: TileAsset| eviction_rank(s, e) as int;
    assert(s.no_duplicates()) by {
        assert forall|i: int, j: int| 0 <= i < s.len() && 0 <= j < s.len() && i != j implies s[i] != s[j] by {
            if i < j {
                assert(s[i].handle != s[j].handle);
            } else {
                assert(s[j].handle != s[i].handle);
            }
        }
    }
    let a = s.to_set();
    s.unique_seq_to_set();
    // The rank map is injective on the entries and lands in 0 .. n.
    assert(vstd::relations::injective_on(f, a)) by {
        assert forall|x: TileAsset, y: TileAsset| a.contains(x) && a.contains(y) && #[trigger] f(x) == #[trigger] f(
            y,
        ) implies x == y by {
            let i = choose|i: int| 0 <= i < s.len() && s[i] == x;
            let j = choose|j: int| 0 <= j < s.len() && s[j] == y;
            if i != j {
                if i < j {
                    assert(s[i].handle != s[j].handle);
                } else {
                    assert(s[j].handle != s[i].handle);
                }
                if evicted_before(x, y) {
                    lemma_rank_strictly_increasing(s, i, y);
                } else {
                    assert(evicted_before(y, x));
                    lemma_rank_strictly_increasing(s, j, x);
                }
            }
        }
    }
    let b = a.map(f);
    vstd::set_lib::lemma_map_size(a, b, f);
    vstd::set_lib::lemma_int_range(0, n as int);
    let range = vstd::set_lib::set_int_range(0, n as int);
    assert(b.subset_of(range)) by {
        assert forall|v: int| b.contains(v) implies range.contains(v) by {
            let x = choose|x: TileAsset| a.contains(x) && f(x) == v;
            let i = choose|i: int| 0 <= i < s.len() && s[i] == x;
            lemma_rank_below_len(s, i);
        }
    }
    vstd::set_lib::lemma_subset_equality(b, range);
    // The entries of rank at least k map onto k .. n.
    let ak = a.filter(pk);
    vstd::set_lib::lemma_int_range(k as int, n as int);
    let upper = vstd::set_lib::set_int_range(k as int, n as int);
    assert(ak.map(f) =~= upper) by {
        assert forall|v: int| ak.map(f).contains(v) implies upper.contains(v) by {
            let x = choose|x: TileAsset| ak.contains(x) && f(x) == v;
            assert(b.contains(f(x)));
        }
        assert forall|v: int| upper.contains(v) implies ak.map(f).contains(v) by {
            assert(range.contains(v));
            assert(b.contains(v));
            let x = choose|x: TileAsset| a.contains(x) && f(x) == v;
            assert(ak.contains(x));
        }
    }
    a.lemma_len_filter(pk);
    assert(vstd::relations::injective_on(f, ak));
    vstd::set_lib::lemma_map_size(ak, upper, f);
    // The filtered sequence holds exactly those entries, once each.
    let fs = s.filter(pk);
    assert(fs.to_set() =~= ak) by {
        assert forall|x: TileAsset| fs.to_set().contains(x) implies ak.contains(x) by {
            assert(fs.contains(x));
            s.lemma_filter_contains_rev(pk, x);
        }
        assert forall|x: TileAsset| ak.contains(x) implies fs.to_set().contains(x) by {
            let i = choose|i: int| 0 <= i < s.len() && s[i] == x;
            s.lemma_filter_contains(pk, i);
        }
    }
    lemma_filter_keeps_handles_distinct(s, pk);
    assert(fs.no_duplicates()) by {
        assert forall|i: int, j: int| 0 <= i < fs.len() && 0 <= j < fs.len() && i != j implies fs[i] != fs[j] by {
            if i < j {
                assert(fs[i].handle != fs[j].handle);
            } else {
                assert(fs[j].handle != fs[i].handle);
            }
        }
    }
    fs.unique_seq_to_set();
}

/// With no image on screen, eviction brings a cache of entries with distinct
/// handles down to the cap.
pub proof fn lemma_eviction_meets_cap(s: Seq<TileAsset>, now: u64, cap: nat)
    requires
        handles_distinct(s),
    ensures
        after_eviction(s, now, Seq::empty(), cap).len() <= cap,
{
    let none = Seq::<u64>::empty();
    let s1 = s.filter(survives_age(now, none));
    if s1.len() > cap {
        let excess = (s1.len() - cap) as nat;
        lemma_filter_keeps_handles_distinct(s, survives_age(now, none));
        lemma_rank_count(s1, excess);
        assert(survives_cap(s1, excess, none) =~= (|e: TileAsset| eviction_rank(s1, e) >= excess));
    }
}

} // verus!
