//! The pool of reusable tile entities and the grid of tiles on display.
//! Entities are identified by their 64-bit id (`Entity::to_bits`).

use std::collections::HashSet;
use vstd::prelude::*;

use super::types::ZoomLevel;

verus! {

/// Grid-space position key for deduplication: (tile_x, tile_y, zoom).
pub type TileGridKey = (u32, u32, u8);

/// The entities available after `entity` is released: added at the top of
/// the stack unless it is already there.
pub open spec fn released(available: Seq<u64>, entity: u64) -> Seq<u64> {
    if available.contains(entity) {
        available
    } else {
        available.push(entity)
    }
}

/// Pool of pre-allocated tile entities ready for reuse. A set of the
/// entities in the stack keeps any entity from being available twice, even
/// when it is released twice in one frame.
pub struct TilePool {
    available: Vec<u64>,
    in_pool: HashSet<u64>,
    capacity: usize,
}

/// Without its last element, a sequence without duplicates holds every
/// element but the last.
proof fn lemma_drop_last_to_set(s: Seq<u64>)
    requires
        s.no_duplicates(),
        s.len() > 0,
    ensures
        s.drop_last().to_set() == s.to_set().remove(s.last()),
{
    assert forall|x: u64| s.drop_last().to_set().contains(x) <==> s.to_set().remove(s.last()).contains(x) by {
        if s.drop_last().to_set().contains(x) {
            let i = choose|i: int| 0 <= i < s.drop_last().len() && s.drop_last()[i] == x;
            assert(s[i] == x);
            assert(s.contains(x));
        }
        if s.to_set().remove(s.last()).contains(x) {
            let i = choose|i: int| 0 <= i < s.len() && s[i] == x;
            assert(i != s.len() - 1);
            assert(s.drop_last()[i] == x);
            assert(s.drop_last().contains(x));
        }
    }
    assert(s.drop_last().to_set() =~= s.to_set().remove(s.last()));
}

impl TilePool {
    /// Entities ready for reuse; the last one is handed out first.
    pub closed spec fn available(&self) -> Seq<u64> {
        self.available@
    }

    /// Total entities ever allocated (the pool only grows).
    pub closed spec fn capacity(&self) -> nat {
        self.capacity as nat
    }

    #[verifier::type_invariant]
    spec fn well_formed(&self) -> bool {
        &&& self.available@.no_duplicates()
        &&& self.in_pool@ == self.available@.to_set()
    }

    pub fn new() -> (r: Self)
        ensures
            r.available() == Seq::<u64>::empty(),
            r.capacity() == 0,
    {
        let available: Vec<u64> = Vec::new();
        let in_pool: HashSet<u64> = HashSet::new();
        proof {
            assert(available@.to_set() =~= Set::<u64>::empty());
        }
        TilePool { available, in_pool, capacity: 0 }
    }

    /// Take an entity from the pool. Returns None if pool is empty.
    pub fn take(&mut self) -> (r: Option<u64>)
        ensures
            old(self).available().len() == 0 ==> r.is_none() && final(self).available() == old(
                self,
            ).available(),
            old(self).available().len() > 0 ==> r == Some(old(self).available().last())
                && final(self).available() == old(self).available().drop_last(),
            final(self).capacity() == old(self).capacity(),
            final(self).available().no_duplicates(),
    {
        broadcast use vstd::std_specs::hash::group_hash_axioms;
        proof {
            use_type_invariant(&*self);
        }
        let mut pool = TilePool::new();
        std::mem::swap(self, &mut pool);
        proof {
            use_type_invariant(&pool);
        }
        let TilePool { mut available, mut in_pool, capacity } = pool;
        let ghost before = available@;
        let r = available.pop();
        match r {
            Some(e) => {
                in_pool.remove(&e);
                proof {
                    assert(available@ =~= before.drop_last());
                    lemma_drop_last_to_set(before);
                    assert forall|i: int, j: int| 0 <= i < j < available@.len() implies available@[i]
                        != available@[j] by {
                        assert(available@[i] == before[i] && available@[j] == before[j]);
                    }
                }
            },
            None => {},
        }
        *self = TilePool { available, in_pool, capacity };
        r
    }

    /// Whether `entity` is waiting in the pool.
    pub fn contains(&self, entity: u64) -> (r: bool)
        ensures
            r == self.available().contains(entity),
            self.available().no_duplicates(),
    {
        broadcast use vstd::std_specs::hash::group_hash_axioms;
        proof {
            use_type_invariant(self);
        }
        self.in_pool.contains(&entity)
    }

    /// Return an entity to the pool. Idempotent - silently ignores
    /// duplicates caused by deferred command application.
    pub fn release(&mut self, entity: u64)
        ensures
            final(self).available() == released(old(self).available(), entity),
            final(self).capacity() == old(self).capacity(),
            final(self).available().no_duplicates(),
    {
        broadcast use vstd::std_specs::hash::group_hash_axioms;
        proof {
            use_type_invariant(&*self);
        }
        let mut pool = TilePool::new();
        std::mem::swap(self, &mut pool);
        proof {
            use_type_invariant(&pool);
        }
        let TilePool { mut available, mut in_pool, capacity } = pool;
        let ghost before = available@;
        if in_pool.insert(entity) {
            available.push(entity);
            proof {
                before.lemma_push_to_set_commute(entity);
                assert forall|i: int, j: int| 0 <= i < j < available@.len() implies available@[i]
                    != available@[j] by {
                    if j == before.len() {
                        assert(available@[i] == before[i]);
                        assert(before.contains(before[i]));
                    } else {
                        assert(available@[i] == before[i] && available@[j] == before[j]);
                    }
                }
            }
        } else {
            proof {
                assert(before.to_set().contains(entity));
                assert(in_pool@ =~= before.to_set());
            }
        }
        *self = TilePool { available, in_pool, capacity };
    }

    /// Adds a freshly spawned entity to the pool and counts it in the
    /// capacity.
    pub fn add_spawned(&mut self, entity: u64)
        requires
            old(self).capacity() < usize::MAX,
        ensures
            final(self).available() == released(old(self).available(), entity),
            final(self).capacity() == old(self).capacity() + 1,
            final(self).available().no_duplicates(),
    {
        self.release(entity);
        let mut pool = TilePool::new();
        std::mem::swap(self, &mut pool);
        proof {
            use_type_invariant(&pool);
        }
        let TilePool { available, in_pool, capacity } = pool;
        *self = TilePool { available, in_pool, capacity: capacity + 1 };
    }

    /// Number of entities currently available for reuse (none of them
    /// available twice).
    pub fn available_count(&self) -> (r: usize)
        ensures
            r == self.available().len(),
            self.available().no_duplicates(),
    {
        proof {
            use_type_invariant(self);
        }
        self.available.len()
    }

    /// Total entities ever allocated.
    pub fn total_capacity(&self) -> (r: usize)
        ensures
            r == self.capacity(),
    {
        self.capacity
    }
}

/// Releasing an entity twice leaves the pool as releasing it once, and a
/// released entity is always available.
pub proof fn lemma_release_idempotent(available: Seq<u64>, entity: u64)
    ensures
        released(released(available, entity), entity) == released(available, entity),
        released(available, entity).contains(entity),
{
    if !available.contains(entity) {
        assert(available.push(entity)[available.len() as int] == entity);
    }
}

/// An entity released to the pool is the next one taken from it.
pub proof fn lemma_release_then_take(before: Seq<u64>, entity: u64)
    requires
        !before.contains(entity),
    ensures
        released(before, entity).len() > 0,
        released(before, entity).last() == entity,
        released(before, entity).drop_last() == before,
{
    assert(before.push(entity).drop_last() =~= before);
}

/// No key has two entries.
pub open spec fn grid_keys_distinct(s: Seq<(TileGridKey, u64)>) -> bool {
    forall|i: int, j: int| 0 <= i < j < s.len() ==> s[i].0 != s[j].0
}

/// The entity shown at `key`, if any.
pub open spec fn grid_lookup(s: Seq<(TileGridKey, u64)>, key: TileGridKey) -> Option<u64> {
    if exists|i: int| 0 <= i < s.len() && s[i].0 == key {
        Some(s[choose|i: int| 0 <= i < s.len() && s[i].0 == key].1)
    } else {
        None
    }
}

/// Whether an entry stays when entries of zooms outside `[lo, hi]` go.
pub open spec fn zoom_within(lo: u8, hi: u8) -> spec_fn((TileGridKey, u64)) -> bool {
    |e: (TileGridKey, u64)| lo <= e.0.2 <= hi
}

/// Whether an entry's entity is not in `gone`.
pub open spec fn entity_not_in(gone: Seq<u64>) -> spec_fn((TileGridKey, u64)) -> bool {
    |e: (TileGridKey, u64)| !gone.contains(e.1)
}

/// The entities of a run of entries.
pub open spec fn entities_of(s: Seq<(TileGridKey, u64)>) -> Seq<u64> {
    s.map_values(|e: (TileGridKey, u64)| e.1)
}

/// Maps grid positions to their active tile entity.
pub struct TileGrid {
    occupied: Vec<(TileGridKey, u64)>,
}

impl TileGrid {
    /// The occupied cells with their entities, one entry per cell.
    pub closed spec fn entries(&self) -> Seq<(TileGridKey, u64)> {
        self.occupied@
    }

    #[verifier::type_invariant]
    spec fn well_formed(&self) -> bool {
        grid_keys_distinct(self.occupied@)
    }

    pub fn new() -> (r: Self)
        ensures
            r.entries() == Seq::<(TileGridKey, u64)>::empty(),
    {
        TileGrid { occupied: Vec::new() }
    }

    fn find(&self, key: TileGridKey) -> (r: Option<usize>)
        ensures
            match r {
                Some(i) => i < self.entries().len() && self.entries()[i as int].0 == key,
                None => forall|i: int| 0 <= i < self.entries().len() ==> self.entries()[i].0 != key,
            },
    {
        let mut i: usize = 0;
        while i < self.occupied.len()
            invariant
                i <= self.occupied@.len(),
                forall|j: int| 0 <= j < i ==> self.occupied@[j].0 != key,
            decreases self.occupied@.len() - i,
        {
            let k = self.occupied[i].0;
            if k.0 == key.0 && k.1 == key.1 && k.2 == key.2 {
                return Some(i);
            }
            i = i + 1;
        }
        None
    }

    /// The entity shown at `key`, if any.
    pub fn get(&self, key: TileGridKey) -> (r: Option<u64>)
        ensures
            r == grid_lookup(self.entries(), key),
            grid_keys_distinct(self.entries()),
    {
        proof {
            use_type_invariant(self);
        }
        match self.find(key) {
            Some(i) => {
                proof {
                    let j = choose|j: int| 0 <= j < self.entries().len() && self.entries()[j].0 == key;
                    assert(j == i as int);
                }
                Some(self.occupied[i].1)
            },
            None => None,
        }
    }

    pub fn contains_key(&self, key: TileGridKey) -> (r: bool)
        ensures
            r == grid_lookup(self.entries(), key).is_some(),
    {
        self.find(key).is_some()
    }

    /// Records that `entity` now shows the cell `key`, replacing any entity
    /// recorded there before.
    pub fn insert(&mut self, key: TileGridKey, entity: u64)
        ensures
            forall|k: TileGridKey|
                grid_lookup(final(self).entries(), k) == if k == key {
                    Some(entity)
                } else {
                    grid_lookup(old(self).entries(), k)
                },
    {
        proof {
            use_type_invariant(&*self);
        }
        let found = self.find(key);
        let mut v: Vec<(TileGridKey, u64)> = Vec::new();
        std::mem::swap(&mut v, &mut self.occupied);
        let ghost before = v@;
        match found {
            Some(i) => {
                let mut entry = (key, entity);
                std::mem::swap(&mut entry, &mut v[i]);
                proof {
                    assert(v@ =~= before.update(i as int, (key, entity)));
                    assert(grid_keys_distinct(v@));
                    assert forall|k: TileGridKey|
                        grid_lookup(v@, k) == if k == key {
                            Some(entity)
                        } else {
                            grid_lookup(before, k)
                        } by {
                        if k == key {
                            assert(v@[i as int].0 == k);
                        } else if exists|j: int| 0 <= j < before.len() && before[j].0 == k {
                            let j = choose|j: int| 0 <= j < before.len() && before[j].0 == k;
                            assert(v@[j].0 == k);
                        } else {
                            assert forall|j: int| 0 <= j < v@.len() implies v@[j].0 != k by {
                                if j != i {
                                    assert(v@[j] == before[j]);
                                }
                            }
                        }
                    }
                }
            },
            None => {
                v.push((key, entity));
                proof {
                    assert(grid_keys_distinct(v@));
                    assert forall|k: TileGridKey|
                        grid_lookup(v@, k) == if k == key {
                            Some(entity)
                        } else {
                            grid_lookup(before, k)
                        } by {
                        if k == key {
                            assert(v@[before.len() as int].0 == k);
                        } else if exists|j: int| 0 <= j < before.len() && before[j].0 == k {
                            let j = choose|j: int| 0 <= j < before.len() && before[j].0 == k;
                            assert(v@[j].0 == k);
                        } else {
                            assert forall|j: int| 0 <= j < v@.len() implies v@[j].0 != k by {
                                if j < before.len() {
                                    assert(v@[j] == before[j]);
                                }
                            }
                        }
                    }
                }
            },
        }
        std::mem::swap(&mut v, &mut self.occupied);
    }

    /// Forgets the cell `key` (its tile is retiring).
    pub fn remove(&mut self, key: TileGridKey)
        ensures
            forall|k: TileGridKey|
                grid_lookup(final(self).entries(), k) == if k == key {
                    None
                } else {
                    grid_lookup(old(self).entries(), k)
                },
    {
        proof {
            use_type_invariant(&*self);
        }
        let found = self.find(key);
        match found {
            Some(i) => {
                let mut v: Vec<(TileGridKey, u64)> = Vec::new();
                std::mem::swap(&mut v, &mut self.occupied);
                let ghost before = v@;
                v.remove(i);
                proof {
                    assert(grid_keys_distinct(v@));
                    assert forall|k: TileGridKey|
                        grid_lookup(v@, k) == if k == key {
                            None
                        } else {
                            grid_lookup(before, k)
                        } by {
                        if k == key {
                            assert forall|j: int| 0 <= j < v@.len() implies v@[j].0 != k by {
                                if j < i {
                                    assert(v@[j] == before[j]);
                                } else {
                                    assert(v@[j] == before[j + 1]);
                                }
                            }
                        } else if exists|j: int| 0 <= j < before.len() && before[j].0 == k {
                            let j = choose|j: int| 0 <= j < before.len() && before[j].0 == k;
                            if j < i {
                                assert(v@[j] == before[j]);
                            } else {
                                assert(v@[j - 1] == before[j]);
                            }
                            let jj = choose|jj: int| 0 <= jj < v@.len() && v@[jj].0 == k;
                            if jj < i {
                                assert(v@[jj] == before[jj]);
                            } else {
                                assert(v@[jj] == before[jj + 1]);
                            }
                        } else {
                            assert forall|j: int| 0 <= j < v@.len() implies v@[j].0 != k by {
                                if j < i {
                                    assert(v@[j] == before[j]);
                                } else {
                                    assert(v@[j] == before[j + 1]);
                                }
                            }
                        }
                    }
                }
                std::mem::swap(&mut v, &mut self.occupied);
            },
            None => {},
        }
    }

    /// Forgets every cell.
    pub fn clear(&mut self)
        ensures
            final(self).entries() == Seq::<(TileGridKey, u64)>::empty(),
    {
        let mut v: Vec<(TileGridKey, u64)> = Vec::new();
        std::mem::swap(&mut v, &mut self.occupied);
    }

    /// Number of occupied cells.
    pub fn len(&self) -> (r: usize)
        ensures
            r == self.entries().len(),
            grid_keys_distinct(self.entries()),
    {
        proof {
            use_type_invariant(self);
        }
        self.occupied.len()
    }

    /// Keeps the entries `keep` accepts, in order, and returns the entities
    /// of the others, in order.
    fn retain_entries(&mut self, Ghost(keep): Ghost<spec_fn((TileGridKey, u64)) -> bool>, lo: u8, hi: u8, gone: &Vec<u64>, by_zoom: bool) -> (dropped: Vec<u64>)
        requires
            by_zoom ==> keep == zoom_within(lo, hi),
            !by_zoom ==> keep == entity_not_in(gone@),
        ensures
            final(self).entries() == old(self).entries().filter(keep),
            dropped@ == entities_of(old(self).entries().filter(|e: (TileGridKey, u64)| !keep(e))),
    {
        proof {
            use_type_invariant(&*self);
        }
        let ghost drop = |e: (TileGridKey, u64)| !keep(e);
        let mut old_v: Vec<(TileGridKey, u64)> = Vec::new();
        std::mem::swap(&mut old_v, &mut self.occupied);
        let ghost orig = old_v@;
        let n = old_v.len();
        let mut kept: Vec<(TileGridKey, u64)> = Vec::new();
        let mut dropped: Vec<u64> = Vec::new();
        let mut i: usize = 0;
        proof {
            lemma_grid_filter_keeps_keys_distinct(orig.take(0), keep);
            assert(entities_of(orig.take(0).filter(drop)) =~= Seq::<u64>::empty()) by {
                reveal(Seq::filter);
            }
        }
        while old_v.len() > 0
            invariant
                n == orig.len(),
                i + old_v@.len() == orig.len(),
                old_v@ == orig.skip(i as int),
                kept@ == orig.take(i as int).filter(keep),
                dropped@ == entities_of(orig.take(i as int).filter(drop)),
                grid_keys_distinct(orig),
                grid_keys_distinct(kept@),
                drop == (|e: (TileGridKey, u64)| !keep(e)),
                by_zoom ==> keep == zoom_within(lo, hi),
                !by_zoom ==> keep == entity_not_in(gone@),
            decreases old_v@.len(),
        {
            let e = old_v.remove(0);
            proof {
                let t = orig.take(i as int);
                assert(t.push(e) =~= orig.take(i + 1));
                t.lemma_filter_push(e, keep);
                t.lemma_filter_push(e, drop);
                assert(old_v@ =~= orig.skip(i + 1));
                assert(grid_keys_distinct(orig.take(i + 1)));
                lemma_grid_filter_keeps_keys_distinct(orig.take(i + 1), keep);
            }
            let stays = if by_zoom {
                lo <= e.0.2 && e.0.2 <= hi
            } else {
                !vec_contains(gone, e.1)
            };
            if stays {
                kept.push(e);
            } else {
                let ghost d0 = dropped@;
                dropped.push(e.1);
                proof {
                    let t = orig.take(i as int);
                    assert(entities_of(t.filter(drop).push(e)) =~= d0.push(e.1));
                }
            }
            i = i + 1;
        }
        proof {
            assert(orig.take(i as int) =~= orig);
        }
        std::mem::swap(&mut kept, &mut self.occupied);
        dropped
    }

    /// Forgets every cell shown by one of the `gone` entities (tiles culled
    /// off screen).
    pub fn remove_entities(&mut self, gone: &Vec<u64>)
        ensures
            final(self).entries() == old(self).entries().filter(entity_not_in(gone@)),
    {
        let _ = self.retain_entries(Ghost(entity_not_in(gone@)), 0, 0, gone, false);
    }

    /// Forgets the cells whose zoom is outside `[lo, hi]` and returns their
    /// entities, for release to the pool.
    pub fn release_zooms_outside(&mut self, lo: u8, hi: u8) -> (released: Vec<u64>)
        ensures
            final(self).entries() == old(self).entries().filter(zoom_within(lo, hi)),
            released@ == entities_of(
                old(self).entries().filter(|e: (TileGridKey, u64)| !zoom_within(lo, hi)(e)),
            ),
    {
        let none: Vec<u64> = Vec::new();
        self.retain_entries(Ghost(zoom_within(lo, hi)), lo, hi, &none, true)
    }
}

/// Whether `v` holds `x`.
fn vec_contains(v: &Vec<u64>, x: u64) -> (r: bool)
    ensures
        r == v@.contains(x),
{
    let mut i: usize = 0;
    while i < v.len()
        invariant
            i <= v@.len(),
            forall|j: int| 0 <= j < i ==> v@[j] != x,
        decreases v@.len() - i,
    {
        if v[i] == x {
            return true;
        }
        i = i + 1;
    }
    false
}

/// The zooms whose tiles stay on display: in 3D from five levels below the
/// current zoom (not below 0) to two above; in 2D only the current zoom.
pub open spec fn zoom_band(current: u8, is_3d: bool) -> (u8, u8) {
    if is_3d {
        ((if current >= 5 { current - 5 } else { 0 }) as u8, (current + 2) as u8)
    } else {
        (current, current)
    }
}

/// Releases the tiles of zooms that no longer belong on screen: in 3D those
/// outside the band around the current zoom; in 2D every tile of another
/// zoom, but only once a tile of the current zoom is visible
/// (`has_visible_current`). Returns the entities to return to the pool.
pub fn release_out_of_band_tiles(grid: &mut TileGrid, current: ZoomLevel, is_3d: bool, has_visible_current: bool) -> (released: Vec<u64>)
    ensures
        (is_3d || has_visible_current) ==> {
            let (lo, hi) = zoom_band(current.value(), is_3d);
            &&& final(grid).entries() == old(grid).entries().filter(zoom_within(lo, hi))
            &&& released@ == entities_of(
                old(grid).entries().filter(|e: (TileGridKey, u64)| !zoom_within(lo, hi)(e)),
            )
        },
        !(is_3d || has_visible_current) ==> final(grid).entries() == old(grid).entries()
            && released@ == Seq::<u64>::empty(),
{
    let z = current.to_u8();
    if is_3d {
        let lo = if z >= 5 { z - 5 } else { 0 };
        grid.release_zooms_outside(lo, z + 2)
    } else if has_visible_current {
        grid.release_zooms_outside(z, z)
    } else {
        Vec::new()
    }
}

/// Keeping a subset of the entries keeps one entry per cell.
proof fn lemma_grid_filter_keeps_keys_distinct(s: Seq<(TileGridKey, u64)>, p: spec_fn((TileGridKey, u64)) -> bool)
    requires
        grid_keys_distinct(s),
    ensures
        grid_keys_distinct(s.filter(p)),
    decreases s.len(),
{
    reveal(Seq::filter);
    if s.len() > 0 {
        let rest = s.drop_last();
        assert(grid_keys_distinct(rest));
        lemma_grid_filter_keeps_keys_distinct(rest, p);
        let fr = rest.filter(p);
        if p(s.last()) {
            assert forall|j: int| 0 <= j < fr.len() implies fr[j].0 != s.last().0 by {
                assert(fr.contains(fr[j]));
                rest.lemma_filter_contains_rev(p, fr[j]);
                let k = choose|k: int| 0 <= k < rest.len() && rest[k] == fr[j];
                assert(s[k] == rest[k]);
            }
            assert(grid_keys_distinct(fr.push(s.last())));
        }
    }
}

} // verus!
