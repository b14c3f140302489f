use vstd::prelude::*;

verus! {

/// Distance between neighbouring plant cells, in world units.
pub const PLANT_SPACING: i32 = 3;

/// Number of cells along each side of the window kept around the viewpoint.
pub const WINDOW_CELLS: i32 = 4;

/// Largest snapped cell index accepted, so that every key fits in an `i32`.
pub const MAX_SNAP: i32 = 0x2000_0000;

/// Integer ground coordinate of a plant cell, in world units.
#[derive(Clone, Copy, Debug, PartialEq, Eq, Structural)]
pub struct CellKey {
    pub x: i32,
    pub z: i32,
}

/// One generated plant and the cell it stands in.
pub struct PlantCell<V> {
    pub key: CellKey,
    pub plant: V,
}

/// A sparse set of plant cells around the viewpoint, at most one per key.
pub struct PlantGrid<V> {
    cells: Vec<PlantCell<V>>,
}

/// Half the side of the kept window, in world units.
pub open spec fn half_extent() -> int {
    (WINDOW_CELLS / 2) * PLANT_SPACING
}

pub open spec fn abs_diff(a: int, b: int) -> int {
    if a >= b {
        a - b
    } else {
        b - a
    }
}

/// `k` lies in the square window (boundary included) centred on the snapped
/// point `(PLANT_SPACING * sx, PLANT_SPACING * sz)`.
pub open spec fn in_window(k: CellKey, sx: int, sz: int) -> bool {
    &&& abs_diff(k.x as int, PLANT_SPACING * sx) <= half_extent()
    &&& abs_diff(k.z as int, PLANT_SPACING * sz) <= half_extent()
}

/// The `i`-th of the `WINDOW_CELLS * WINDOW_CELLS` cells that the window
/// fills, row by row along x.
pub open spec fn window_key(sx: int, sz: int, i: int) -> CellKey {
    CellKey {
        x: (PLANT_SPACING * (sx + i / (WINDOW_CELLS as int) - WINDOW_CELLS / 2)) as i32,
        z: (PLANT_SPACING * (sz + i % (WINDOW_CELLS as int) - WINDOW_CELLS / 2)) as i32,
    }
}

pub open spec fn has_key<V>(cells: Seq<PlantCell<V>>, k: CellKey) -> bool {
    exists|i: int| 0 <= i < cells.len() && (#[trigger] cells[i]).key == k
}

pub open spec fn keys_unique<V>(cells: Seq<PlantCell<V>>) -> bool {
    forall|i: int, j: int|
        0 <= i < cells.len() && 0 <= j < cells.len() && i != j ==> (#[trigger] cells[i]).key
            != (#[trigger] cells[j]).key
}

/// The first `n` window cells that `cells` lacks, in window order.
pub open spec fn missing_prefix<V>(cells: Seq<PlantCell<V>>, sx: int, sz: int, n: int) -> Seq<
    CellKey,
>
    decreases n,
{
    if n <= 0 {
        Seq::empty()
    } else if has_key(cells, window_key(sx, sz, n - 1)) {
        missing_prefix(cells, sx, sz, n - 1)
    } else {
        missing_prefix(cells, sx, sz, n - 1).push(window_key(sx, sz, n - 1))
    }
}

/// The window cells that `cells` lacks, in window order.
pub open spec fn missing_keys<V>(cells: Seq<PlantCell<V>>, sx: int, sz: int) -> Seq<CellKey> {
    missing_prefix(cells, sx, sz, WINDOW_CELLS * WINDOW_CELLS)
}

/// What one refresh does: `after` holds exactly the cells of `before` that lie
/// in the window, and `missing` the window cells that `after` lacks.
pub open spec fn refreshed<V>(
    before: Seq<PlantCell<V>>,
    after: Seq<PlantCell<V>>,
    missing: Seq<CellKey>,
    sx: int,
    sz: int,
) -> bool {
    &&& keys_unique(after)
    &&& forall|c: PlantCell<V>| #[trigger] after.contains(c) ==> before.contains(c) && in_window(c.key, sx, sz)
    &&& forall|c: PlantCell<V>| #[trigger] before.contains(c) && in_window(c.key, sx, sz) ==> after.contains(c)
    &&& missing == missing_keys(after, sx, sz)
}

/// Whether some cell of `cells` has key `k`.
pub fn cells_have_key<V>(cells: &Vec<PlantCell<V>>, k: CellKey) -> (r: bool)
    ensures
        r == has_key(cells@, k),
{
    let mut i: usize = 0;
    while i < cells.len()
        invariant
            0 <= i <= cells@.len(),
            forall|j: int| 0 <= j < i ==> (#[trigger] cells@[j]).key != k,
        decreases cells@.len() - i,
    {
        if cells[i].key == k {
            return true;
        }
        i = i + 1;
    }
    false
}

/// Whether `k` lies in the window centred on the snapped cell `(sx, sz)`.
pub fn key_in_window(k: CellKey, sx: i32, sz: i32) -> (r: bool)
    requires
        -MAX_SNAP <= sx <= MAX_SNAP,
        -MAX_SNAP <= sz <= MAX_SNAP,
    ensures
        r == in_window(k, sx as int, sz as int),
{
    let cx = PLANT_SPACING as i64 * sx as i64;
    let cz = PLANT_SPACING as i64 * sz as i64;
    let half = ((WINDOW_CELLS / 2) * PLANT_SPACING) as i64;
    let dx = k.x as i64 - cx;
    let dz = k.z as i64 - cz;
    -half <= dx && dx <= half && -half <= dz && dz <= half
}

impl<V> PlantGrid<V> {
    pub closed spec fn cells_view(&self) -> Seq<PlantCell<V>> {
        self.cells@
    }

    pub open spec fn wf(&self) -> bool {
        keys_unique(self.cells_view())
    }

    /// An empty grid.
    pub fn new() -> (r: Self)
        ensures
            r.wf(),
            r.cells_view() == Seq::<PlantCell<V>>::empty(),
    {
        PlantGrid { cells: Vec::new() }
    }

    pub fn cells(&self) -> (r: &Vec<PlantCell<V>>)
        ensures
            r@ == self.cells_view(),
    {
        &self.cells
    }

    pub fn len(&self) -> (r: usize)
        ensures
            r == self.cells_view().len(),
    {
        self.cells.len()
    }

    pub fn contains_key(&self, k: CellKey) -> (r: bool)
        ensures
            r == has_key(self.cells_view(), k),
    {
        cells_have_key(&self.cells, k)
    }

    /// Adds a plant for `key` unless the key already has one; returns whether
    /// it was added.
    pub fn insert(&mut self, key: CellKey, plant: V) -> (r: bool)
        requires
            old(self).wf(),
        ensures
            final(self).wf(),
            r == !has_key(old(self).cells_view(), key),
            r ==> final(self).cells_view() == old(self).cells_view().push(PlantCell { key, plant }),
            !r ==> final(self).cells_view() == old(self).cells_view(),
    {
        if cells_have_key(&self.cells, key) {
            false
        } else {
            let ghost before = self.cells@;
            self.cells.push(PlantCell { key, plant });
            assert forall|i: int, j: int|
                0 <= i < self.cells@.len() && 0 <= j < self.cells@.len() && i != j implies (
            #[trigger] self.cells@[i]).key != (#[trigger] self.cells@[j]).key by {
                if i == before.len() {
                    assert(self.cells@[j] == before[j]);
                } else if j == before.len() {
                    assert(self.cells@[i] == before[i]);
                }
            }
            true
        }
    }

    /// Drops every cell outside the window centred on the snapped cell
    /// `(sx, sz)` and returns the window cells that still need a plant, in
    /// window order.
    pub fn refresh(&mut self, sx: i32, sz: i32) -> (r: Vec<CellKey>)
        requires
            old(self).wf(),
            -MAX_SNAP <= sx <= MAX_SNAP,
            -MAX_SNAP <= sz <= MAX_SNAP,
        ensures
            final(self).wf(),
            refreshed(old(self).cells_view(), final(self).cells_view(), r@, sx as int, sz as int),
    {
        let ghost orig = self.cells@;
        let mut i: usize = 0;
        while i < self.cells.len()
            invariant
                0 <= i <= self.cells@.len(),
                -MAX_SNAP <= sx <= MAX_SNAP,
                -MAX_SNAP <= sz <= MAX_SNAP,
                keys_unique(self.cells@),
                forall|j: int| 0 <= j < i ==> in_window((#[trigger] self.cells@[j]).key, sx as int, sz as int),
                forall|c: PlantCell<V>| #[trigger] self.cells@.contains(c) ==> orig.contains(c),
                forall|c: PlantCell<V>|
                    #[trigger] orig.contains(c) && in_window(c.key, sx as int, sz as int)
                        ==> self.cells@.contains(c),
            decreases self.cells@.len() - i,
        {
            if key_in_window(self.cells[i].key, sx, sz) {
                i = i + 1;
            } else {
                let ghost before = self.cells@;
                let _gone = self.cells.remove(i);
                proof {
                    let after = self.cells@;
                    assert forall|j: int| 0 <= j < after.len() implies #[trigger] after[j] == before[
                        if j < i {
                            j
                        } else {
                            j + 1
                        }] by {}
                    assert forall|c: PlantCell<V>| #[trigger] after.contains(c) implies orig.contains(c) by {
                        let j = choose|j: int| 0 <= j < after.len() && after[j] == c;
                        let k = if j < i { j } else { j + 1 };
                        assert(before[k] == c);
                        assert(before.contains(c));
                    }
                    assert forall|c: PlantCell<V>|
                        #[trigger] orig.contains(c) && in_window(c.key, sx as int, sz as int) implies after.contains(c) by {
                        assert(before.contains(c));
                        let k = choose|k: int| 0 <= k < before.len() && before[k] == c;
                        assert(k != i);
                        let j = if k < i { k } else { k - 1 };
                        assert(after[j] == c);
                    }
                    assert forall|a: int, b: int|
                        0 <= a < after.len() && 0 <= b < after.len() && a != b implies (
                    #[trigger] after[a]).key != (#[trigger] after[b]).key by {
                        let a1 = if a < i { a } else { a + 1 };
                        let b1 = if b < i { b } else { b + 1 };
                        assert(before[a1] == after[a] && before[b1] == after[b]);
                    }
                }
            }
        }
        let ghost kept = self.cells@;
        let mut missing: Vec<CellKey> = Vec::new();
        let mut n: i32 = 0;
        while n < WINDOW_CELLS * WINDOW_CELLS
            invariant
                0 <= n <= WINDOW_CELLS * WINDOW_CELLS,
                -MAX_SNAP <= sx <= MAX_SNAP,
                -MAX_SNAP <= sz <= MAX_SNAP,
                self.cells@ == kept,
                missing@ == missing_prefix(kept, sx as int, sz as int, n as int),
            decreases WINDOW_CELLS * WINDOW_CELLS - n,
        {
            let k = CellKey {
                x: PLANT_SPACING * (sx + n / WINDOW_CELLS - WINDOW_CELLS / 2),
                z: PLANT_SPACING * (sz + n % WINDOW_CELLS - WINDOW_CELLS / 2),
            };
            assert(k == window_key(sx as int, sz as int, n as int));
            if !cells_have_key(&self.cells, k) {
                missing.push(k);
            }
            n = n + 1;
        }
        missing
    }
}

proof fn lemma_window_key_in_window(sx: int, sz: int, i: int)
    requires
        -MAX_SNAP <= sx <= MAX_SNAP,
        -MAX_SNAP <= sz <= MAX_SNAP,
        0 <= i < WINDOW_CELLS * WINDOW_CELLS,
    ensures
        in_window(window_key(sx, sz, i), sx, sz),
{
    assert(0 <= i / 4 <= 3);
    assert(0 <= i % 4 <= 3);
}

proof fn lemma_missing_in_window<V>(cells: Seq<PlantCell<V>>, sx: int, sz: int, n: int)
    requires
        -MAX_SNAP <= sx <= MAX_SNAP,
        -MAX_SNAP <= sz <= MAX_SNAP,
        n <= WINDOW_CELLS * WINDOW_CELLS,
    ensures
        forall|k: CellKey| #[trigger] missing_prefix(cells, sx, sz, n).contains(k) ==> in_window(k, sx, sz),
    decreases n,
{
    if n > 0 {
        lemma_missing_in_window(cells, sx, sz, n - 1);
        lemma_window_key_in_window(sx, sz, n - 1);
        let prev = missing_prefix(cells, sx, sz, n - 1);
        assert forall|k: CellKey| #[trigger] missing_prefix(cells, sx, sz, n).contains(k) implies in_window(k, sx, sz) by {
            if !has_key(cells, window_key(sx, sz, n - 1)) {
                let s = prev.push(window_key(sx, sz, n - 1));
                let j = choose|j: int| 0 <= j < s.len() && s[j] == k;
                if j < prev.len() {
                    assert(prev[j] == k);
                    assert(prev.contains(k));
                }
            }
        }
    }
}

/// After a refresh centred on the snapped cell `(sx, sz)`, followed by plants
/// added for keys that the refresh reported missing, every cell lies in the
/// window (boundary included), and no cell of the earlier grid that lay
/// outside the window keeps its key.
pub proof fn lemma_refresh_keeps_window<V>(
    before: Seq<PlantCell<V>>,
    after: Seq<PlantCell<V>>,
    missing: Seq<CellKey>,
    added: Seq<PlantCell<V>>,
    sx: int,
    sz: int,
)
    requires
        -MAX_SNAP <= sx <= MAX_SNAP,
        -MAX_SNAP <= sz <= MAX_SNAP,
        refreshed(before, after, missing, sx, sz),
        forall|c: PlantCell<V>| #[trigger] added.contains(c) ==> missing.contains(c.key),
    ensures
        forall|c: PlantCell<V>| #[trigger] (after + added).contains(c) ==> in_window(c.key, sx, sz),
        forall|c: PlantCell<V>|
            #[trigger] before.contains(c) && !in_window(c.key, sx, sz) ==> !has_key(after + added, c.key),
{
    lemma_missing_in_window(after, sx, sz, WINDOW_CELLS * WINDOW_CELLS);
    let all = after + added;
    assert forall|c: PlantCell<V>| #[trigger] all.contains(c) implies in_window(c.key, sx, sz) by {
        let j = choose|j: int| 0 <= j < all.len() && all[j] == c;
        if j < after.len() {
            assert(after[j] == c);
            assert(after.contains(c));
        } else {
            assert(added[j - after.len()] == c);
            assert(added.contains(c));
            assert(missing.contains(c.key));
        }
    }
    assert forall|c: PlantCell<V>|
        #[trigger] before.contains(c) && !in_window(c.key, sx, sz) implies !has_key(all, c.key) by {
        if has_key(all, c.key) {
            let j = choose|j: int| 0 <= j < all.len() && (#[trigger] all[j]).key == c.key;
            assert(all.contains(all[j]));
        }
    }
}

} // verus!
