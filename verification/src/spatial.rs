//! Spatial hash grid for range queries: ids are filed under integer grid
//! cells, and a query collects the ids of every cell in a square around a
//! centre cell.

use vstd::prelude::*;
use std::collections::HashMap;

verus! {

/// Offset that makes a cell's row non-negative inside its key.
const ROW_OFFSET: i64 = 2147483648;

/// The key under which cell `(x, y)` is stored: distinct cells get distinct
/// keys.
pub open spec fn cell_key(x: i32, y: i32) -> int {
    x * 4294967296 + (y + 2147483648)
}

proof fn lemma_cell_key_injective(x1: i32, y1: i32, x2: i32, y2: i32)
    requires
        cell_key(x1, y1) == cell_key(x2, y2),
    ensures
        x1 == x2 && y1 == y2,
{
    if x1 < x2 {
        assert(x1 * 4294967296 + 4294967296 <= x2 * 4294967296);
    } else if x2 < x1 {
        assert(x2 * 4294967296 + 4294967296 <= x1 * 4294967296);
    }
}

fn key_of(x: i32, y: i32) -> (k: i64)
    ensures
        k == cell_key(x, y),
{
    (x as i64) * 4294967296 + (y as i64 + ROW_OFFSET)
}

/// Spatial hash grid: the ids filed under each cell, in insertion order.
pub struct SpatialGrid {
    cells: HashMap<i64, Vec<u64>>,
    entity_cells: HashMap<u64, (i32, i32)>,
}

impl SpatialGrid {
    /// The ids filed under cell `(x, y)`, in insertion order.
    pub closed spec fn cell(&self, x: i32, y: i32) -> Seq<u64> {
        let k = cell_key(x, y) as i64;
        if self.cells@.contains_key(k) {
            self.cells@[k]@
        } else {
            Seq::empty()
        }
    }

    /// Whether cell `(x, y)` has storage of its own: it does once an id
    /// was filed under it, and keeps it, emptied, across [`SpatialGrid::clear`].
    pub closed spec fn has_storage(&self, x: i32, y: i32) -> bool {
        self.cells@.contains_key(cell_key(x, y) as i64)
    }

    /// The cell each entity was last filed under since the last clear.
    pub closed spec fn entity_cells(&self) -> Map<u64, (i32, i32)> {
        self.entity_cells@
    }

    /// The ids of column `x`, rows `ylo` up to `yhi`, row by row.
    pub open spec fn column_ids(&self, x: int, ylo: int, yhi: int) -> Seq<u64>
        decreases yhi - ylo + 1,
    {
        if yhi < ylo {
            Seq::empty()
        } else {
            self.column_ids(x, ylo, yhi - 1) + self.cell(x as i32, yhi as i32)
        }
    }

    /// The ids of columns `xlo` up to `xhi`, rows `ylo` up to `yhi`, column
    /// by column.
    pub open spec fn block_ids(&self, xlo: int, xhi: int, ylo: int, yhi: int) -> Seq<u64>
        decreases xhi - xlo + 1,
    {
        if xhi < xlo {
            Seq::empty()
        } else {
            self.block_ids(xlo, xhi - 1, ylo, yhi) + self.column_ids(xhi, ylo, yhi)
        }
    }

    /// An empty grid.
    pub fn new() -> (g: Self)
        ensures
            forall|x: i32, y: i32| #[trigger] g.cell(x, y) == Seq::<u64>::empty(),
            forall|x: i32, y: i32| !#[trigger] g.has_storage(x, y),
            g.entity_cells() == Map::<u64, (i32, i32)>::empty(),
    {
        SpatialGrid { cells: HashMap::new(), entity_cells: HashMap::new() }
    }

    /// Empty every cell. Each cell that has storage keeps it, emptied, for
    /// reuse; the record of entity cells is emptied too.
    pub fn clear(&mut self)
        ensures
            forall|x: i32, y: i32| #[trigger] final(self).cell(x, y) == Seq::<u64>::empty(),
            forall|x: i32, y: i32|
                #[trigger] final(self).has_storage(x, y) == old(self).has_storage(x, y),
            final(self).entity_cells() == Map::<u64, (i32, i32)>::empty(),
    {
        let mut keys: Vec<i64> = Vec::new();
        let ghost n = self.cells@.dom().len();
        for k in it: self.cells.keys()
            invariant
                it.seq().len() == n,
                it.seq().unref().to_set() == self.cells@.dom(),
                keys@ == it.seq().unref().take(it.index()),
                keys@.len() == n ==> keys@.to_set() == self.cells@.dom(),
        {
            keys.push(*k);
            proof {
                assert(keys@ =~= it.seq().unref().take(it.index() + 1));
                if keys@.len() == n {
                    assert(it.seq().unref().take(it.index() + 1) =~= it.seq().unref());
                }
            }
        }
        assert(keys@.len() == n);
        let ghost dom0 = self.cells@.dom();
        assert(keys@.to_set() == dom0);
        let mut i: usize = 0;
        while i < keys.len()
            invariant
                i <= keys@.len(),
                keys@.to_set() == dom0,
                self.cells@.dom() == dom0,
                forall|j: int| 0 <= j < i ==> (#[trigger] self.cells@[keys@[j]])@ == Seq::<u64>::empty(),
            decreases keys@.len() - i,
        {
            let k = keys[i];
            assert(keys@.to_set().contains(k));
            let ghost before = self.cells@;
            match self.cells.remove(&k) {
                Some(mut ids) => {
                    ids.clear();
                    self.cells.insert(k, ids);
                },
                None => {},
            }
            proof {
                assert(self.cells@.dom() =~= dom0);
                assert forall|j: int| 0 <= j < i + 1 implies (#[trigger] self.cells@[keys@[j]])@ == Seq::<u64>::empty() by {
                    if keys@[j] != k {
                        assert(self.cells@[keys@[j]] == before[keys@[j]]);
                    }
                }
            }
            i += 1;
        }
        proof {
            assert forall|key: i64| self.cells@.contains_key(key) implies (#[trigger] self.cells@[key])@ == Seq::<u64>::empty() by {
                assert(keys@.to_set().contains(key));
                let j = choose|j: int| 0 <= j < keys@.len() && keys@[j] == key;
                assert(self.cells@[keys@[j]]@ == Seq::<u64>::empty());
            }
        }
        self.entity_cells.clear();
    }

    /// File `id` under `cell`, after the ids already there, and record
    /// `cell` as the entity's cell.
    pub fn insert(&mut self, id: u64, cell: (i32, i32))
        ensures
            final(self).cell(cell.0, cell.1) == old(self).cell(cell.0, cell.1).push(id),
            forall|x: i32, y: i32|
                (x, y) != cell ==> #[trigger] final(self).cell(x, y) == old(self).cell(x, y),
            final(self).has_storage(cell.0, cell.1),
            forall|x: i32, y: i32|
                (x, y) != cell ==> #[trigger] final(self).has_storage(x, y) == old(self).has_storage(x, y),
            final(self).entity_cells() == old(self).entity_cells().insert(id, cell),
    {
        let k = key_of(cell.0, cell.1);
        let mut ids = match self.cells.remove(&k) {
            Some(v) => v,
            None => Vec::new(),
        };
        ids.push(id);
        self.cells.insert(k, ids);
        self.entity_cells.insert(id, cell);
        proof {
            assert forall|x: i32, y: i32| (x, y) != cell implies #[trigger] self.cell(x, y) == old(
                self,
            ).cell(x, y) && self.has_storage(x, y) == old(self).has_storage(x, y) by {
                if cell_key(x, y) == cell_key(cell.0, cell.1) {
                    lemma_cell_key_injective(x, y, cell.0, cell.1);
                }
            }
        }
    }

    /// The cell entity `id` was last filed under since the last clear.
    pub fn entity_cell(&self, id: u64) -> (r: Option<(i32, i32)>)
        ensures
            r == (if self.entity_cells().contains_key(id) {
                Some(self.entity_cells()[id])
            } else {
                None
            }),
    {
        match self.entity_cells.get(&id) {
            Some(c) => Some(*c),
            None => None,
        }
    }

    /// Whether `cell` has storage of its own (see [`SpatialGrid::has_storage`]).
    pub fn cell_has_storage(&self, cell: (i32, i32)) -> (b: bool)
        ensures
            b == self.has_storage(cell.0, cell.1),
    {
        self.cells.contains_key(&key_of(cell.0, cell.1))
    }

    /// The ids filed under every cell within `reach` of `center` on both
    /// axes: column by column from the left, row by row from the bottom,
    /// each cell's ids in insertion order. Each insertion into such a cell
    /// gives one entry and nothing else is returned.
    pub fn query_cells(&self, center: (i32, i32), reach: i32) -> (r: Vec<u64>)
        requires
            reach >= 0,
            center.0 - reach >= i32::MIN,
            center.0 + reach <= i32::MAX,
            center.1 - reach >= i32::MIN,
            center.1 + reach <= i32::MAX,
        ensures
            r@ == self.block_ids(
                center.0 - reach,
                center.0 + reach,
                center.1 - reach,
                center.1 + reach,
            ),
    {
        let xlo = center.0 - reach;
        let xhi = center.0 + reach;
        let ylo = center.1 - reach;
        let yhi = center.1 + reach;
        let mut result: Vec<u64> = Vec::new();
        let mut x: i64 = xlo as i64;
        while x <= xhi as i64
            invariant
                xlo <= x <= xhi + 1,
                xlo <= xhi,
                ylo <= yhi,
                result@ == self.block_ids(xlo as int, x - 1, ylo as int, yhi as int),
            decreases xhi + 1 - x,
        {
            let mut y: i64 = ylo as i64;
            while y <= yhi as i64
                invariant
                    xlo <= x <= xhi,
                    ylo <= y <= yhi + 1,
                    xlo <= xhi,
                    ylo <= yhi,
                    result@ == self.block_ids(xlo as int, x - 1, ylo as int, yhi as int)
                        + self.column_ids(x as int, ylo as int, y - 1),
                decreases yhi + 1 - y,
            {
                let ghost before = result@;
                let k = key_of(x as i32, y as i32);
                match self.cells.get(&k) {
                    Some(ids) => {
                        let mut i: usize = 0;
                        while i < ids.len()
                            invariant
                                i <= ids@.len(),
                                result@ == before + ids@.subrange(0, i as int),
                            decreases ids@.len() - i,
                        {
                            result.push(ids[i]);
                            proof {
                                assert(ids@.subrange(0, i + 1) =~= ids@.subrange(0, i as int).push(
                                    ids@[i as int],
                                ));
                            }
                            i += 1;
                        }
                        proof {
                            assert(ids@.subrange(0, ids@.len() as int) =~= ids@);
                        }
                    },
                    None => {},
                }
                proof {
                    assert(result@ =~= before + self.cell(x as i32, y as i32));
                    assert(result@ =~= self.block_ids(xlo as int, x - 1, ylo as int, yhi as int)
                        + self.column_ids(x as int, ylo as int, y as int));
                }
                y += 1;
            }
            proof {
                assert(result@ =~= self.block_ids(xlo as int, x as int, ylo as int, yhi as int));
            }
            x += 1;
        }
        result
    }
}

/// A query sees every id filed under a cell in its square: if `id` is filed
/// under `(x, y)` and that cell lies within the square, the query's ids
/// contain `id`.
pub proof fn lemma_query_sees_cell(g: SpatialGrid, xlo: int, xhi: int, ylo: int, yhi: int, x: i32, y: i32, id: u64)
    requires
        xlo <= x <= xhi,
        ylo <= y <= yhi,
        g.cell(x, y).contains(id),
    ensures
        g.block_ids(xlo, xhi, ylo, yhi).contains(id),
    decreases xhi - xlo,
{
    if xhi > x {
        lemma_query_sees_cell(g, xlo, xhi - 1, ylo, yhi, x, y, id);
        let j = choose|j: int| 0 <= j < g.block_ids(xlo, xhi - 1, ylo, yhi).len()
            && #[trigger] g.block_ids(xlo, xhi - 1, ylo, yhi)[j] == id;
        assert(g.block_ids(xlo, xhi, ylo, yhi)[j] == id);
    } else {
        lemma_column_sees_cell(g, x as int, ylo, yhi, y, id);
        let left = g.block_ids(xlo, xhi - 1, ylo, yhi);
        let j = choose|j: int| 0 <= j < g.column_ids(x as int, ylo, yhi).len()
            && #[trigger] g.column_ids(x as int, ylo, yhi)[j] == id;
        assert(g.block_ids(xlo, xhi, ylo, yhi)[left.len() + j] == id);
    }
}

proof fn lemma_column_sees_cell(g: SpatialGrid, x: int, ylo: int, yhi: int, y: i32, id: u64)
    requires
        ylo <= y <= yhi,
        x == x as i32,
        g.cell(x as i32, y).contains(id),
    ensures
        g.column_ids(x, ylo, yhi).contains(id),
    decreases yhi - ylo,
{
    if yhi > y {
        lemma_column_sees_cell(g, x, ylo, yhi - 1, y, id);
        let j = choose|j: int| 0 <= j < g.column_ids(x, ylo, yhi - 1).len()
            && #[trigger] g.column_ids(x, ylo, yhi - 1)[j] == id;
        assert(g.column_ids(x, ylo, yhi)[j] == id);
    } else {
        let below = g.column_ids(x, ylo, yhi - 1);
        let j = choose|j: int| 0 <= j < g.cell(x as i32, y).len() && #[trigger] g.cell(x as i32, y)[j] == id;
        assert(g.column_ids(x, ylo, yhi)[below.len() + j] == id);
    }
}

/// A query returns nothing but ids filed under cells of its square.
pub proof fn lemma_query_only_cells(g: SpatialGrid, xlo: int, xhi: int, ylo: int, yhi: int, id: u64)
    requires
        xlo >= i32::MIN,
        xhi <= i32::MAX,
        ylo >= i32::MIN,
        yhi <= i32::MAX,
        g.block_ids(xlo, xhi, ylo, yhi).contains(id),
    ensures
        exists|x: i32, y: i32|
            xlo <= x <= xhi && ylo <= y <= yhi && #[trigger] g.cell(x, y).contains(id),
    decreases xhi - xlo,
{
    let left = g.block_ids(xlo, xhi - 1, ylo, yhi);
    let col = g.column_ids(xhi, ylo, yhi);
    let j = choose|j: int| 0 <= j < g.block_ids(xlo, xhi, ylo, yhi).len()
        && #[trigger] g.block_ids(xlo, xhi, ylo, yhi)[j] == id;
    if xhi >= xlo {
        if j < left.len() {
            assert(left[j] == id);
            lemma_query_only_cells(g, xlo, xhi - 1, ylo, yhi, id);
        } else {
            assert(col[j - left.len()] == id);
            lemma_column_only_cells(g, xhi, ylo, yhi, id);
        }
    }
}

proof fn lemma_column_only_cells(g: SpatialGrid, x: int, ylo: int, yhi: int, id: u64)
    requires
        i32::MIN <= x <= i32::MAX,
        ylo >= i32::MIN,
        yhi <= i32::MAX,
        g.column_ids(x, ylo, yhi).contains(id),
    ensures
        exists|y: i32| ylo <= y <= yhi && #[trigger] g.cell(x as i32, y).contains(id),
    decreases yhi - ylo,
{
    let below = g.column_ids(x, ylo, yhi - 1);
    let c = g.cell(x as i32, yhi as i32);
    let j = choose|j: int| 0 <= j < g.column_ids(x, ylo, yhi).len()
        && #[trigger] g.column_ids(x, ylo, yhi)[j] == id;
    if yhi >= ylo {
        if j < below.len() {
            assert(below[j] == id);
            lemma_column_only_cells(g, x, ylo, yhi - 1, id);
        } else {
            assert(c[j - below.len()] == id);
            assert(g.cell(x as i32, yhi as i32).contains(id));
        }
    }
}

/// An insertion: the id and the cell it is filed under.
pub type Insertion = (u64, (i32, i32));

/// The ids that a history of insertions files under cell `(x, y)`, in order.
pub open spec fn filed(h: Seq<Insertion>, x: i32, y: i32) -> Seq<u64>
    decreases h.len(),
{
    if h.len() == 0 {
        Seq::empty()
    } else {
        let r = filed(h.drop_last(), x, y);
        if h.last().1 == (x, y) {
            r.push(h.last().0)
        } else {
            r
        }
    }
}

/// The grid holds what the history filed: every cell holds the ids of the
/// history's insertions into it, in order.
pub open spec fn built_by(g: SpatialGrid, h: Seq<Insertion>) -> bool {
    forall|x: i32, y: i32| #[trigger] g.cell(x, y) == filed(h, x, y)
}

/// Occurrences of `id` in `s`.
pub open spec fn count_id(s: Seq<u64>, id: u64) -> nat
    decreases s.len(),
{
    if s.len() == 0 {
        0
    } else {
        count_id(s.drop_last(), id) + if s.last() == id {
            1nat
        } else {
            0nat
        }
    }
}

/// The insertions of `id` in the history whose cell lies in the square.
pub open spec fn count_inserts(h: Seq<Insertion>, id: u64, xlo: int, xhi: int, ylo: int, yhi: int) -> nat
    decreases h.len(),
{
    if h.len() == 0 {
        0
    } else {
        let e = h.last();
        count_inserts(h.drop_last(), id, xlo, xhi, ylo, yhi) + if e.0 == id && xlo <= e.1.0 <= xhi
            && ylo <= e.1.1 <= yhi {
            1nat
        } else {
            0nat
        }
    }
}

/// A fresh or cleared grid holds what the empty history filed.
pub proof fn lemma_empty_grid_built(g: SpatialGrid)
    requires
        forall|x: i32, y: i32| #[trigger] g.cell(x, y) == Seq::<u64>::empty(),
    ensures
        built_by(g, Seq::empty()),
{
    assert forall|x: i32, y: i32| #[trigger] g.cell(x, y) == filed(Seq::empty(), x, y) by {}
}

/// An insertion extends the history that the grid holds.
pub proof fn lemma_insert_extends(g0: SpatialGrid, g1: SpatialGrid, h: Seq<Insertion>, id: u64, c: (i32, i32))
    requires
        built_by(g0, h),
        g1.cell(c.0, c.1) == g0.cell(c.0, c.1).push(id),
        forall|x: i32, y: i32| (x, y) != c ==> #[trigger] g1.cell(x, y) == g0.cell(x, y),
    ensures
        built_by(g1, h.push((id, c))),
{
    let h2 = h.push((id, c));
    assert(h2.drop_last() =~= h);
    assert forall|x: i32, y: i32| #[trigger] g1.cell(x, y) == filed(h2, x, y) by {
        assert(g0.cell(x, y) == filed(h, x, y));
    }
}

proof fn lemma_count_concat(a: Seq<u64>, b: Seq<u64>, id: u64)
    ensures
        count_id(a + b, id) == count_id(a, id) + count_id(b, id),
    decreases b.len(),
{
    if b.len() == 0 {
        assert(a + b =~= a);
    } else {
        lemma_count_concat(a, b.drop_last(), id);
        assert((a + b).drop_last() =~= a + b.drop_last());
    }
}

/// Per-cell counts of `id` in what the history filed, summed over column
/// `x`, rows `ylo` up to `yhi`.
spec fn hist_column(h: Seq<Insertion>, id: u64, x: int, ylo: int, yhi: int) -> nat
    decreases yhi - ylo + 1,
{
    if yhi < ylo {
        0
    } else {
        hist_column(h, id, x, ylo, yhi - 1) + count_id(filed(h, x as i32, yhi as i32), id)
    }
}

spec fn hist_block(h: Seq<Insertion>, id: u64, xlo: int, xhi: int, ylo: int, yhi: int) -> nat
    decreases xhi - xlo + 1,
{
    if xhi < xlo {
        0
    } else {
        hist_block(h, id, xlo, xhi - 1, ylo, yhi) + hist_column(h, id, xhi, ylo, yhi)
    }
}

proof fn lemma_column_count(g: SpatialGrid, h: Seq<Insertion>, id: u64, x: int, ylo: int, yhi: int)
    requires
        built_by(g, h),
    ensures
        count_id(g.column_ids(x, ylo, yhi), id) == hist_column(h, id, x, ylo, yhi),
    decreases yhi - ylo + 1,
{
    if yhi >= ylo {
        lemma_column_count(g, h, id, x, ylo, yhi - 1);
        lemma_count_concat(g.column_ids(x, ylo, yhi - 1), g.cell(x as i32, yhi as i32), id);
        assert(g.cell(x as i32, yhi as i32) == filed(h, x as i32, yhi as i32));
    }
}

proof fn lemma_block_count(g: SpatialGrid, h: Seq<Insertion>, id: u64, xlo: int, xhi: int, ylo: int, yhi: int)
    requires
        built_by(g, h),
    ensures
        count_id(g.block_ids(xlo, xhi, ylo, yhi), id) == hist_block(h, id, xlo, xhi, ylo, yhi),
    decreases xhi - xlo + 1,
{
    if xhi >= xlo {
        lemma_block_count(g, h, id, xlo, xhi - 1, ylo, yhi);
        lemma_column_count(g, h, id, xhi, ylo, yhi);
        lemma_count_concat(g.block_ids(xlo, xhi - 1, ylo, yhi), g.column_ids(xhi, ylo, yhi), id);
    }
}

/// Whether the last insertion of a non-empty history is of `id` into cell
/// `(x, y)`, as a count.
spec fn last_hit(h: Seq<Insertion>, id: u64, x: int, y: int) -> nat {
    if h.last().0 == id && h.last().1.0 == x && h.last().1.1 == y {
        1
    } else {
        0
    }
}

proof fn lemma_cell_step(h: Seq<Insertion>, id: u64, x: int, y: int)
    requires
        h.len() > 0,
        i32::MIN <= x <= i32::MAX,
        i32::MIN <= y <= i32::MAX,
    ensures
        count_id(filed(h, x as i32, y as i32), id) == count_id(filed(h.drop_last(), x as i32, y as i32), id)
            + last_hit(h, id, x, y),
{
    let r = filed(h.drop_last(), x as i32, y as i32);
    if h.last().1 == (x as i32, y as i32) {
        assert(r.push(h.last().0).drop_last() =~= r);
    }
}

proof fn lemma_column_step(h: Seq<Insertion>, id: u64, x: int, ylo: int, yhi: int)
    requires
        h.len() > 0,
        i32::MIN <= x <= i32::MAX,
        ylo >= i32::MIN,
        yhi <= i32::MAX,
    ensures
        hist_column(h, id, x, ylo, yhi) == hist_column(h.drop_last(), id, x, ylo, yhi) + if h.last().0
            == id && h.last().1.0 == x && ylo <= h.last().1.1 <= yhi {
            1nat
        } else {
            0nat
        },
    decreases yhi - ylo + 1,
{
    if yhi >= ylo {
        lemma_column_step(h, id, x, ylo, yhi - 1);
        lemma_cell_step(h, id, x, yhi);
    }
}

proof fn lemma_block_step(h: Seq<Insertion>, id: u64, xlo: int, xhi: int, ylo: int, yhi: int)
    requires
        h.len() > 0,
        xlo >= i32::MIN,
        xhi <= i32::MAX,
        ylo >= i32::MIN,
        yhi <= i32::MAX,
    ensures
        hist_block(h, id, xlo, xhi, ylo, yhi) == hist_block(h.drop_last(), id, xlo, xhi, ylo, yhi)
            + if h.last().0 == id && xlo <= h.last().1.0 <= xhi && ylo <= h.last().1.1 <= yhi {
            1nat
        } else {
            0nat
        },
    decreases xhi - xlo + 1,
{
    if xhi >= xlo {
        lemma_block_step(h, id, xlo, xhi - 1, ylo, yhi);
        lemma_column_step(h, id, xhi, ylo, yhi);
    }
}

proof fn lemma_history_block(h: Seq<Insertion>, id: u64, xlo: int, xhi: int, ylo: int, yhi: int)
    requires
        xlo >= i32::MIN,
        xhi <= i32::MAX,
        ylo >= i32::MIN,
        yhi <= i32::MAX,
    ensures
        hist_block(h, id, xlo, xhi, ylo, yhi) == count_inserts(h, id, xlo, xhi, ylo, yhi),
    decreases h.len(),
{
    if h.len() == 0 {
        assert(h =~= Seq::<Insertion>::empty());
        lemma_empty_history_block(id, xlo, xhi, ylo, yhi);
    } else {
        lemma_history_block(h.drop_last(), id, xlo, xhi, ylo, yhi);
        lemma_block_step(h, id, xlo, xhi, ylo, yhi);
    }
}

proof fn lemma_empty_history_column(id: u64, x: int, ylo: int, yhi: int)
    ensures
        hist_column(Seq::empty(), id, x, ylo, yhi) == 0,
    decreases yhi - ylo + 1,
{
    if yhi >= ylo {
        lemma_empty_history_column(id, x, ylo, yhi - 1);
    }
}

proof fn lemma_empty_history_block(id: u64, xlo: int, xhi: int, ylo: int, yhi: int)
    ensures
        hist_block(Seq::empty(), id, xlo, xhi, ylo, yhi) == 0,
    decreases xhi - xlo + 1,
{
    if xhi >= xlo {
        lemma_empty_history_block(id, xlo, xhi - 1, ylo, yhi);
        lemma_empty_history_column(id, xhi, ylo, yhi);
    }
}

/// A query returns one entry per insertion since the grid was created or
/// last cleared: for a grid that holds what a history of insertions filed,
/// the query's result holds `id` exactly as often as the history inserted
/// `id` into a cell of the square.
pub proof fn lemma_query_one_entry_per_insert(
    g: SpatialGrid,
    h: Seq<Insertion>,
    id: u64,
    xlo: int,
    xhi: int,
    ylo: int,
    yhi: int,
)
    requires
        built_by(g, h),
        xlo >= i32::MIN,
        xhi <= i32::MAX,
        ylo >= i32::MIN,
        yhi <= i32::MAX,
    ensures
        count_id(g.block_ids(xlo, xhi, ylo, yhi), id) == count_inserts(h, id, xlo, xhi, ylo, yhi),
{
    lemma_block_count(g, h, id, xlo, xhi, ylo, yhi);
    lemma_history_block(h, id, xlo, xhi, ylo, yhi);
}

} // verus!
