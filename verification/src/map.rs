//! The game grid: tiles, the enemy path, map presets and their generators.

use vstd::prelude::*;
use rand::rngs::ThreadRng;
use crate::random::{gen_range, gen_ratio, thread_rng};
use crate::draws::{
    cluster_draws_in_range, obstacles_drawn, place_obstacles, random_path_drawn,
    random_path_from_draws, scatter_draws_in_range, spec_obstacles, spec_random_path,
    spec_sprint_path, sprint_draws_in_range, sprint_path_drawn, sprint_path_from_draws,
    step_draws_in_range, ClusterDraw, ScatterDraw, SprintDraw, StepDraw, CLUSTER_ATTEMPTS,
    SPRINT_SEGMENTS,
};

verus! {

/// Grid dimensions.
pub const GRID_WIDTH: usize = 18;
pub const GRID_HEIGHT: usize = 11;

/// Map preset variants for strategic variety.
#[derive(Clone, Copy, PartialEq, Eq, Debug, Structural)]
pub enum MapPreset {
    Random,
    Serpentine,
    Sprint,
    Spiral,
}

impl MapPreset {
    pub open spec fn spec_name(self) -> Seq<char> {
        match self {
            MapPreset::Random => "Random"@,
            MapPreset::Serpentine => "Serpentine"@,
            MapPreset::Sprint => "Sprint"@,
            MapPreset::Spiral => "Spiral"@,
        }
    }

    pub open spec fn spec_description(self) -> Seq<char> {
        match self {
            MapPreset::Random => "Procedural path"@,
            MapPreset::Serpentine => "Long winding road"@,
            MapPreset::Sprint => "Short & direct"@,
            MapPreset::Spiral => "Inward spiral"@,
        }
    }

    /// The default preset: Random.
    pub fn default_preset() -> (p: Self)
        ensures
            p == MapPreset::Random,
    {
        MapPreset::Random
    }

    pub fn name(&self) -> (s: &'static str)
        ensures
            s@ == self.spec_name(),
    {
        match self {
            MapPreset::Random => "Random",
            MapPreset::Serpentine => "Serpentine",
            MapPreset::Sprint => "Sprint",
            MapPreset::Spiral => "Spiral",
        }
    }

    pub fn description(&self) -> (s: &'static str)
        ensures
            s@ == self.spec_description(),
    {
        match self {
            MapPreset::Random => "Procedural path",
            MapPreset::Serpentine => "Long winding road",
            MapPreset::Sprint => "Short & direct",
            MapPreset::Spiral => "Inward spiral",
        }
    }
}

/// Terrain types for visual variety.
#[derive(Clone, Copy, PartialEq, Eq, Debug, Structural)]
pub enum TerrainType {
    Rock,
    Water,
    Forest,
    Crystal,
}

/// Tile types.
#[derive(Clone, Copy, PartialEq, Eq, Debug, Structural)]
pub enum TileType {
    Empty,  // Can build towers
    Path,  // Enemy path
    Blocked(TerrainType),  // Cannot build - has terrain
    Tower,  // Has a tower
}

/// A grid cell `(x, y)`.
pub type Cell = (usize, usize);

pub open spec fn in_grid(c: Cell) -> bool {
    c.0 < GRID_WIDTH && c.1 < GRID_HEIGHT
}

/// Two consecutive path cells are equal or orthogonal neighbours.
pub open spec fn step_ok(a: Cell, b: Cell) -> bool {
    ||| a == b
    ||| a.0 == b.0 && (a.1 + 1 == b.1 || b.1 + 1 == a.1)
    ||| a.1 == b.1 && (a.0 + 1 == b.0 || b.0 + 1 == a.0)
}

/// A path enters at the left edge, leaves at the right edge, stays on the
/// grid, and never jumps: consecutive cells touch.
pub open spec fn path_well_formed(p: Seq<Cell>) -> bool {
    &&& p.len() > 0
    &&& p[0].0 == 0
    &&& p.last().0 == GRID_WIDTH - 1
    &&& forall|i: int| 0 <= i < p.len() ==> in_grid(#[trigger] p[i])
    &&& forall|i: int| 0 <= i < p.len() - 1 ==> step_ok(#[trigger] p[i], p[i + 1])
}

/// The cells `(x, y)` for `x` from `from` up to `to`.
pub open spec fn row_run(y: usize, from: int, to: int) -> Seq<Cell> {
    Seq::new((to - from + 1) as nat, |i: int| ((from + i) as usize, y))
}

/// The cells `(x, y)` for `x` from `from` down to `to`.
pub open spec fn row_run_back(y: usize, from: int, to: int) -> Seq<Cell> {
    Seq::new((from - to + 1) as nat, |i: int| ((from - i) as usize, y))
}

/// The cells `(x, y)` for `y` from `from` up to `to`.
pub open spec fn column_run(x: usize, from: int, to: int) -> Seq<Cell> {
    Seq::new((to - from + 1) as nat, |i: int| (x, (from + i) as usize))
}

/// The cells `(x, y)` for `y` from `from` down to `to`.
pub open spec fn column_run_back(x: usize, from: int, to: int) -> Seq<Cell> {
    Seq::new((from - to + 1) as nat, |i: int| (x, (from - i) as usize))
}

/// The serpentine path through rows `row1 < row2 < row3`.
pub open spec fn spec_serpentine(row1: usize, row2: usize, row3: usize) -> Seq<Cell> {
    row_run(row1, 0, GRID_WIDTH - 2) + column_run((GRID_WIDTH - 2) as usize, row1 + 1, row2 as int)
        + row_run_back(row2, GRID_WIDTH - 2, 1) + column_run(1, row2 + 1, row3 as int) + row_run(
        row3,
        2,
        GRID_WIDTH - 1,
    )
}

/// Column where round `r` of the spiral starts.
pub open spec fn spiral_start_x(r: int) -> usize {
    if r == 0 {
        0
    } else {
        (2 * r - 2) as usize
    }
}

/// The cells added by round `r` of the spiral: right along row `2r`, down
/// column `16 - 2r`, left along row `10 - 2r`, up column `2r` to row
/// `2r + 2`.
pub open spec fn spiral_round(r: int) -> Seq<Cell> {
    row_run((2 * r) as usize, spiral_start_x(r) + 1, 16 - 2 * r) + column_run(
        (16 - 2 * r) as usize,
        2 * r + 1,
        10 - 2 * r,
    ) + row_run_back((10 - 2 * r) as usize, 15 - 2 * r, 2 * r) + column_run_back(
        (2 * r) as usize,
        9 - 2 * r,
        2 * r + 2,
    )
}

/// The spiral before round `r`.
pub open spec fn spiral_before(r: int) -> Seq<Cell>
    decreases r,
{
    if r <= 0 {
        seq![(0usize, 0usize)]
    } else {
        spiral_before(r - 1) + spiral_round(r - 1)
    }
}

/// The spiral path: two full rounds, the first three runs of a third, and
/// the way out along row 6 to the exit.
pub open spec fn spec_spiral() -> Seq<Cell> {
    spiral_before(2) + row_run(4, 3, 12) + column_run(12, 5, 6) + row_run_back(6, 11, 4) + row_run(
        6,
        5,
        GRID_WIDTH - 1,
    )
}

proof fn lemma_spiral_before_step(r: int)
    requires
        r >= 0,
    ensures
        spiral_before(r + 1) == spiral_before(r) + spiral_round(r),
{
}

/// A path that keeps off the top and bottom rows and never steps left.
#[verifier::opaque]
pub open spec fn rightward_within_rows(p: Seq<Cell>) -> bool {
    &&& forall|i: int| 0 <= i < p.len() ==> 1 <= (#[trigger] p[i]).1 <= GRID_HEIGHT - 2
    &&& forall|i: int| 0 <= i < p.len() - 1 ==> (#[trigger] p[i]).0 <= p[i + 1].0
}

pub(crate) proof fn lemma_rightward_push(p: Seq<Cell>, c: Cell)
    requires
        p.len() > 0,
        rightward_within_rows(p),
        1 <= c.1 <= GRID_HEIGHT - 2,
        p.last().0 <= c.0,
    ensures
        rightward_within_rows(p.push(c)),
        p.push(c)[0] == p[0],
{
    reveal(rightward_within_rows);
    let q = p.push(c);
    assert forall|i: int| 0 <= i < q.len() implies 1 <= (#[trigger] q[i]).1 <= GRID_HEIGHT - 2 by {
        if i < p.len() {
            assert(q[i] == p[i]);
        }
    }
    assert forall|i: int| 0 <= i < q.len() - 1 implies (#[trigger] q[i]).0 <= q[i + 1].0 by {
        assert(q[i] == p[i]);
        if i + 1 < p.len() {
            assert(q[i + 1] == p[i + 1]);
        }
    }
}

/// No cell occurs twice.
pub open spec fn no_repeats(p: Seq<Cell>) -> bool {
    forall|i: int, j: int| 0 <= i < j < p.len() ==> p[i] != p[j]
}

/// A cell shares an edge with some cell of the path.
pub open spec fn adjacent_to_path(c: Cell, p: Seq<Cell>) -> bool {
    ||| (c.0 >= 1 && p.contains(((c.0 - 1) as usize, c.1)))
    ||| p.contains(((c.0 + 1) as usize, c.1))
    ||| (c.1 >= 1 && p.contains((c.0, (c.1 - 1) as usize)))
    ||| p.contains((c.0, (c.1 + 1) as usize))
}

/// Index of cell `(x, y)` in the row-major tile vector.
pub open spec fn tile_index(x: int, y: int) -> int {
    x * GRID_HEIGHT + y
}

/// The tiles agree with the path: path tiles are exactly the path's cells,
/// terrain never touches the path, and no tower stands anywhere yet.
pub open spec fn tiles_consistent(t: Seq<TileType>, p: Seq<Cell>) -> bool {
    &&& t.len() == GRID_WIDTH * GRID_HEIGHT
    &&& forall|x: usize, y: usize|
        x < GRID_WIDTH && y < GRID_HEIGHT ==> {
            let tile = #[trigger] t[tile_index(x as int, y as int)];
            &&& (tile == TileType::Path <==> p.contains((x, y)))
            &&& (tile is Blocked ==> !adjacent_to_path((x, y), p))
            &&& tile != TileType::Tower
        }
}

pub(crate) proof fn lemma_tile_index_bounds(x: usize, y: usize)
    requires
        x < GRID_WIDTH,
        y < GRID_HEIGHT,
    ensures
        0 <= tile_index(x as int, y as int) < GRID_WIDTH * GRID_HEIGHT,
{
}

pub(crate) proof fn lemma_tile_index_injective(x: usize, y: usize, x2: usize, y2: usize)
    requires
        x < GRID_WIDTH,
        y < GRID_HEIGHT,
        x2 < GRID_WIDTH,
        y2 < GRID_HEIGHT,
        tile_index(x as int, y as int) == tile_index(x2 as int, y2 as int),
    ensures
        x == x2 && y == y2,
{
}

/// Placing terrain on an empty tile off the path and away from it keeps the
/// tiles consistent with the path.
pub(crate) proof fn lemma_block_keeps_consistent(t: Seq<TileType>, p: Seq<Cell>, x: usize, y: usize, terrain: TerrainType)
    requires
        tiles_consistent(t, p),
        x < GRID_WIDTH,
        y < GRID_HEIGHT,
        !p.contains((x, y)),
        !adjacent_to_path((x, y), p),
    ensures
        tiles_consistent(t.update(tile_index(x as int, y as int), TileType::Blocked(terrain)), p),
{
    let t2 = t.update(tile_index(x as int, y as int), TileType::Blocked(terrain));
    assert forall|a: usize, b: usize| a < GRID_WIDTH && b < GRID_HEIGHT implies {
        let tile = #[trigger] t2[tile_index(a as int, b as int)];
        &&& (tile == TileType::Path <==> p.contains((a, b)))
        &&& (tile is Blocked ==> !adjacent_to_path((a, b), p))
        &&& tile != TileType::Tower
    } by {
        if tile_index(a as int, b as int) == tile_index(x as int, y as int) {
            lemma_tile_index_injective(a, b, x, y);
        } else {
            lemma_tile_index_bounds(a, b);
            assert(t2[tile_index(a as int, b as int)] == t[tile_index(a as int, b as int)]);
        }
    }
}

/// `after` comes from `before` by putting terrain on empty tiles: every other
/// tile is left as it was.
pub open spec fn only_terrain_added(before: Seq<TileType>, after: Seq<TileType>) -> bool {
    &&& after.len() == before.len()
    &&& forall|i: int|
        #![trigger after[i]]
        0 <= i < before.len() ==> after[i] == before[i] || (before[i] == TileType::Empty
            && after[i] is Blocked)
}

/// The indices of the tiles that differ between `before` and `after`.
pub open spec fn changed_tiles(before: Seq<TileType>, after: Seq<TileType>) -> Set<int> {
    Set::new(|i: int| 0 <= i < before.len() && after[i] != before[i])
}

pub(crate) proof fn lemma_changed_tiles_finite(before: Seq<TileType>, after: Seq<TileType>)
    ensures
        changed_tiles(before, after).finite(),
        changed_tiles(before, after).len() <= before.len(),
{
    let range = vstd::set_lib::set_int_range(0, before.len() as int);
    vstd::set_lib::lemma_int_range(0, before.len() as int);
    vstd::set_lib::lemma_len_subset(changed_tiles(before, after), range);
}

/// Terrain put on one more empty tile keeps `only_terrain_added` and changes
/// at most one more index.
pub(crate) proof fn lemma_terrain_step(
    orig: Seq<TileType>,
    before: Seq<TileType>,
    after: Seq<TileType>,
    i: int,
    terrain: TerrainType,
)
    requires
        only_terrain_added(orig, before),
        0 <= i < before.len(),
        before[i] == TileType::Empty,
        after == before.update(i, TileType::Blocked(terrain)),
    ensures
        only_terrain_added(orig, after),
        changed_tiles(orig, after).len() <= changed_tiles(orig, before).len() + 1,
{
    assert(after[i] == TileType::Blocked(terrain));
    assert(before[i] == orig[i]);
    lemma_changed_tiles_finite(orig, before);
    let grown = changed_tiles(orig, before).insert(i);
    assert(changed_tiles(orig, after).subset_of(grown));
    vstd::set_lib::lemma_len_subset(changed_tiles(orig, after), grown);
}

/// The tiles of a fresh grid for the path: the path's cells hold the path
/// and every other tile is empty.
pub open spec fn laid_out(t: Seq<TileType>, p: Seq<Cell>) -> bool {
    &&& t.len() == GRID_WIDTH * GRID_HEIGHT
    &&& forall|x: usize, y: usize|
        x < GRID_WIDTH && y < GRID_HEIGHT ==> #[trigger] t[tile_index(x as int, y as int)] == if p.contains(
            (x, y),
        ) {
            TileType::Path
        } else {
            TileType::Empty
        }
}

proof fn lemma_terrain_on_fresh_grid(base: Seq<TileType>, t: Seq<TileType>, p: Seq<Cell>)
    requires
        laid_out(base, p),
        obstacles_drawn(base, t, p),
    ensures
        exists|b: Seq<TileType>| #[trigger] laid_out(b, p) && obstacles_drawn(b, t, p),
{
}

/// Whether `c` is on the path.
pub fn path_contains(path: &Vec<Cell>, c: Cell) -> (b: bool)
    ensures
        b == path@.contains(c),
{
    let mut i: usize = 0;
    while i < path.len()
        invariant
            i <= path.len(),
            forall|j: int| 0 <= j < i ==> path@[j] != c,
        decreases path.len() - i,
    {
        let p = path[i];
        if p.0 == c.0 && p.1 == c.1 {
            assert(path@[i as int] == c);
            return true;
        }
        i = i + 1;
    }
    proof {
        if path@.contains(c) {
            let k = choose|k: int| 0 <= k < path@.len() && path@[k] == c;
            assert(path@[k] != c);
        }
    }
    false
}

/// The game map: the tiles of the grid, column by column, and the path.
pub struct GameMap {
    pub tiles: Vec<TileType>,
    pub path: Vec<Cell>,
}

impl GameMap {
    /// The tile vector covers the whole grid.
    pub open spec fn wf(&self) -> bool {
        self.tiles@.len() == GRID_WIDTH * GRID_HEIGHT
    }

    /// The tiles agree with the path (path tiles are exactly the path's
    /// cells) and terrain keeps off the path's buffer zone. Towers may stand
    /// on any other tile.
    pub open spec fn playable(&self) -> bool {
        &&& self.wf()
        &&& forall|x: usize, y: usize|
            x < GRID_WIDTH && y < GRID_HEIGHT ==> {
                let tile = #[trigger] self.tiles@[tile_index(x as int, y as int)];
                &&& (tile == TileType::Path <==> self.path@.contains((x, y)))
                &&& (tile is Blocked ==> !adjacent_to_path((x, y), self.path@))
            }
    }

    pub open spec fn tile(&self, x: int, y: int) -> TileType {
        self.tiles@[tile_index(x, y)]
    }

    /// The tile at `(x, y)`.
    pub fn tile_at(&self, x: usize, y: usize) -> (t: TileType)
        requires
            self.wf(),
            x < GRID_WIDTH,
            y < GRID_HEIGHT,
        ensures
            t == self.tile(x as int, y as int),
    {
        self.tiles[x * GRID_HEIGHT + y]
    }

    /// Check if a tile is buildable: on the grid and empty.
    pub fn is_buildable(&self, x: usize, y: usize) -> (b: bool)
        requires
            self.wf(),
        ensures
            b == (x < GRID_WIDTH && y < GRID_HEIGHT && self.tile(x as int, y as int)
                == TileType::Empty),
    {
        if x >= GRID_WIDTH || y >= GRID_HEIGHT {
            return false;
        }
        match self.tiles[x * GRID_HEIGHT + y] {
            TileType::Empty => true,
            _ => false,
        }
    }

    /// Mark a tile on the grid as holding a tower; off-grid positions are ignored.
    pub fn place_tower(&mut self, x: usize, y: usize)
        requires
            old(self).wf(),
        ensures
            final(self).wf(),
            final(self).path@ == old(self).path@,
            (x < GRID_WIDTH && y < GRID_HEIGHT) ==> final(self).tiles@ == old(self).tiles@.update(
                tile_index(x as int, y as int),
                TileType::Tower,
            ),
            !(x < GRID_WIDTH && y < GRID_HEIGHT) ==> final(self).tiles@ == old(self).tiles@,
            old(self).playable() && ((x < GRID_WIDTH && y < GRID_HEIGHT) ==> old(self).tile(
                x as int,
                y as int,
            ) == TileType::Empty) ==> final(self).playable(),
    {
        if x < GRID_WIDTH && y < GRID_HEIGHT {
            proof {
                lemma_tile_index_bounds(x, y);
            }
            let ghost before = *self;
            self.tiles.set(x * GRID_HEIGHT + y, TileType::Tower);
            proof {
                if before.playable() && before.tile(x as int, y as int) == TileType::Empty {
                    lemma_retile_keeps_playable(before, *self, x, y);
                }
            }
        }
    }

    /// Remove a tower from a tile: a tower tile becomes empty, anything else
    /// is left alone.
    pub fn remove_tower(&mut self, x: usize, y: usize)
        requires
            old(self).wf(),
        ensures
            final(self).wf(),
            final(self).path@ == old(self).path@,
            (x < GRID_WIDTH && y < GRID_HEIGHT && old(self).tile(x as int, y as int)
                == TileType::Tower) ==> final(self).tiles@ == old(self).tiles@.update(
                tile_index(x as int, y as int),
                TileType::Empty,
            ),
            !(x < GRID_WIDTH && y < GRID_HEIGHT && old(self).tile(x as int, y as int)
                == TileType::Tower) ==> final(self).tiles@ == old(self).tiles@,
            old(self).playable() ==> final(self).playable(),
    {
        if x < GRID_WIDTH && y < GRID_HEIGHT {
            let i = x * GRID_HEIGHT + y;
            proof {
                lemma_tile_index_bounds(x, y);
            }
            match self.tiles[i] {
                TileType::Tower => {
                    let ghost before = *self;
                    self.tiles.set(i, TileType::Empty);
                    proof {
                        if before.playable() {
                            lemma_retile_keeps_playable(before, *self, x, y);
                        }
                    }
                },
                _ => {},
            }
        }
    }

    /// Check if a tile is directly adjacent to the path (buffer zone).
    pub fn is_adjacent_to_path(x: usize, y: usize, path: &Vec<Cell>) -> (b: bool)
        requires
            x < usize::MAX,
            y < usize::MAX,
        ensures
            b == adjacent_to_path((x, y), path@),
    {
        (x >= 1 && path_contains(path, (x - 1, y))) || path_contains(path, (x + 1, y)) || (y >= 1
            && path_contains(path, (x, y - 1))) || path_contains(path, (x, y + 1))
    }
}


/// A path under construction: it starts at the left edge, stays on the
/// grid and never jumps.
#[verifier::opaque]
pub open spec fn path_prefix_ok(p: Seq<Cell>) -> bool {
    &&& p.len() > 0
    &&& p[0].0 == 0
    &&& forall|i: int| 0 <= i < p.len() ==> in_grid(#[trigger] p[i])
    &&& forall|i: int| 0 <= i < p.len() - 1 ==> step_ok(#[trigger] p[i], p[i + 1])
}

pub(crate) proof fn lemma_push_keeps_prefix(p: Seq<Cell>, c: Cell)
    requires
        path_prefix_ok(p),
        in_grid(c),
        step_ok(p.last(), c),
    ensures
        path_prefix_ok(p.push(c)),
        p.push(c).last() == c,
{
    reveal(path_prefix_ok);
    let q = p.push(c);
    assert forall|i: int| 0 <= i < q.len() - 1 implies step_ok(#[trigger] q[i], q[i + 1]) by {
        if i < p.len() - 1 {
            assert(q[i] == p[i] && q[i + 1] == p[i + 1]);
        } else {
            assert(q[i] == p.last());
        }
    }
    assert forall|i: int| 0 <= i < q.len() implies in_grid(#[trigger] q[i]) by {
        if i < p.len() {
            assert(q[i] == p[i]);
        }
    }
}

pub(crate) proof fn lemma_start_prefix(y: usize)
    requires
        y < GRID_HEIGHT,
    ensures
        path_prefix_ok(seq![(0usize, y)]),
        seq![(0usize, y)].last() == (0usize, y),
{
    reveal(path_prefix_ok);
}

pub(crate) proof fn lemma_prefix_complete(p: Seq<Cell>)
    requires
        path_prefix_ok(p),
        p.last().0 == GRID_WIDTH - 1,
    ensures
        path_well_formed(p),
{
    reveal(path_prefix_ok);
}

/// Every cell of the path lies in a column no further right than `x`.
pub open spec fn columns_at_most(p: Seq<Cell>, x: usize) -> bool {
    forall|i: int| 0 <= i < p.len() ==> (#[trigger] p[i]).0 <= x
}

pub(crate) proof fn lemma_push_fresh(p: Seq<Cell>, c: Cell)
    requires
        no_repeats(p),
        !p.contains(c),
    ensures
        no_repeats(p.push(c)),
{
    let q = p.push(c);
    assert forall|i: int, j: int| 0 <= i < j < q.len() implies q[i] != q[j] by {
        if j == p.len() {
            assert(q[i] == p[i]);
            if p[i] == c {
                assert(p.contains(c));
            }
        } else {
            assert(q[i] == p[i] && q[j] == p[j]);
        }
    }
}

pub(crate) proof fn lemma_push_right_fresh(p: Seq<Cell>, x: usize, y: usize)
    requires
        columns_at_most(p, x),
        x < usize::MAX,
    ensures
        !p.contains(((x + 1) as usize, y)),
        columns_at_most(p.push(((x + 1) as usize, y)), (x + 1) as usize),
{
    if p.contains(((x + 1) as usize, y)) {
        let k = choose|k: int| 0 <= k < p.len() && p[k] == ((x + 1) as usize, y);
        assert(p[k].0 <= x);
    }
    let q = p.push(((x + 1) as usize, y));
    assert forall|i: int| 0 <= i < q.len() implies (#[trigger] q[i]).0 <= x + 1 by {
        if i < p.len() {
            assert(q[i] == p[i]);
        }
    }
}

pub(crate) proof fn lemma_push_column_kept(p: Seq<Cell>, x: usize, y: usize)
    requires
        columns_at_most(p, x),
    ensures
        columns_at_most(p.push((x, y)), x),
{
    let q = p.push((x, y));
    assert forall|i: int| 0 <= i < q.len() implies (#[trigger] q[i]).0 <= x by {
        if i < p.len() {
            assert(q[i] == p[i]);
        }
    }
}

/// Whether the random path may step one row from `(x, y)` in the current
/// vertical direction: it must stay off the top and bottom rows and must not
/// revisit a path cell.
pub open spec fn vertical_ok(p: Seq<Cell>, x: usize, y: usize, going_up: bool) -> bool {
    if going_up {
        y + 1 < GRID_HEIGHT - 1 && !p.contains((x, (y + 1) as usize))
    } else {
        y > 1 && !p.contains((x, (y - 1) as usize))
    }
}

pub open spec fn vertical_target(y: usize, going_up: bool) -> usize {
    if going_up {
        (y + 1) as usize
    } else {
        (y - 1) as usize
    }
}

/// The row one vertical step away, when the step is allowed.
pub(crate) fn try_vertical(path: &Vec<Cell>, x: usize, y: usize, going_up: bool) -> (r: Option<usize>)
    requires
        1 <= y <= GRID_HEIGHT - 2,
    ensures
        r.is_some() == vertical_ok(path@, x, y, going_up),
        r.is_some() ==> r.unwrap() == vertical_target(y, going_up) && 1 <= r.unwrap()
            <= GRID_HEIGHT - 2,
{
    if going_up {
        let target = y + 1;
        if target < GRID_HEIGHT - 1 && !path_contains(path, (x, target)) {
            Some(target)
        } else {
            None
        }
    } else {
        if y > 1 && !path_contains(path, (x, y - 1)) {
            Some(y - 1)
        } else {
            None
        }
    }
}

impl GameMap {
    /// The map consistency promised by [`GameMap::generate`].
    pub open spec fn consistent(&self) -> bool {
        tiles_consistent(self.tiles@, self.path@)
    }

    /// Generate just the path for a preset (for menu previews).
    pub fn generate_path_for(preset: MapPreset) -> (path: Vec<Cell>)
        ensures
            path_well_formed(path@),
            preset == MapPreset::Random ==> no_repeats(path@) && rightward_within_rows(path@)
                && 2 <= path@[0].1 < GRID_HEIGHT - 2,
            preset == MapPreset::Serpentine ==> exists|row1: usize, row2: usize, row3: usize|
                1 <= row1 < 3 && 4 <= row2 < 7 && 8 <= row3 < GRID_HEIGHT - 1 && path@
                    == spec_serpentine(row1, row2, row3),
            preset == MapPreset::Sprint ==> path@[0] == (0usize, GRID_HEIGHT / 2) && rightward_within_rows(path@),
            preset == MapPreset::Spiral ==> path@ == spec_spiral(),
            preset == MapPreset::Random ==> random_path_drawn(path@),
            preset == MapPreset::Sprint ==> sprint_path_drawn(path@),
    {
        match preset {
            MapPreset::Random => Self::generate_path(),
            MapPreset::Serpentine => Self::generate_serpentine_path(),
            MapPreset::Sprint => Self::generate_sprint_path(),
            MapPreset::Spiral => Self::generate_spiral_path(),
        }
    }

    /// Generate a map using the given preset: the preset's path, laid on an
    /// empty grid, with random terrain obstacles kept away from the path.
    pub fn generate(preset: MapPreset) -> (m: Self)
        ensures
            m.wf(),
            m.consistent(),
            path_well_formed(m.path@),
            preset == MapPreset::Random ==> no_repeats(m.path@) && rightward_within_rows(m.path@)
                && 2 <= m.path@[0].1 < GRID_HEIGHT - 2,
            preset == MapPreset::Serpentine ==> exists|row1: usize, row2: usize, row3: usize|
                1 <= row1 < 3 && 4 <= row2 < 7 && 8 <= row3 < GRID_HEIGHT - 1 && m.path@
                    == spec_serpentine(row1, row2, row3),
            preset == MapPreset::Sprint ==> m.path@[0] == (0usize, GRID_HEIGHT / 2) && rightward_within_rows(m.path@),
            preset == MapPreset::Spiral ==> m.path@ == spec_spiral(),
            preset == MapPreset::Random ==> random_path_drawn(m.path@),
            preset == MapPreset::Sprint ==> sprint_path_drawn(m.path@),
            exists|base: Seq<TileType>|
                #[trigger] laid_out(base, m.path@) && obstacles_drawn(base, m.tiles@, m.path@),
    {
        let path = Self::generate_path_for(preset);
        let mut tiles = Self::lay_out_path(&path);
        let ghost base = tiles@;
        Self::generate_obstacles(&mut tiles, &path);
        let m = GameMap { tiles, path };
        proof {
            lemma_terrain_on_fresh_grid(base, m.tiles@, m.path@);
        }
        m
    }

    /// A fresh grid for the path: the path's cells hold the path and every
    /// other tile is empty.
    fn lay_out_path(path: &Vec<Cell>) -> (tiles: Vec<TileType>)
        requires
            path_well_formed(path@),
        ensures
            laid_out(tiles@, path@),
            tiles_consistent(tiles@, path@),
    {

        let mut tiles: Vec<TileType> = Vec::with_capacity(GRID_WIDTH * GRID_HEIGHT);
        let mut i: usize = 0;
        while i < GRID_WIDTH * GRID_HEIGHT
            invariant
                i <= GRID_WIDTH * GRID_HEIGHT,
                tiles@.len() == i,
                forall|j: int| 0 <= j < i ==> tiles@[j] == TileType::Empty,
            decreases GRID_WIDTH * GRID_HEIGHT - i,
        {
            tiles.push(TileType::Empty);
            i += 1;
        }

        let mut k: usize = 0;
        while k < path.len()
            invariant
                k <= path@.len(),
                path_well_formed(path@),
                tiles@.len() == GRID_WIDTH * GRID_HEIGHT,
                forall|x: usize, y: usize|
                    x < GRID_WIDTH && y < GRID_HEIGHT ==> {
                        let tile = #[trigger] tiles@[tile_index(x as int, y as int)];
                        &&& (tile == TileType::Path <==> path@.subrange(0, k as int).contains(
                            (x, y),
                        ))
                        &&& (tile == TileType::Path || tile == TileType::Empty)
                    },
            decreases path@.len() - k,
        {
            let (x, y) = path[k];
            proof {
                assert(in_grid(path@[k as int]));
                lemma_tile_index_bounds(x, y);
            }
            let ghost before = tiles@;
            tiles.set(x * GRID_HEIGHT + y, TileType::Path);
            proof {
                let sub = path@.subrange(0, k as int);
                let sub2 = path@.subrange(0, k + 1);
                assert(sub2 =~= sub.push((x, y)));
                assert forall|a: usize, b: usize| a < GRID_WIDTH && b < GRID_HEIGHT implies {
                    let tile = #[trigger] tiles@[tile_index(a as int, b as int)];
                    &&& (tile == TileType::Path <==> sub2.contains((a, b)))
                    &&& (tile == TileType::Path || tile == TileType::Empty)
                } by {
                    if tile_index(a as int, b as int) == tile_index(x as int, y as int) {
                        lemma_tile_index_injective(a, b, x, y);
                        assert(sub2[k as int] == (a, b));
                    } else {
                        lemma_tile_index_bounds(a, b);
                        assert(tiles@[tile_index(a as int, b as int)] == before[tile_index(a as int, b as int)]);
                        if sub2.contains((a, b)) {
                            let j = choose|j: int| 0 <= j < sub2.len() && sub2[j] == (a, b);
                            if j < k {
                                assert(sub[j] == (a, b));
                            } else {
                                assert(sub2[j] == (x, y));
                            }
                        }
                        if sub.contains((a, b)) {
                            let j = choose|j: int| 0 <= j < sub.len() && sub[j] == (a, b);
                            assert(sub2[j] == (a, b));
                        }
                    }
                }
            }
            k += 1;
        }
        proof {
            assert(path@.subrange(0, path@.len() as int) =~= path@);
            assert forall|x: usize, y: usize| x < GRID_WIDTH && y < GRID_HEIGHT implies {
                let tile = #[trigger] tiles@[tile_index(x as int, y as int)];
                &&& (tile == TileType::Path <==> path@.contains((x, y)))
                &&& (tile is Blocked ==> !adjacent_to_path((x, y), path@))
                &&& tile != TileType::Tower
            } by {
                let tile = tiles@[tile_index(x as int, y as int)];
                assert(tile == TileType::Path || tile == TileType::Empty);
            }
            assert(laid_out(tiles@, path@));
        }
        tiles
    }

    /// Generate random terrain obstacles avoiding the path and its buffer zone:
    /// between two and five clusters of at most eight tiles each, then at most
    /// eleven scattered tiles. Only empty tiles gain terrain, so the path and
    /// every other tile stay as they were. All draws are taken first;
    /// [`place_obstacles`] puts the terrain they call for.
    pub fn generate_obstacles(tiles: &mut Vec<TileType>, path: &Vec<Cell>)
        requires
            tiles_consistent(old(tiles)@, path@),
        ensures
            tiles_consistent(final(tiles)@, path@),
            only_terrain_added(old(tiles)@, final(tiles)@),
            changed_tiles(old(tiles)@, final(tiles)@).len() <= 5 * 8 + 11,
            obstacles_drawn(old(tiles)@, final(tiles)@, path@),
    {
        let mut rng = thread_rng();
        let terrain_types: [TerrainType; 4] = [
            TerrainType::Rock,
            TerrainType::Water,
            TerrainType::Forest,
            TerrainType::Crystal,
        ];

        // Choose 2-5 terrain clusters (reduced for more buildable space)
        let num_clusters = gen_range(&mut rng, 2, 6);
        let mut clusters: Vec<ClusterDraw> = Vec::with_capacity(num_clusters);
        while clusters.len() < num_clusters
            invariant
                2 <= num_clusters < 6,
                clusters@.len() <= num_clusters,
                forall|i: int|
                    0 <= i < clusters@.len() ==> {
                        let c = #[trigger] clusters@[i];
                        &&& 2 <= c.center_x < GRID_WIDTH - 2
                        &&& 1 <= c.center_y < GRID_HEIGHT - 1
                        &&& 3 <= c.size < 9
                        &&& c.offsets@.len() == CLUSTER_ATTEMPTS
                        &&& forall|k: int|
                            0 <= k < CLUSTER_ATTEMPTS ==> (#[trigger] c.offsets@[k]).0 < 5
                                && c.offsets@[k].1 < 5
                    },
            decreases num_clusters - clusters@.len(),
        {
            // Pick a random center point
            let center_x = gen_range(&mut rng, 2, GRID_WIDTH - 2);
            let center_y = gen_range(&mut rng, 1, GRID_HEIGHT - 1);
            // Pick a terrain type
            let terrain = terrain_types[gen_range(&mut rng, 0, 4)];
            // Create a cluster of 3-8 tiles (reduced ~20%)
            let size = gen_range(&mut rng, 3, 9);
            // Random offsets from center, in -2..=2, one pair per attempt
            let mut offsets: Vec<(usize, usize)> = Vec::with_capacity(CLUSTER_ATTEMPTS);
            while offsets.len() < CLUSTER_ATTEMPTS
                invariant
                    offsets@.len() <= CLUSTER_ATTEMPTS,
                    forall|k: int| 0 <= k < offsets@.len() ==> (#[trigger] offsets@[k]).0 < 5 && offsets@[k].1 < 5,
                decreases CLUSTER_ATTEMPTS - offsets@.len(),
            {
                let offset_x = gen_range(&mut rng, 0, 5);
                let offset_y = gen_range(&mut rng, 0, 5);
                offsets.push((offset_x, offset_y));
            }
            clusters.push(ClusterDraw { center_x, center_y, terrain, size, offsets });
        }

        // Add some scattered individual obstacles (reduced ~20%)
        let num_scattered = gen_range(&mut rng, 6, 12);
        let mut scattered: Vec<ScatterDraw> = Vec::with_capacity(num_scattered);
        while scattered.len() < num_scattered
            invariant
                6 <= num_scattered < 12,
                scattered@.len() <= num_scattered,
                forall|i: int|
                    0 <= i < scattered@.len() ==> (#[trigger] scattered@[i]).x < GRID_WIDTH
                        && scattered@[i].y < GRID_HEIGHT,
            decreases num_scattered - scattered@.len(),
        {
            let x = gen_range(&mut rng, 0, GRID_WIDTH);
            let y = gen_range(&mut rng, 0, GRID_HEIGHT);
            let terrain = terrain_types[gen_range(&mut rng, 0, 4)];
            scattered.push(ScatterDraw { x, y, terrain });
        }

        let ghost before = tiles@;
        place_obstacles(tiles, path, &clusters, &scattered);
        proof {
            assert(cluster_draws_in_range(clusters@) && scatter_draws_in_range(scattered@) && tiles@
                == spec_obstacles(before, path@, clusters@, scattered@));
        }
    }

    /// Puts terrain on `(x, y)` when the tile is on the grid, empty, off the
    /// path and not adjacent to it; returns whether it did.
    pub(crate) fn try_block(tiles: &mut Vec<TileType>, path: &Vec<Cell>, x: usize, y: usize, terrain: TerrainType) -> (done: bool)
        requires
            tiles_consistent(old(tiles)@, path@),
            x < usize::MAX,
            y < usize::MAX,
        ensures
            tiles_consistent(final(tiles)@, path@),
            done == (x < GRID_WIDTH && y < GRID_HEIGHT && !path@.contains((x, y))
                && !adjacent_to_path((x, y), path@) && old(tiles)@[tile_index(x as int, y as int)]
                == TileType::Empty),
            done ==> final(tiles)@ == old(tiles)@.update(
                tile_index(x as int, y as int),
                TileType::Blocked(terrain),
            ),
            !done ==> final(tiles)@ == old(tiles)@,
    {
        if x < GRID_WIDTH && y < GRID_HEIGHT && !path_contains(path, (x, y))
            && !Self::is_adjacent_to_path(x, y, path) {
            proof {
                lemma_tile_index_bounds(x, y);
            }
            let i = x * GRID_HEIGHT + y;
            match tiles[i] {
                TileType::Empty => {
                    proof {
                        lemma_block_keeps_consistent(tiles@, path@, x, y, terrain);
                    }
                    tiles.set(i, TileType::Blocked(terrain));
                    true
                },
                _ => false,
            }
        } else {
            false
        }
    }

    /// Generate a winding path from left to right with a snake pattern.
    /// Unlike the presets it never visits a cell twice. The start row, the
    /// first direction and one step draw for each of at most 150 steps are
    /// drawn first; [`random_path_from_draws`] builds the path from them.
    pub fn generate_path() -> (path: Vec<Cell>)
        ensures
            path_well_formed(path@),
            no_repeats(path@),
            rightward_within_rows(path@),
            path@[0].0 == 0 && 2 <= path@[0].1 < GRID_HEIGHT - 2,
            random_path_drawn(path@),
    {
        let mut rng = thread_rng();

        // Start on left edge
        let start_y = gen_range(&mut rng, 2, GRID_HEIGHT - 2);
        // Current vertical direction for the snake pattern
        let going_up = gen_ratio(&mut rng, 1, 2);

        let mut steps: Vec<StepDraw> = Vec::with_capacity(150);
        while steps.len() < 150
            invariant
                steps@.len() <= 150,
                step_draws_in_range(steps@),
            decreases 150 - steps@.len(),
        {
            // Weight: 40% horizontal, 60% vertical to encourage winding
            let horizontal = gen_ratio(&mut rng, 2, 5);
            // After moving right, sometimes do a vertical run
            let run = gen_ratio(&mut rng, 1, 2);
            let run_length = gen_range(&mut rng, 2, 5);
            steps.push(StepDraw { horizontal, run, run_length });
        }
        let path = random_path_from_draws(start_y, going_up, &steps);
        proof {
            assert(2 <= start_y < GRID_HEIGHT - 2 && steps@.len() == 150 && step_draws_in_range(
                steps@,
            ) && path@ == spec_random_path(start_y, going_up, steps@));
        }
        path
    }

    /// The serpentine path through rows `row1 < row2 < row3`: along
    /// `row1` to the second-to-last column, down to `row2`, back along
    /// `row2` to column 1, down to `row3`, then along `row3` to the exit.
    pub fn serpentine_path(row1: usize, row2: usize, row3: usize) -> (path: Vec<Cell>)
        requires
            1 <= row1 < 3,
            4 <= row2 < 7,
            8 <= row3 < GRID_HEIGHT - 1,
        ensures
            path@ == spec_serpentine(row1, row2, row3),
            path_well_formed(path@),
    {
        let mut path: Vec<Cell> = Vec::with_capacity(150);

        // Run 1: left to right along row1
        path.push((0, row1));
        proof {
            lemma_start_prefix(row1);
            assert(path@ =~= seq![(0usize, row1)]);
            assert(path@ =~= row_run(row1, 0, 0));
        }
        let mut x: usize = 1;
        while x < GRID_WIDTH - 1
            invariant
                1 <= x <= GRID_WIDTH - 1,
                row1 < 3,
                path_prefix_ok(path@),
                path@.last() == ((x - 1) as usize, row1),
                path@ == row_run(row1, 0, x - 1),
            decreases GRID_WIDTH - 1 - x,
        {
            proof {
                lemma_push_keeps_prefix(path@, (x, row1));
            }
            path.push((x, row1));
            proof {
                assert(path@ =~= row_run(row1, 0, x as int));
            }
            x += 1;
        }
        let ghost run1 = path@;

        // Drop down from row1 to row2 at right side
        let drop_x = GRID_WIDTH - 2;
        let (start, end) = if row1 < row2 {
            (row1, row2)
        } else {
            (row2, row1)
        };
        let mut y = start + 1;
        assert(path@ =~= run1 + column_run(drop_x, row1 + 1, row1 as int));
        while y <= end
            invariant
                start == row1,
                end == row2,
                drop_x == GRID_WIDTH - 2,
                row1 + 1 <= y <= row2 + 1,
                row2 < 7,
                path_prefix_ok(path@),
                path@.last() == (drop_x, (y - 1) as usize),
                path@ == run1 + column_run(drop_x, row1 + 1, y - 1),
            decreases end + 1 - y,
        {
            proof {
                lemma_push_keeps_prefix(path@, (drop_x, y));
            }
            path.push((drop_x, y));
            proof {
                assert(path@ =~= run1 + column_run(drop_x, row1 + 1, y as int));
            }
            y += 1;
        }
        let ghost run2 = path@;

        // Run 2: right to left along row2
        let mut x: usize = drop_x;
        assert(path@ =~= run2 + row_run_back(row2, drop_x as int, drop_x + 1));
        while x >= 1
            invariant
                x <= drop_x,
                drop_x == GRID_WIDTH - 2,
                row2 < 7,
                path_prefix_ok(path@),
                path@.last() == ((if x == drop_x {
                    drop_x
                } else {
                    (x + 1) as usize
                }), row2),
                path@ == run2 + row_run_back(row2, drop_x as int, x + 1),
            decreases x,
        {
            proof {
                lemma_push_keeps_prefix(path@, (x, row2));
            }
            path.push((x, row2));
            proof {
                assert(path@ =~= run2 + row_run_back(row2, drop_x as int, x as int));
            }
            x -= 1;
        }
        let ghost run3 = path@;

        // Drop down from row2 to row3 at left side
        let drop_x2: usize = 1;
        let (start, end) = if row2 < row3 {
            (row2, row3)
        } else {
            (row3, row2)
        };
        let mut y = start + 1;
        assert(path@ =~= run3 + column_run(drop_x2, row2 + 1, row2 as int));
        while y <= end
            invariant
                start == row2,
                end == row3,
                drop_x2 == 1,
                row2 + 1 <= y <= row3 + 1,
                row3 < GRID_HEIGHT - 1,
                path_prefix_ok(path@),
                path@.last() == (drop_x2, (y - 1) as usize),
                path@ == run3 + column_run(drop_x2, row2 + 1, y - 1),
            decreases end + 1 - y,
        {
            proof {
                lemma_push_keeps_prefix(path@, (drop_x2, y));
            }
            path.push((drop_x2, y));
            proof {
                assert(path@ =~= run3 + column_run(drop_x2, row2 + 1, y as int));
            }
            y += 1;
        }
        let ghost run4 = path@;

        // Run 3: left to right along row3 to exit
        let mut x = drop_x2 + 1;
        assert(path@ =~= run4 + row_run(row3, 2, 1));
        while x < GRID_WIDTH
            invariant
                2 <= x <= GRID_WIDTH,
                row3 < GRID_HEIGHT - 1,
                path_prefix_ok(path@),
                path@.last() == ((x - 1) as usize, row3),
                path@ == run4 + row_run(row3, 2, x - 1),
            decreases GRID_WIDTH - x,
        {
            proof {
                lemma_push_keeps_prefix(path@, (x, row3));
            }
            path.push((x, row3));
            proof {
                assert(path@ =~= run4 + row_run(row3, 2, x as int));
            }
            x += 1;
        }
        proof {
            lemma_prefix_complete(path@);
        }
        path
    }

    /// Generate a serpentine path: full-width snake with 3 horizontal runs,
    /// through a row drawn in 1..3, one in 4..7 and one in 8..10.
    pub fn generate_serpentine_path() -> (path: Vec<Cell>)
        ensures
            path_well_formed(path@),
            exists|row1: usize, row2: usize, row3: usize|
                1 <= row1 < 3 && 4 <= row2 < 7 && 8 <= row3 < GRID_HEIGHT - 1 && path@
                    == spec_serpentine(row1, row2, row3),
    {
        let mut rng = thread_rng();
        // Row positions with minor randomization
        let row1 = gen_range(&mut rng, 1, 3);  // top area
        let row2 = gen_range(&mut rng, 4, 7);  // middle area
        let row3 = gen_range(&mut rng, 8, GRID_HEIGHT - 1);  // bottom area
        Self::serpentine_path(row1, row2, row3)
    }

    /// Generate a sprint path: mostly horizontal through center with minor jogs.
    /// The draws of nine segments are taken first, which always suffice;
    /// [`sprint_path_from_draws`] builds the path from them.
    pub fn generate_sprint_path() -> (path: Vec<Cell>)
        ensures
            path_well_formed(path@),
            path@[0] == (0usize, GRID_HEIGHT / 2),
            rightward_within_rows(path@),
            sprint_path_drawn(path@),
    {
        let mut rng = thread_rng();
        let mut draws: Vec<SprintDraw> = Vec::with_capacity(SPRINT_SEGMENTS);
        while draws.len() < SPRINT_SEGMENTS
            invariant
                draws@.len() <= SPRINT_SEGMENTS,
                sprint_draws_in_range(draws@),
            decreases SPRINT_SEGMENTS - draws@.len(),
        {
            // Move right 2-4 columns
            let run = gen_range(&mut rng, 2, 5);
            // Small vertical jog of 1-2 tiles
            let jog = gen_range(&mut rng, 1, 3);
            let down = gen_ratio(&mut rng, 1, 2);
            draws.push(SprintDraw { run, jog, down });
        }
        let path = sprint_path_from_draws(&draws);
        proof {
            assert(draws@.len() == SPRINT_SEGMENTS && sprint_draws_in_range(draws@) && path@
                == spec_sprint_path(draws@));
        }
        path
    }

    /// Generate a spiral path: clockwise inward from top-left, exits right.
    /// Loops are spaced 2 apart to leave buildable columns between them.
    pub fn generate_spiral_path() -> (path: Vec<Cell>)
        ensures
            path_well_formed(path@),
            path@ == spec_spiral(),
    {
        let mut path: Vec<Cell> = Vec::with_capacity(120);

        let mut left: usize = 0;
        let mut right: usize = GRID_WIDTH - 2;  // Leave last column for exit
        let mut top: usize = 0;
        let mut bottom: usize = GRID_HEIGHT - 1;

        // Start at top-left
        let mut x: usize = 0;
        let mut y: usize = 0;
        path.push((x, y));
        let ghost mut r: int = 0;
        proof {
            lemma_start_prefix(0);
            assert(path@ =~= seq![(0usize, 0usize)]);
        }

        // Spiral inward clockwise, shrinking by 2 each loop to leave gaps
        loop
            invariant_except_break
                0 <= r <= 2,
                left == 2 * r,
                top == 2 * r,
                right == 16 - 2 * r,
                bottom == 10 - 2 * r,
                x == spiral_start_x(r),
                y == 2 * r,
                path@ == spiral_before(r),
            invariant
                path_prefix_ok(path@),
                path@.last() == (x, y),
            ensures
                path_prefix_ok(path@),
                path@.last() == (x, y),
                x == 4,
                y == 6,
                path@ == spiral_before(2) + row_run(4, 3, 12) + column_run(12, 5, 6)
                    + row_run_back(6, 11, 4),
            decreases GRID_HEIGHT - top,
        {
            let ghost start = path@;
            // Move right along top
            assert(path@ =~= start + row_run(y, x + 1, x as int));
            let ghost x0 = x;
            while x < right
                invariant
                    path_prefix_ok(path@),
                    path@.last() == (x, y),
                    x0 <= x <= right,
                    right <= GRID_WIDTH - 2,
                    y < GRID_HEIGHT,
                    path@ == start + row_run(y, x0 + 1, x as int),
                decreases right - x,
            {
                proof {
                    lemma_push_keeps_prefix(path@, ((x + 1) as usize, y));
                }
                x += 1;
                path.push((x, y));
                proof {
                    assert(path@ =~= start + row_run(y, x0 + 1, x as int));
                }
            }
            let ghost after1 = path@;
            top += 2;
            if top > bottom {
                break;
            }
            // Move down along right
            assert(path@ =~= after1 + column_run(x, y + 1, y as int));
            let ghost y0 = y;
            while y < bottom
                invariant
                    path_prefix_ok(path@),
                    path@.last() == (x, y),
                    y0 <= y <= bottom,
                    x <= GRID_WIDTH - 2,
                    bottom < GRID_HEIGHT,
                    path@ == after1 + column_run(x, y0 + 1, y as int),
                decreases bottom - y,
            {
                proof {
                    lemma_push_keeps_prefix(path@, (x, (y + 1) as usize));
                }
                y += 1;
                path.push((x, y));
                proof {
                    assert(path@ =~= after1 + column_run(x, y0 + 1, y as int));
                }
            }
            let ghost after2 = path@;
            right = right.saturating_sub(2);
            if left > right {
                break;
            }
            // Move left along bottom
            assert(path@ =~= after2 + row_run_back(y, x - 1, x as int));
            let ghost x1 = x;
            while x > left
                invariant
                    path_prefix_ok(path@),
                    path@.last() == (x, y),
                    left <= x <= x1,
                    x1 <= GRID_WIDTH - 2,
                    y < GRID_HEIGHT,
                    path@ == after2 + row_run_back(y, x1 - 1, x as int),
                decreases x,
            {
                proof {
                    lemma_push_keeps_prefix(path@, ((x - 1) as usize, y));
                }
                x -= 1;
                path.push((x, y));
                proof {
                    assert(path@ =~= after2 + row_run_back(y, x1 - 1, x as int));
                }
            }
            let ghost after3 = path@;
            bottom = bottom.saturating_sub(2);
            if top > bottom {
                proof {
                    assert(r == 2);
                    assert(after1 == spiral_before(2) + row_run(4, 3, 12));
                }
                break;
            }
            // Move up along left
            assert(path@ =~= after3 + column_run_back(x, y - 1, y as int));
            let ghost y1 = y;
            while y > top
                invariant
                    path_prefix_ok(path@),
                    path@.last() == (x, y),
                    top <= y <= y1,
                    y1 < GRID_HEIGHT,
                    x <= GRID_WIDTH - 2,
                    path@ == after3 + column_run_back(x, y1 - 1, y as int),
                decreases y,
            {
                proof {
                    lemma_push_keeps_prefix(path@, (x, (y - 1) as usize));
                }
                y -= 1;
                path.push((x, y));
                proof {
                    assert(path@ =~= after3 + column_run_back(x, y1 - 1, y as int));
                }
            }
            left += 2;
            proof {
                assert(path@ == spiral_before(r) + spiral_round(r));
                lemma_spiral_before_step(r);
                r = r + 1;
            }
            if left > right {
                break;
            }
        }

        // Break out rightward to exit at column GRID_WIDTH-1
        let ghost looped = path@;
        assert(path@ =~= looped + row_run(6, 5, 4));
        while x < GRID_WIDTH - 1
            invariant
                path_prefix_ok(path@),
                path@.last() == (x, y),
                4 <= x <= GRID_WIDTH - 1,
                y == 6,
                path@ == looped + row_run(6, 5, x as int),
            decreases GRID_WIDTH - 1 - x,
        {
            proof {
                lemma_push_keeps_prefix(path@, ((x + 1) as usize, y));
            }
            x += 1;
            path.push((x, y));
            proof {
                assert(path@ =~= looped + row_run(6, 5, x as int));
            }
        }
        proof {
            lemma_prefix_complete(path@);
        }
        path
    }
}

/// Swapping an empty tile for a tower tile, or back, keeps a map playable.
proof fn lemma_retile_keeps_playable(m: GameMap, m2: GameMap, x: usize, y: usize)
    requires
        m.playable(),
        x < GRID_WIDTH,
        y < GRID_HEIGHT,
        m.tile(x as int, y as int) == TileType::Empty || m.tile(x as int, y as int)
            == TileType::Tower,
        m2.path@ == m.path@,
        m2.tiles@ == m.tiles@.update(tile_index(x as int, y as int), TileType::Tower)
            || m2.tiles@ == m.tiles@.update(tile_index(x as int, y as int), TileType::Empty),
    ensures
        m2.playable(),
{
    lemma_tile_index_bounds(x, y);
    assert forall|a: usize, b: usize| a < GRID_WIDTH && b < GRID_HEIGHT implies {
        let tile = #[trigger] m2.tiles@[tile_index(a as int, b as int)];
        &&& (tile == TileType::Path <==> m2.path@.contains((a, b)))
        &&& (tile is Blocked ==> !adjacent_to_path((a, b), m2.path@))
    } by {
        if tile_index(a as int, b as int) == tile_index(x as int, y as int) {
            lemma_tile_index_injective(a, b, x, y);
            let old_tile = m.tiles@[tile_index(a as int, b as int)];
            assert(old_tile != TileType::Path);
        } else {
            lemma_tile_index_bounds(a, b);
            assert(m2.tiles@[tile_index(a as int, b as int)] == m.tiles@[tile_index(a as int, b as int)]);
        }
    }
}

/// A consistent map (as generated) is playable.
pub proof fn lemma_consistent_is_playable(m: GameMap)
    requires
        m.consistent(),
    ensures
        m.playable(),
{
}

/// Placing a tower on a buildable tile and removing it again leaves the map
/// exactly as it was; while the tower stands the tile is not buildable.
pub proof fn lemma_place_then_remove(m: GameMap, placed: GameMap, removed: GameMap, x: usize, y: usize)
    requires
        m.wf(),
        x < GRID_WIDTH && y < GRID_HEIGHT && m.tile(x as int, y as int) == TileType::Empty,
        placed.tiles@ == m.tiles@.update(tile_index(x as int, y as int), TileType::Tower),
        removed.tiles@ == placed.tiles@.update(tile_index(x as int, y as int), TileType::Empty),
    ensures
        placed.tile(x as int, y as int) == TileType::Tower,
        removed.tiles@ == m.tiles@,
{
    assert(removed.tiles@ =~= m.tiles@);
}

} // verus!
