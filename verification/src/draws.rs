//! Map generation from explicit draws. Each random generator of
//! [`crate::map`] first draws its values and then hands them to a function
//! here, which builds exactly what those values call for.

use vstd::prelude::*;
use crate::map::{
    adjacent_to_path, changed_tiles, columns_at_most, in_grid, lemma_prefix_complete,
    lemma_push_column_kept, lemma_push_fresh, lemma_push_keeps_prefix, lemma_push_right_fresh,
    lemma_rightward_push, lemma_start_prefix, lemma_terrain_step, lemma_tile_index_bounds,
    no_repeats, only_terrain_added, path_prefix_ok, path_well_formed, rightward_within_rows,
    row_run, tile_index, tiles_consistent, try_vertical, vertical_ok, vertical_target, Cell,
    GameMap, TerrainType, TileType, GRID_HEIGHT, GRID_WIDTH,
};

verus! {

// ── The random walk ──

/// The draws one step of the random walk may use: the 2-in-5 coin that
/// favours a horizontal move, the even coin for a vertical run after a
/// horizontal move, and that run's length.
#[derive(Clone, Copy, Debug)]
pub struct StepDraw {
    pub horizontal: bool,
    pub run: bool,
    pub run_length: usize,
}

/// A run length is drawn from `2..5`.
pub open spec fn step_draws_in_range(s: Seq<StepDraw>) -> bool {
    forall|i: int| 0 <= i < s.len() ==> 2 <= (#[trigger] s[i]).run_length < 5
}

/// The state of the walk: the path so far, the current column and row, the
/// horizontal moves since the last vertical one, and the vertical direction
/// (`true` for increasing rows).
pub type WalkState = (Seq<Cell>, usize, usize, usize, bool);

/// The walk's first state: the start cell on the left edge.
pub open spec fn walk_start(start_y: usize, going_up: bool) -> WalkState {
    (seq![(0usize, start_y)], 0usize, start_y, 0usize, going_up)
}

/// One step from the current cell to the next row in direction `up`, which
/// ends the horizontal streak and sets the direction to `dir`.
pub open spec fn vertical_push(s: WalkState, up: bool, dir: bool) -> WalkState {
    let t = vertical_target(s.2, up);
    (s.0.push((s.1, t)), s.1, t, 0usize, dir)
}

/// A vertical run of at most `n` cells in direction `up` from row `y` of
/// column `x`; it stops at the first blocked step and then reverses the
/// direction. Gives the path, the row reached and the direction.
pub open spec fn spec_vertical_run(p: Seq<Cell>, x: usize, y: usize, up: bool, n: nat) -> (
    Seq<Cell>,
    usize,
    bool,
)
    decreases n,
{
    if n == 0 {
        (p, y, up)
    } else if vertical_ok(p, x, y, up) {
        let t = vertical_target(y, up);
        spec_vertical_run(p.push((x, t)), x, t, up, (n - 1) as nat)
    } else {
        (p, y, !up)
    }
}

/// After two horizontal moves in a row a vertical move is forced: in the
/// current direction, or else reversed. Gives the state and whether it moved.
pub open spec fn spec_forced_move(s: WalkState) -> (WalkState, bool) {
    if s.3 >= 2 {
        if vertical_ok(s.0, s.1, s.2, s.4) {
            (vertical_push(s, s.4, s.4), true)
        } else if vertical_ok(s.0, s.1, s.2, !s.4) {
            (vertical_push(s, !s.4, !s.4), true)
        } else {
            ((s.0, s.1, s.2, s.3, !s.4), false)
        }
    } else {
        (s, false)
    }
}

/// The move chosen by the draws: right (always right after a vertical move),
/// then perhaps a vertical run; otherwise a vertical step, or, where that is
/// blocked, a reversal and a step right.
pub open spec fn spec_free_move(s: WalkState, d: StepDraw) -> WalkState {
    if (d.horizontal || s.3 == 0) && s.1 + 1 < GRID_WIDTH {
        let x1 = (s.1 + 1) as usize;
        let p1 = s.0.push((x1, s.2));
        if d.run {
            let r = spec_vertical_run(p1, x1, s.2, s.4, d.run_length as nat);
            (r.0, x1, r.1, 0usize, r.2)
        } else {
            (p1, x1, s.2, (s.3 + 1) as usize, s.4)
        }
    } else if vertical_ok(s.0, s.1, s.2, s.4) {
        vertical_push(s, s.4, s.4)
    } else if s.1 + 1 < GRID_WIDTH {
        let x1 = (s.1 + 1) as usize;
        (s.0.push((x1, s.2)), x1, s.2, (s.3 + 1) as usize, !s.4)
    } else {
        (s.0, s.1, s.2, s.3, !s.4)
    }
}

/// One step of the walk.
pub open spec fn spec_walk_step(s: WalkState, d: StepDraw) -> WalkState {
    let f = spec_forced_move(s);
    if f.1 {
        f.0
    } else {
        spec_free_move(f.0, d)
    }
}

/// The walk stops once the path is longer than 150 cells or the right edge
/// is reached.
pub open spec fn walk_stops(s: WalkState) -> bool {
    s.0.len() > 150 || s.1 >= GRID_WIDTH - 1
}

/// The walk from state `s`, taking the steps from index `i` on, until it
/// stops or the steps run out.
pub open spec fn spec_walk(s: WalkState, steps: Seq<StepDraw>, i: int) -> WalkState
    decreases steps.len() - i,
{
    if 0 <= i < steps.len() {
        let s2 = spec_walk_step(s, steps[i]);
        if walk_stops(s2) {
            s2
        } else {
            spec_walk(s2, steps, i + 1)
        }
    } else {
        s
    }
}

/// The random path for the given draws: the walk, then straight right to
/// the right edge.
pub open spec fn spec_random_path(start_y: usize, going_up: bool, steps: Seq<StepDraw>) -> Seq<
    Cell,
> {
    let s = spec_walk(walk_start(start_y, going_up), steps, 0);
    s.0 + row_run(s.2, s.1 + 1, GRID_WIDTH - 1)
}

/// The path is what some draws in range give the random walk, with one step
/// draw for each of at most 150 steps.
pub open spec fn random_path_drawn(p: Seq<Cell>) -> bool {
    exists|start_y: usize, going_up: bool, steps: Seq<StepDraw>|
        2 <= start_y < GRID_HEIGHT - 2 && steps.len() == 150 && step_draws_in_range(steps) && p
            == #[trigger] spec_random_path(start_y, going_up, steps)
}

struct Walk {
    path: Vec<Cell>,
    x: usize,
    y: usize,
    streak: usize,
    going_up: bool,
}

impl Walk {
    spec fn state(&self) -> WalkState {
        (self.path@, self.x, self.y, self.streak, self.going_up)
    }
}

/// What every state of the walk keeps.
spec fn walk_ok(s: WalkState, start_y: usize) -> bool {
    &&& 1 <= s.2 <= GRID_HEIGHT - 2
    &&& s.1 <= GRID_WIDTH - 1
    &&& s.3 <= s.0.len()
    &&& s.0.len() > 0
    &&& path_prefix_ok(s.0)
    &&& s.0.last() == (s.1, s.2)
    &&& no_repeats(s.0)
    &&& rightward_within_rows(s.0)
    &&& s.0[0] == (0usize, start_y)
    &&& 2 <= start_y < GRID_HEIGHT - 2
    &&& columns_at_most(s.0, s.1)
}

proof fn lemma_vertical_push(s: WalkState, start_y: usize, up: bool, dir: bool)
    requires
        walk_ok(s, start_y),
        vertical_ok(s.0, s.1, s.2, up),
    ensures
        walk_ok(vertical_push(s, up, dir), start_y),
        walk_ok(
            (s.0.push((s.1, vertical_target(s.2, up))), s.1, vertical_target(s.2, up), s.3, dir),
            start_y,
        ),
{
    let c = (s.1, vertical_target(s.2, up));
    assert(in_grid(c));
    lemma_push_keeps_prefix(s.0, c);
    lemma_rightward_push(s.0, c);
    lemma_push_fresh(s.0, c);
    lemma_push_column_kept(s.0, s.1, c.1);
}

proof fn lemma_right_push(s: WalkState, start_y: usize, streak: usize, dir: bool)
    requires
        walk_ok(s, start_y),
        s.1 + 1 < GRID_WIDTH,
        streak <= s.0.len() + 1,
    ensures
        walk_ok((s.0.push(((s.1 + 1) as usize, s.2)), (s.1 + 1) as usize, s.2, streak, dir), start_y),
{
    let c = ((s.1 + 1) as usize, s.2);
    lemma_push_keeps_prefix(s.0, c);
    lemma_rightward_push(s.0, c);
    lemma_push_right_fresh(s.0, s.1, s.2);
    lemma_push_fresh(s.0, c);
}

fn vertical_run(w: &mut Walk, n: usize, Ghost(start_y): Ghost<usize>)
    requires
        walk_ok(old(w).state(), start_y),
        n < 5,
    ensures
        walk_ok(final(w).state(), start_y),
        (final(w).path@, final(w).y, final(w).going_up) == spec_vertical_run(
            old(w).path@,
            old(w).x,
            old(w).y,
            old(w).going_up,
            n as nat,
        ),
        final(w).x == old(w).x,
        final(w).streak == old(w).streak,
        final(w).path@.len() >= old(w).path@.len(),
        final(w).path@.len() <= old(w).path@.len() + 4,
{
    let ghost target = spec_vertical_run(w.path@, w.x, w.y, w.going_up, n as nat);
    let ghost x0 = w.x;
    let ghost st0 = w.streak;
    let ghost len0 = w.path@.len();
    let mut i: usize = 0;
    while i < n
        invariant_except_break
            spec_vertical_run(w.path@, w.x, w.y, w.going_up, (n - i) as nat) == target,
        invariant
            i <= n,
            n < 5,
            walk_ok(w.state(), start_y),
            w.x == x0,
            w.streak == st0,
            len0 <= w.path@.len() <= len0 + i,
        ensures
            walk_ok(w.state(), start_y),
            w.x == x0,
            w.streak == st0,
            len0 <= w.path@.len() <= len0 + 4,
            (w.path@, w.y, w.going_up) == target,
        decreases n - i,
    {
        match try_vertical(&w.path, w.x, w.y, w.going_up) {
            Some(t) => {
                proof {
                    lemma_vertical_push(w.state(), start_y, w.going_up, w.going_up);
                }
                let x = w.x;
                w.path.push((x, t));
                w.y = t;
            },
            None => {
                w.going_up = !w.going_up;
                break ;
            },
        }
        i += 1;
    }
}

fn walk_step(w: &mut Walk, d: StepDraw, Ghost(start_y): Ghost<usize>)
    requires
        walk_ok(old(w).state(), start_y),
        old(w).x < GRID_WIDTH - 1,
        old(w).path@.len() <= 150,
        d.run_length < 5,
    ensures
        walk_ok(final(w).state(), start_y),
        final(w).state() == spec_walk_step(old(w).state(), d),
        final(w).path@.len() > old(w).path@.len(),
{
    let ghost s0 = w.state();
    let mut moved = false;
    if w.streak >= 2 {
        match try_vertical(&w.path, w.x, w.y, w.going_up) {
            Some(t) => {
                proof {
                    lemma_vertical_push(w.state(), start_y, w.going_up, w.going_up);
                }
                let x = w.x;
                w.path.push((x, t));
                w.y = t;
                w.streak = 0;
                moved = true;
            },
            None => {
                w.going_up = !w.going_up;
                match try_vertical(&w.path, w.x, w.y, w.going_up) {
                    Some(t) => {
                        proof {
                            lemma_vertical_push(w.state(), start_y, w.going_up, w.going_up);
                        }
                        let x = w.x;
                        w.path.push((x, t));
                        w.y = t;
                        w.streak = 0;
                        moved = true;
                    },
                    None => {},
                }
            },
        }
    }
    assert(spec_forced_move(s0) == (w.state(), moved));
    if !moved {
        let ghost s1 = w.state();
        let move_horizontal = d.horizontal || w.streak == 0;
        if move_horizontal && w.x + 1 < GRID_WIDTH {
            proof {
                lemma_right_push(w.state(), start_y, (w.streak + 1) as usize, w.going_up);
            }
            w.x = w.x + 1;
            let (x, y) = (w.x, w.y);
            w.path.push((x, y));
            w.streak = w.streak + 1;
            if d.run {
                vertical_run(w, d.run_length, Ghost(start_y));
                w.streak = 0;
            }
        } else {
            match try_vertical(&w.path, w.x, w.y, w.going_up) {
                Some(t) => {
                    proof {
                        lemma_vertical_push(w.state(), start_y, w.going_up, w.going_up);
                    }
                    let x = w.x;
                    w.path.push((x, t));
                    w.y = t;
                    w.streak = 0;
                },
                None => {
                    w.going_up = !w.going_up;
                    if w.x + 1 < GRID_WIDTH {
                        proof {
                            lemma_right_push(w.state(), start_y, (w.streak + 1) as usize, w.going_up);
                        }
                        w.x = w.x + 1;
                        let (x, y) = (w.x, w.y);
                        w.path.push((x, y));
                        w.streak = w.streak + 1;
                    }
                },
            }
        }
        assert(w.state() == spec_free_move(s1, d));
    }
}

/// The random path that the given draws call for: it starts at row
/// `start_y` of the left edge, moves in steps as `spec_walk_step` describes
/// (at most two horizontal moves in a row, a horizontal move with a 2-in-5
/// chance otherwise, vertical runs of the drawn length that reverse at the
/// edges or at visited cells), stops after 150 cells or at the right edge,
/// and then goes straight right to the right edge. It never visits a cell
/// twice. With at least 150 step draws the walk always ends by its own rule.
#[verifier::rlimit(40)]
pub fn random_path_from_draws(start_y: usize, going_up: bool, steps: &Vec<StepDraw>) -> (path: Vec<
    Cell,
>)
    requires
        2 <= start_y < GRID_HEIGHT - 2,
        step_draws_in_range(steps@),
    ensures
        path@ == spec_random_path(start_y, going_up, steps@),
        path_well_formed(path@),
        no_repeats(path@),
        rightward_within_rows(path@),
        path@[0] == (0usize, start_y),
        steps@.len() >= 150 ==> walk_stops(spec_walk(walk_start(start_y, going_up), steps@, 0)),
{
    let mut path: Vec<Cell> = Vec::with_capacity(120);
    path.push((0, start_y));
    let mut w = Walk { path, x: 0, y: start_y, streak: 0, going_up };
    proof {
        lemma_start_prefix(start_y);
        assert(w.path@ =~= seq![(0usize, start_y)]);
        reveal(rightward_within_rows);
        assert(w.state() == walk_start(start_y, going_up));
    }
    let ghost target = spec_walk(walk_start(start_y, going_up), steps@, 0);
    let mut i: usize = 0;
    while i < steps.len()
        invariant_except_break
            w.x < GRID_WIDTH - 1,
            w.path@.len() <= 150,
            spec_walk(w.state(), steps@, i as int) == target,
        invariant
            i <= steps@.len(),
            step_draws_in_range(steps@),
            walk_ok(w.state(), start_y),
            w.path@.len() >= i + 1,
        ensures
            walk_ok(w.state(), start_y),
            w.state() == target,
            steps@.len() >= 150 ==> walk_stops(w.state()),
        decreases steps@.len() - i,
    {
        let d = steps[i];
        walk_step(&mut w, d, Ghost(start_y));
        if w.path.len() > 150 || w.x >= GRID_WIDTH - 1 {
            break ;
        }
        i += 1;
    }
    let ghost sf = w.state();
    proof {
        assert(w.path@ =~= sf.0 + row_run(sf.2, sf.1 + 1, w.x as int));
    }
    while w.x < GRID_WIDTH - 1
        invariant
            walk_ok(w.state(), start_y),
            sf.1 <= w.x,
            w.y == sf.2,
            w.path@ == sf.0 + row_run(sf.2, sf.1 + 1, w.x as int),
        decreases GRID_WIDTH - 1 - w.x,
    {
        proof {
            lemma_right_push(w.state(), start_y, w.streak, w.going_up);
        }
        let ghost before = w.path@;
        w.x = w.x + 1;
        let (x, y) = (w.x, w.y);
        w.path.push((x, y));
        proof {
            assert(row_run(sf.2, sf.1 + 1, w.x as int) =~= row_run(sf.2, sf.1 + 1, w.x - 1).push(
                (x, y),
            ));
            assert(w.path@ =~= sf.0 + row_run(sf.2, sf.1 + 1, w.x as int));
        }
    }
    proof {
        lemma_prefix_complete(w.path@);
    }
    w.path
}

// ── The sprint path ──

/// The draws of one sprint segment: how far it runs right, how many rows it
/// jogs, and the even coin for the jog's direction where both are allowed.
#[derive(Clone, Copy, Debug)]
pub struct SprintDraw {
    pub run: usize,
    pub jog: usize,
    pub down: bool,
}

/// A run is drawn from `2..5`, a jog from `1..3`.
pub open spec fn sprint_draws_in_range(s: Seq<SprintDraw>) -> bool {
    forall|i: int|
        0 <= i < s.len() ==> 2 <= (#[trigger] s[i]).run < 5 && 1 <= s[i].jog < 3
}

/// The state of the sprint path: the path so far and the current column and
/// row.
pub type SprintState = (Seq<Cell>, usize, usize);

/// A jog of `n` single-row steps in one direction (`down` for increasing
/// rows) in column `x`; a step that would reach the top or bottom row is
/// skipped. Gives the path and the row reached.
pub open spec fn spec_jog(p: Seq<Cell>, x: usize, y: usize, down: bool, n: nat) -> (
    Seq<Cell>,
    usize,
)
    decreases n,
{
    if n == 0 {
        (p, y)
    } else {
        let ny: int = if down {
            y + 1
        } else {
            y - 1
        };
        if 0 < ny < GRID_HEIGHT - 1 {
            spec_jog(p.push((x, ny as usize)), x, ny as usize, down, (n - 1) as nat)
        } else {
            spec_jog(p, x, y, down, (n - 1) as nat)
        }
    }
}

/// One segment: run right by the drawn length (cut at the right edge); then,
/// unless the edge is reached, jog. Near the top the jog goes down, near the
/// bottom it goes up, and elsewhere the coin decides.
pub open spec fn spec_sprint_segment(s: SprintState, d: SprintDraw) -> SprintState {
    let run: int = if d.run < GRID_WIDTH - 1 - s.1 {
        d.run as int
    } else {
        GRID_WIDTH - 1 - s.1
    };
    let x1 = s.1 + run;
    let p1 = s.0 + row_run(s.2, s.1 + 1, x1);
    if x1 >= GRID_WIDTH - 1 {
        (p1, x1 as usize, s.2)
    } else {
        let down = if s.2 <= 2 {
            true
        } else if s.2 >= GRID_HEIGHT - 3 {
            false
        } else {
            d.down
        };
        let j = spec_jog(p1, x1 as usize, s.2, down, d.jog as nat);
        (j.0, x1 as usize, j.1)
    }
}

/// The segments from index `i` on, until the right edge is reached or the
/// draws run out.
pub open spec fn spec_sprint(s: SprintState, draws: Seq<SprintDraw>, i: int) -> SprintState
    decreases draws.len() - i,
{
    if 0 <= i < draws.len() {
        let s2 = spec_sprint_segment(s, draws[i]);
        if s2.1 >= GRID_WIDTH - 1 {
            s2
        } else {
            spec_sprint(s2, draws, i + 1)
        }
    } else {
        s
    }
}

/// The sprint path for the given draws, from the middle of the left edge.
pub open spec fn spec_sprint_path(draws: Seq<SprintDraw>) -> Seq<Cell> {
    spec_sprint((seq![(0usize, GRID_HEIGHT / 2)], 0usize, GRID_HEIGHT / 2), draws, 0).0
}

/// The number of segment draws that always suffices: every segment but the
/// last advances at least two columns.
pub const SPRINT_SEGMENTS: usize = 9;

/// The path is what some segment draws in range give the sprint generator.
pub open spec fn sprint_path_drawn(p: Seq<Cell>) -> bool {
    exists|draws: Seq<SprintDraw>|
        draws.len() == SPRINT_SEGMENTS && sprint_draws_in_range(draws) && p
            == #[trigger] spec_sprint_path(draws)
}

/// The sprint path that the given segment draws call for. The right edge is
/// always reached within nine segments.
pub fn sprint_path_from_draws(draws: &Vec<SprintDraw>) -> (path: Vec<Cell>)
    requires
        draws@.len() >= SPRINT_SEGMENTS,
        sprint_draws_in_range(draws@),
    ensures
        path@ == spec_sprint_path(draws@),
        path_well_formed(path@),
        path@[0] == (0usize, GRID_HEIGHT / 2),
        rightward_within_rows(path@),
{
    let mut path: Vec<Cell> = Vec::with_capacity(40);
    let mut y: usize = GRID_HEIGHT / 2;
    let mut x: usize = 0;
    path.push((x, y));
    proof {
        lemma_start_prefix(y);
        assert(path@ =~= seq![(0usize, y)]);
        reveal(rightward_within_rows);
    }
    let ghost target = spec_sprint((path@, x, y), draws@, 0);
    let mut i: usize = 0;
    while x < GRID_WIDTH - 1
        invariant
            x <= GRID_WIDTH - 1,
            x < GRID_WIDTH - 1 ==> x >= 2 * i,
            draws@.len() >= SPRINT_SEGMENTS,
            sprint_draws_in_range(draws@),
            1 <= y <= GRID_HEIGHT - 2,
            path_prefix_ok(path@),
            path@.last() == (x, y),
            path@.len() > 0,
            path@[0] == (0usize, GRID_HEIGHT / 2),
            rightward_within_rows(path@),
            x < GRID_WIDTH - 1 ==> spec_sprint((path@, x, y), draws@, i as int) == target,
            x >= GRID_WIDTH - 1 ==> (path@, x, y) == target,
        decreases GRID_WIDTH - 1 - x,
    {
        let d = draws[i];
        let ghost s0 = (path@, x, y);
        // Move right 2-4 columns
        let run = if d.run < GRID_WIDTH - 1 - x {
            d.run
        } else {
            GRID_WIDTH - 1 - x
        };
        let mut k: usize = 0;
        let x0 = x;
        while k < run
            invariant
                k <= run,
                x == x0 + k,
                x0 + run <= GRID_WIDTH - 1,
                1 <= y <= GRID_HEIGHT - 2,
                y == s0.2,
                path_prefix_ok(path@),
                path@.last() == (x, y),
                path@.len() > 0,
                path@[0] == (0usize, GRID_HEIGHT / 2),
                rightward_within_rows(path@),
                path@ == s0.0 + row_run(y, x0 + 1, x as int),
            decreases run - k,
        {
            proof {
                lemma_push_keeps_prefix(path@, ((x + 1) as usize, y));
                lemma_rightward_push(path@, ((x + 1) as usize, y));
            }
            x += 1;
            path.push((x, y));
            proof {
                assert(row_run(y, x0 + 1, x as int) =~= row_run(y, x0 + 1, x - 1).push((x, y)));
            }
            k += 1;
        }
        if x < GRID_WIDTH - 1 {
            // Small vertical jog of 1-2 tiles
            let down = if y <= 2 {
                true  // must go down

            } else if y >= GRID_HEIGHT - 3 {
                false  // must go up

            } else {
                d.down
            };
            let ghost jt = spec_jog(path@, x, y, down, d.jog as nat);
            let mut j: usize = 0;
            while j < d.jog
                invariant
                    j <= d.jog,
                    x < GRID_WIDTH - 1,
                    1 <= y <= GRID_HEIGHT - 2,
                    path_prefix_ok(path@),
                    path@.last() == (x, y),
                    path@.len() > 0,
                    path@[0] == (0usize, GRID_HEIGHT / 2),
                    rightward_within_rows(path@),
                    spec_jog(path@, x, y, down, (d.jog - j) as nat) == jt,
                decreases d.jog - j,
            {
                let new_y = if down {
                    y + 1
                } else {
                    y - 1
                };
                if new_y > 0 && new_y < GRID_HEIGHT - 1 {
                    proof {
                        lemma_push_keeps_prefix(path@, (x, new_y));
                        lemma_rightward_push(path@, (x, new_y));
                    }
                    y = new_y;
                    path.push((x, y));
                }
                j += 1;
            }
        }
        assert((path@, x, y) == spec_sprint_segment(s0, d));
        i += 1;
    }
    proof {
        lemma_prefix_complete(path@);
    }
    path
}

// ── Terrain obstacles ──

/// The draws of one terrain cluster: its centre, its terrain, how many tiles
/// it tries to fill, and the offsets of its attempts, each coordinate in
/// `0..5` standing for `-2..=2`.
#[derive(Debug)]
pub struct ClusterDraw {
    pub center_x: usize,
    pub center_y: usize,
    pub terrain: TerrainType,
    pub size: usize,
    pub offsets: Vec<(usize, usize)>,
}

/// The draws of one scattered obstacle: its cell and terrain.
#[derive(Clone, Copy, Debug)]
pub struct ScatterDraw {
    pub x: usize,
    pub y: usize,
    pub terrain: TerrainType,
}

/// Fifty attempts at most per cluster.
pub const CLUSTER_ATTEMPTS: usize = 50;

/// Between two and five clusters; each centre away from the edges, a size
/// in `3..9`, and one offset pair in `0..5` for each attempt.
pub open spec fn cluster_draws_in_range(cs: Seq<ClusterDraw>) -> bool {
    &&& 2 <= cs.len() < 6
    &&& forall|i: int|
        0 <= i < cs.len() ==> {
            let c = #[trigger] cs[i];
            &&& 2 <= c.center_x < GRID_WIDTH - 2
            &&& 1 <= c.center_y < GRID_HEIGHT - 1
            &&& 3 <= c.size < 9
            &&& c.offsets@.len() == CLUSTER_ATTEMPTS
            &&& forall|k: int|
                0 <= k < CLUSTER_ATTEMPTS ==> (#[trigger] c.offsets@[k]).0 < 5 && c.offsets@[k].1
                    < 5
        }
}

/// Between six and eleven scattered obstacles, each on the grid.
pub open spec fn scatter_draws_in_range(ss: Seq<ScatterDraw>) -> bool {
    &&& 6 <= ss.len() < 12
    &&& forall|i: int| 0 <= i < ss.len() ==> (#[trigger] ss[i]).x < GRID_WIDTH && ss[i].y < GRID_HEIGHT
}

/// Terrain may go on `(x, y)`: on the grid, empty, off the path and not
/// next to it.
pub open spec fn block_allowed(t: Seq<TileType>, p: Seq<Cell>, x: int, y: int) -> bool {
    &&& 0 <= x < GRID_WIDTH
    &&& 0 <= y < GRID_HEIGHT
    &&& !p.contains((x as usize, y as usize))
    &&& !adjacent_to_path((x as usize, y as usize), p)
    &&& t[tile_index(x, y)] == TileType::Empty
}

/// The tiles after trying to put terrain on `(x, y)`.
pub open spec fn spec_block(t: Seq<TileType>, p: Seq<Cell>, x: int, y: int, terrain: TerrainType) -> Seq<
    TileType,
> {
    if block_allowed(t, p, x, y) {
        t.update(tile_index(x, y), TileType::Blocked(terrain))
    } else {
        t
    }
}

/// A cluster's attempts from attempt `k` on, with `placed` tiles filled so
/// far: it stops once `size` tiles are filled or the attempts are used up.
pub open spec fn spec_cluster(t: Seq<TileType>, p: Seq<Cell>, c: ClusterDraw, placed: int, k: int) -> Seq<
    TileType,
>
    decreases CLUSTER_ATTEMPTS - k,
{
    if placed < c.size && 0 <= k < CLUSTER_ATTEMPTS && k < c.offsets@.len() {
        let o = c.offsets@[k];
        let tx = c.center_x + o.0 - 2;
        let ty = c.center_y + o.1 - 2;
        if tx >= 0 && ty >= 0 && block_allowed(t, p, tx, ty) {
            spec_cluster(
                t.update(tile_index(tx, ty), TileType::Blocked(c.terrain)),
                p,
                c,
                placed + 1,
                k + 1,
            )
        } else {
            spec_cluster(t, p, c, placed, k + 1)
        }
    } else {
        t
    }
}

/// The clusters from index `i` on.
pub open spec fn spec_clusters(t: Seq<TileType>, p: Seq<Cell>, cs: Seq<ClusterDraw>, i: int) -> Seq<
    TileType,
>
    decreases cs.len() - i,
{
    if 0 <= i < cs.len() {
        spec_clusters(spec_cluster(t, p, cs[i], 0, 0), p, cs, i + 1)
    } else {
        t
    }
}

/// The scattered obstacles from index `i` on.
pub open spec fn spec_scatter(t: Seq<TileType>, p: Seq<Cell>, ss: Seq<ScatterDraw>, i: int) -> Seq<
    TileType,
>
    decreases ss.len() - i,
{
    if 0 <= i < ss.len() {
        spec_scatter(spec_block(t, p, ss[i].x as int, ss[i].y as int, ss[i].terrain), p, ss, i + 1)
    } else {
        t
    }
}

/// The tiles after the clusters and then the scattered obstacles.
pub open spec fn spec_obstacles(
    t: Seq<TileType>,
    p: Seq<Cell>,
    cs: Seq<ClusterDraw>,
    ss: Seq<ScatterDraw>,
) -> Seq<TileType> {
    spec_scatter(spec_clusters(t, p, cs, 0), p, ss, 0)
}

/// `after` is what some draws in range make of `before`.
pub open spec fn obstacles_drawn(before: Seq<TileType>, after: Seq<TileType>, p: Seq<Cell>) -> bool {
    exists|cs: Seq<ClusterDraw>, ss: Seq<ScatterDraw>|
        cluster_draws_in_range(cs) && scatter_draws_in_range(ss) && after
            == #[trigger] spec_obstacles(before, p, cs, ss)
}

/// Puts the terrain that the given draws call for: each cluster tries its
/// offsets around its centre until `size` tiles are filled or its attempts
/// are used up, then each scattered obstacle is tried once. Terrain goes only
/// on empty tiles off the path and not next to it.
#[verifier::rlimit(30)]
pub fn place_obstacles(
    tiles: &mut Vec<TileType>,
    path: &Vec<Cell>,
    clusters: &Vec<ClusterDraw>,
    scattered: &Vec<ScatterDraw>,
)
    requires
        tiles_consistent(old(tiles)@, path@),
        cluster_draws_in_range(clusters@),
        scatter_draws_in_range(scattered@),
    ensures
        final(tiles)@ == spec_obstacles(old(tiles)@, path@, clusters@, scattered@),
        tiles_consistent(final(tiles)@, path@),
        only_terrain_added(old(tiles)@, final(tiles)@),
        changed_tiles(old(tiles)@, final(tiles)@).len() <= 5 * 8 + 11,
{
    let ghost orig = tiles@;
    let ghost target = spec_obstacles(orig, path@, clusters@, scattered@);
    proof {
        assert(changed_tiles(orig, tiles@) =~= Set::empty());
    }
    let mut c: usize = 0;
    while c < clusters.len()
        invariant
            tiles_consistent(tiles@, path@),
            only_terrain_added(orig, tiles@),
            c <= clusters@.len() <= 5,
            cluster_draws_in_range(clusters@),
            changed_tiles(orig, tiles@).len() <= c * 8,
            spec_clusters(tiles@, path@, clusters@, c as int) == spec_clusters(
                orig,
                path@,
                clusters@,
                0,
            ),
        decreases clusters@.len() - c,
    {
        let cd = &clusters[c];
        assert(cd.offsets@.len() == CLUSTER_ATTEMPTS);
        let ghost ct = spec_cluster(tiles@, path@, *cd, 0, 0);
        let mut placed: usize = 0;
        let mut attempts: usize = 0;
        while placed < cd.size && attempts < CLUSTER_ATTEMPTS
            invariant
                tiles_consistent(tiles@, path@),
                only_terrain_added(orig, tiles@),
                cd == clusters@[c as int],
                c < clusters@.len() <= 5,
                cluster_draws_in_range(clusters@),
                placed <= cd.size <= 8,
                attempts <= CLUSTER_ATTEMPTS,
                changed_tiles(orig, tiles@).len() <= c * 8 + placed,
                spec_cluster(tiles@, path@, *cd, placed as int, attempts as int) == ct,
            decreases CLUSTER_ATTEMPTS - attempts,
        {
            let (ox, oy) = cd.offsets[attempts];
            assert(ox < 5 && oy < 5);
            if cd.center_x + ox >= 2 && cd.center_y + oy >= 2 {
                let tx = cd.center_x + ox - 2;
                let ty = cd.center_y + oy - 2;
                let ghost before = tiles@;
                if GameMap::try_block(tiles, path, tx, ty, cd.terrain) {
                    proof {
                        lemma_tile_index_bounds(tx, ty);
                        lemma_terrain_step(
                            orig,
                            before,
                            tiles@,
                            tile_index(tx as int, ty as int),
                            cd.terrain,
                        );
                    }
                    placed += 1;
                }
            }
            attempts += 1;
        }
        c += 1;
    }
    let ghost after_clusters = tiles@;
    let mut s: usize = 0;
    while s < scattered.len()
        invariant
            tiles_consistent(tiles@, path@),
            only_terrain_added(orig, tiles@),
            s <= scattered@.len() <= 11,
            scatter_draws_in_range(scattered@),
            changed_tiles(orig, tiles@).len() <= 5 * 8 + s,
            spec_scatter(tiles@, path@, scattered@, s as int) == spec_scatter(
                after_clusters,
                path@,
                scattered@,
                0,
            ),
        decreases scattered@.len() - s,
    {
        let d = scattered[s];
        let ghost before = tiles@;
        let done = GameMap::try_block(tiles, path, d.x, d.y, d.terrain);
        proof {
            if done {
                lemma_tile_index_bounds(d.x, d.y);
                lemma_terrain_step(orig, before, tiles@, tile_index(d.x as int, d.y as int), d.terrain);
            }
        }
        s += 1;
    }
}

} // verus!
