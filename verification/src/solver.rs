//! Step map: a flood-fill distance field over the maze, recomputed from
//! scratch by full-grid relaxation passes, plus the move decision that picks
//! the open neighbor with the smallest distance.
//!
//! The contract of `calc_step_map` pins the resulting grid down uniquely: the
//! goal is zero, every value is relaxed (no cell exceeds an open neighbor
//! plus one) and every finite value is supported (it equals some open
//! neighbor plus one). Any two grids with these properties are equal
//! (`lemma_step_map_unique`), which is how determinism of the computation is
//! stated and proved.

use vstd::prelude::*;

use crate::maze::{
    area, grid_mirrored, has_neighbor, idx, in_range, lemma_mirrored_wall, neighbor_col,
    neighbor_row, order_dir, size, tozainanboku, Cell, Direction, Maze, MazeInfo, Wall, MAZE_SIZE,
};

verus! {

/// Sentinel distance meaning "unreached so far / unreachable". It exceeds the
/// largest possible true distance (area() - 1) and sits one below the u16
/// maximum so that sentinel + 1 still fits in a u16.
pub const STEP_SENTINEL: u16 = 0xFFFE;

/// How the flood fill treats an Unexplored wall.
#[derive(Clone, Copy, PartialEq, Eq, Structural)]
pub enum StepMapMode {
    /// Optimistic: Absent and Unexplored both permit crossing (used during
    /// live exploration).
    UnexploredAsAbsent,
    /// Conservative: only Absent permits crossing (used on complete
    /// knowledge or against the ground truth).
    UnexploredAsPresent,
}

/// Whether a wall in state `w` permits crossing under `mode`.
pub open spec fn wall_allows(mode: StepMapMode, w: Wall) -> bool {
    match mode {
        StepMapMode::UnexploredAsAbsent => w == Wall::Absent || w == Wall::Unexplored,
        StepMapMode::UnexploredAsPresent => w == Wall::Absent,
    }
}

/// Whether the flood fill may cross from (r, c) in direction `d`: the cell's
/// own wall on that side permits it under `mode` and a neighbor exists.
pub open spec fn open_dir(g: Seq<Cell>, mode: StepMapMode, r: int, c: int, d: Direction) -> bool {
    has_neighbor(r, c, d) && wall_allows(mode, g[idx(r, c)].wall(d))
}

/// The step value of the neighbor of (r, c) in direction `d`.
pub open spec fn neighbor_step(s: Seq<u16>, r: int, c: int, d: Direction) -> u16 {
    s[idx(neighbor_row(r, d), neighbor_col(c, d))]
}

/// Relaxation in direction `d` has converged at (r, c): if that side is open,
/// the cell's value is at most the neighbor's value plus one.
pub open spec fn dir_relaxed(
    s: Seq<u16>,
    g: Seq<Cell>,
    mode: StepMapMode,
    r: int,
    c: int,
    d: Direction,
) -> bool {
    open_dir(g, mode, r, c, d) ==> s[idx(r, c)] <= neighbor_step(s, r, c, d) + 1
}

/// Relaxation has converged at (r, c) in all four directions.
pub open spec fn relaxed_cell(s: Seq<u16>, g: Seq<Cell>, mode: StepMapMode, r: int, c: int) -> bool {
    &&& dir_relaxed(s, g, mode, r, c, Direction::East)
    &&& dir_relaxed(s, g, mode, r, c, Direction::West)
    &&& dir_relaxed(s, g, mode, r, c, Direction::South)
    &&& dir_relaxed(s, g, mode, r, c, Direction::North)
}

/// The value at (r, c) is exactly one more than the open neighbor in
/// direction `d`.
pub open spec fn support_via(
    s: Seq<u16>,
    g: Seq<Cell>,
    mode: StepMapMode,
    r: int,
    c: int,
    d: Direction,
) -> bool {
    open_dir(g, mode, r, c, d) && neighbor_step(s, r, c, d) + 1 == s[idx(r, c)]
}

/// The value at (r, c) is one more than some open neighbor's value.
pub open spec fn supported_cell(s: Seq<u16>, g: Seq<Cell>, mode: StepMapMode, r: int, c: int) -> bool {
    ||| support_via(s, g, mode, r, c, Direction::East)
    ||| support_via(s, g, mode, r, c, Direction::West)
    ||| support_via(s, g, mode, r, c, Direction::South)
    ||| support_via(s, g, mode, r, c, Direction::North)
}

/// Some open neighbor of (r, c) holds a strictly smaller value.
pub open spec fn weak_support_via(
    s: Seq<u16>,
    g: Seq<Cell>,
    mode: StepMapMode,
    r: int,
    c: int,
    d: Direction,
) -> bool {
    open_dir(g, mode, r, c, d) && neighbor_step(s, r, c, d) < s[idx(r, c)]
}

/// The value at (r, c) exceeds some open neighbor's value.
pub open spec fn weakly_supported_cell(
    s: Seq<u16>,
    g: Seq<Cell>,
    mode: StepMapMode,
    r: int,
    c: int,
) -> bool {
    ||| weak_support_via(s, g, mode, r, c, Direction::East)
    ||| weak_support_via(s, g, mode, r, c, Direction::West)
    ||| weak_support_via(s, g, mode, r, c, Direction::South)
    ||| weak_support_via(s, g, mode, r, c, Direction::North)
}

/// Every entry of the step grid is at most the sentinel.
pub open spec fn sentinel_bounded(s: Seq<u16>) -> bool {
    forall|p: int| 0 <= p < s.len() ==> #[trigger] s[p] <= STEP_SENTINEL
}

/// Every finite non-goal entry exceeds some open neighbor's value.
pub open spec fn weakly_supported_all(
    s: Seq<u16>,
    g: Seq<Cell>,
    mode: StepMapMode,
    gr: int,
    gc: int,
) -> bool {
    forall|r: int, c: int|
        in_range(r, c) && !(r == gr && c == gc) && s[idx(r, c)] < STEP_SENTINEL
            ==> #[trigger] weakly_supported_cell(s, g, mode, r, c)
}

/// What `calc_step_map` establishes: the goal cell is zero, all values are
/// bounded by the sentinel, relaxation has converged everywhere, and every
/// finite non-goal value is one more than some open neighbor's value. These
/// properties determine the grid uniquely (`lemma_step_map_unique`): it is
/// the unweighted shortest-path distance from the goal, with the sentinel at
/// unreachable cells.
pub open spec fn step_map_post(
    s: Seq<u16>,
    g: Seq<Cell>,
    mode: StepMapMode,
    gr: int,
    gc: int,
) -> bool {
    &&& s.len() == area()
    &&& s[idx(gr, gc)] == 0
    &&& sentinel_bounded(s)
    &&& forall|r: int, c: int| in_range(r, c) ==> #[trigger] relaxed_cell(s, g, mode, r, c)
    &&& forall|r: int, c: int|
        in_range(r, c) && !(r == gr && c == gc) && s[idx(r, c)] < STEP_SENTINEL
            ==> #[trigger] supported_cell(s, g, mode, r, c)
}


/// Sum of all entries of the step grid; the termination measure of the
/// relaxation: every accepted update strictly decreases it.
spec fn grid_total(s: Seq<u16>) -> int
    decreases s.len(),
{
    if s.len() == 0 {
        0
    } else {
        grid_total(s.drop_last()) + s.last()
    }
}

proof fn lemma_grid_total_nonneg(s: Seq<u16>)
    ensures
        grid_total(s) >= 0,
    decreases s.len(),
{
    if s.len() > 0 {
        lemma_grid_total_nonneg(s.drop_last());
    }
}

proof fn lemma_grid_total_update(s: Seq<u16>, i: int, v: u16)
    requires
        0 <= i < s.len(),
    ensures
        grid_total(s.update(i, v)) == grid_total(s) - s[i] + v,
    decreases s.len(),
{
    let s2 = s.update(i, v);
    if i == s.len() - 1 {
        assert(s2.drop_last() =~= s.drop_last());
        assert(s2.last() == v);
    } else {
        assert(s2.drop_last() =~= s.drop_last().update(i, v));
        lemma_grid_total_update(s.drop_last(), i, v);
        assert(s2.last() == s.last());
    }
}

/// Lexicographic order on the relaxation pass's (row, col, direction-index)
/// iteration.
spec fn pass_before(r: int, c: int, m: int, i: int, j: int, k: int) -> bool {
    r < i || (r == i && c < j) || (r == i && c == j && m < k)
}

/// All relaxation checks strictly before (i, j, k) in this pass's iteration
/// order hold of the current grid.
spec fn prefix_relaxed(
    s: Seq<u16>,
    g: Seq<Cell>,
    mode: StepMapMode,
    i: int,
    j: int,
    k: int,
) -> bool {
    forall|r: int, c: int, m: int|
        in_range(r, c) && 0 <= m < 4 && pass_before(r, c, m, i, j, k) ==> #[trigger] dir_relaxed(
            s,
            g,
            mode,
            r,
            c,
            order_dir(m),
        )
}

/// After a cell is lowered, weak support still holds everywhere: the updated
/// cell was given a fresh witness by the caller, and every other cell's
/// witness value can only have decreased.
proof fn lemma_weak_support_monotone(
    s1: Seq<u16>,
    s2: Seq<u16>,
    g: Seq<Cell>,
    mode: StepMapMode,
    gr: int,
    gc: int,
    ui: int,
    uj: int,
    v: u16,
)
    requires
        s1.len() == area(),
        in_range(ui, uj),
        s2 == s1.update(idx(ui, uj), v),
        v < s1[idx(ui, uj)],
        weakly_supported_all(s1, g, mode, gr, gc),
        weakly_supported_cell(s2, g, mode, ui, uj),
    ensures
        weakly_supported_all(s2, g, mode, gr, gc),
{
    assert forall|r: int, c: int|
        in_range(r, c) && !(r == gr && c == gc) && s2[idx(r, c)] < STEP_SENTINEL
            implies #[trigger] weakly_supported_cell(s2, g, mode, r, c) by {
        if r == ui && c == uj {
        } else {
            assert(idx(r, c) != idx(ui, uj));
            assert(s2[idx(r, c)] == s1[idx(r, c)]);
            assert(weakly_supported_cell(s1, g, mode, r, c));
            if weak_support_via(s1, g, mode, r, c, Direction::East) {
                assert(weak_support_via(s2, g, mode, r, c, Direction::East));
            } else if weak_support_via(s1, g, mode, r, c, Direction::West) {
                assert(weak_support_via(s2, g, mode, r, c, Direction::West));
            } else if weak_support_via(s1, g, mode, r, c, Direction::South) {
                assert(weak_support_via(s2, g, mode, r, c, Direction::South));
            } else {
                assert(weak_support_via(s2, g, mode, r, c, Direction::North));
            }
        }
    }
}

/// Whether a wall in state `wall` permits crossing under `mode`.
fn no_wall_present(mode: StepMapMode, wall: Wall) -> (b: bool)
    ensures
        b == wall_allows(mode, wall),
{
    match mode {
        StepMapMode::UnexploredAsAbsent => wall == Wall::Absent || wall == Wall::Unexplored,
        StepMapMode::UnexploredAsPresent => wall == Wall::Absent,
    }
}

/// The step map: an N x N grid of distances from a goal.
pub type StepMap = MazeInfo<u16>;

impl MazeInfo<u16> {
    /// A step map with every entry zero.
    pub fn new() -> (r: Self)
        ensures
            r.wf(),
            forall|p: int| 0 <= p < r.grid@.len() ==> #[trigger] r.grid@[p] == 0u16,
    {
        let mut grid: Vec<u16> = Vec::new();
        for i in 0..MAZE_SIZE
            invariant
                grid@.len() == 16 * i,
                forall|p: int| 0 <= p < grid@.len() ==> #[trigger] grid@[p] == 0u16,
        {
            for j in 0..MAZE_SIZE
                invariant
                    grid@.len() == 16 * i + j,
                    i < MAZE_SIZE,
                    forall|p: int| 0 <= p < grid@.len() ==> #[trigger] grid@[p] == 0u16,
            {
                grid.push(0);
            }
        }
        MazeInfo { grid }
    }

    /// Recomputes the distance field from scratch: every cell starts at the
    /// sentinel, the goal is set to zero, and full-grid relaxation passes
    /// repeat until a pass changes nothing.
    pub fn calc_step_map(
        &mut self,
        maze: &Maze,
        mode: StepMapMode,
        goal_row: usize,
        goal_col: usize,
    )
        requires
            old(self).wf(),
            maze.wf(),
            goal_row < MAZE_SIZE,
            goal_col < MAZE_SIZE,
        ensures
            final(self).wf(),
            step_map_post(
                final(self).grid@,
                maze.grid@,
                mode,
                goal_row as int,
                goal_col as int,
            ),
    {
        let ghost g = maze.grid@;
        let ghost gr = goal_row as int;
        let ghost gc = goal_col as int;

        for i in 0..MAZE_SIZE
            invariant
                self.wf(),
                forall|p: int| 0 <= p < 16 * i ==> #[trigger] self.grid@[p] == STEP_SENTINEL,
        {
            for j in 0..MAZE_SIZE
                invariant
                    self.wf(),
                    i < MAZE_SIZE,
                    forall|p: int|
                        0 <= p < 16 * i + j ==> #[trigger] self.grid@[p] == STEP_SENTINEL,
            {
                *self.get_mut(i, j) = STEP_SENTINEL;
            }
        }

        *self.get_mut(goal_row, goal_col) = 0;

        loop
            invariant_except_break
                self.wf(),
                maze.wf(),
                g == maze.grid@,
                gr == goal_row as int && gc == goal_col as int,
                goal_row < MAZE_SIZE && goal_col < MAZE_SIZE,
                sentinel_bounded(self.grid@),
                self.grid@[idx(gr, gc)] == 0,
                weakly_supported_all(self.grid@, g, mode, gr, gc),
            ensures
                self.wf(),
                sentinel_bounded(self.grid@),
                self.grid@[idx(gr, gc)] == 0,
                weakly_supported_all(self.grid@, g, mode, gr, gc),
                prefix_relaxed(self.grid@, g, mode, 16, 0, 0),
            decreases grid_total(self.grid@),
        {
            let mut no_cell_updated = true;
            let ghost total0 = grid_total(self.grid@);

            for i in 0..MAZE_SIZE
                invariant
                    self.wf(),
                    maze.wf(),
                    g == maze.grid@,
                    gr == goal_row as int && gc == goal_col as int,
                    goal_row < MAZE_SIZE && goal_col < MAZE_SIZE,
                    sentinel_bounded(self.grid@),
                    self.grid@[idx(gr, gc)] == 0,
                    weakly_supported_all(self.grid@, g, mode, gr, gc),
                    no_cell_updated ==> grid_total(self.grid@) == total0,
                    grid_total(self.grid@) <= total0,
                    !no_cell_updated ==> grid_total(self.grid@) < total0,
                    no_cell_updated ==> prefix_relaxed(self.grid@, g, mode, i as int, 0, 0),
            {
                for j in 0..MAZE_SIZE
                    invariant
                        self.wf(),
                        maze.wf(),
                        g == maze.grid@,
                        gr == goal_row as int && gc == goal_col as int,
                        goal_row < MAZE_SIZE && goal_col < MAZE_SIZE,
                        i < MAZE_SIZE,
                        sentinel_bounded(self.grid@),
                        self.grid@[idx(gr, gc)] == 0,
                        weakly_supported_all(self.grid@, g, mode, gr, gc),
                        no_cell_updated ==> grid_total(self.grid@) == total0,
                        grid_total(self.grid@) <= total0,
                        !no_cell_updated ==> grid_total(self.grid@) < total0,
                        no_cell_updated ==> prefix_relaxed(
                            self.grid@,
                            g,
                            mode,
                            i as int,
                            j as int,
                            0,
                        ),
                {
                    for k in 0..4
                        invariant
                            self.wf(),
                            maze.wf(),
                            g == maze.grid@,
                            gr == goal_row as int && gc == goal_col as int,
                            goal_row < MAZE_SIZE && goal_col < MAZE_SIZE,
                            i < MAZE_SIZE,
                            j < MAZE_SIZE,
                            sentinel_bounded(self.grid@),
                            self.grid@[idx(gr, gc)] == 0,
                            weakly_supported_all(self.grid@, g, mode, gr, gc),
                            no_cell_updated ==> grid_total(self.grid@) == total0,
                            grid_total(self.grid@) <= total0,
                            !no_cell_updated ==> grid_total(self.grid@) < total0,
                            no_cell_updated ==> prefix_relaxed(
                                self.grid@,
                                g,
                                mode,
                                i as int,
                                j as int,
                                k as int,
                            ),
                    {
                        let direction = tozainanboku(k);
                        let ghost s_before = self.grid@;
                        let mut did_update = false;
                        if no_wall_present(mode, maze.get_cell(i, j).get(direction)) {
                            match self.get_neighbor(i, j, direction) {
                                Some(step_ref) => {
                                    let neighbor: u16 = *step_ref;
                                    let current: u16 = *self.get(i, j);
                                    if current > neighbor + 1 {
                                        proof {
                                            assert(in_range(
                                                neighbor_row(i as int, direction),
                                                neighbor_col(j as int, direction),
                                            ));
                                            lemma_grid_total_update(
                                                self.grid@,
                                                idx(i as int, j as int),
                                                (neighbor + 1) as u16,
                                            );
                                        }
                                        *self.get_mut(i, j) = neighbor + 1;
                                        no_cell_updated = false;
                                        did_update = true;
                                        proof {
                                            let s2 = self.grid@;
                                            assert(s2[idx(
                                                neighbor_row(i as int, direction),
                                                neighbor_col(j as int, direction),
                                            )] == neighbor);
                                            assert(weak_support_via(
                                                s2,
                                                g,
                                                mode,
                                                i as int,
                                                j as int,
                                                direction,
                                            ));
                                            assert(weakly_supported_cell(
                                                s2,
                                                g,
                                                mode,
                                                i as int,
                                                j as int,
                                            ));
                                            lemma_weak_support_monotone(
                                                s_before,
                                                s2,
                                                g,
                                                mode,
                                                gr,
                                                gc,
                                                i as int,
                                                j as int,
                                                (neighbor + 1) as u16,
                                            );
                                        }
                                    }
                                }
                                None => (),
                            }
                        }
                        proof {
                            if !did_update {
                                assert(self.grid@ == s_before);
                                if no_cell_updated {
                                    assert(dir_relaxed(
                                        self.grid@,
                                        g,
                                        mode,
                                        i as int,
                                        j as int,
                                        order_dir(k as int),
                                    ));
                                    assert forall|r: int, c: int, m: int|
                                        in_range(r, c) && 0 <= m < 4 && pass_before(
                                            r,
                                            c,
                                            m,
                                            i as int,
                                            j as int,
                                            k as int + 1,
                                        ) implies #[trigger] dir_relaxed(
                                        self.grid@,
                                        g,
                                        mode,
                                        r,
                                        c,
                                        order_dir(m),
                                    ) by {
                                        if pass_before(r, c, m, i as int, j as int, k as int) {
                                        } else {
                                            assert(r == i as int && c == j as int && m
                                                == k as int);
                                        }
                                    }
                                }
                            }
                        }
                    }
                }
            }
            if no_cell_updated {
                break;
            }
            proof {
                lemma_grid_total_nonneg(self.grid@);
            }
        }

        proof {
            let s = self.grid@;
            assert forall|r: int, c: int| in_range(r, c) implies #[trigger] relaxed_cell(
                s,
                g,
                mode,
                r,
                c,
            ) by {
                assert(pass_before(r, c, 0, 16, 0, 0));
                assert(dir_relaxed(s, g, mode, r, c, order_dir(0)));
                assert(dir_relaxed(s, g, mode, r, c, order_dir(1)));
                assert(dir_relaxed(s, g, mode, r, c, order_dir(2)));
                assert(dir_relaxed(s, g, mode, r, c, order_dir(3)));
            }
            assert forall|r: int, c: int|
                in_range(r, c) && !(r == gr && c == gc) && s[idx(r, c)] < STEP_SENTINEL
                    implies #[trigger] supported_cell(s, g, mode, r, c) by {
                assert(weakly_supported_cell(s, g, mode, r, c));
                assert(relaxed_cell(s, g, mode, r, c));
                if weak_support_via(s, g, mode, r, c, Direction::East) {
                    assert(support_via(s, g, mode, r, c, Direction::East));
                } else if weak_support_via(s, g, mode, r, c, Direction::West) {
                    assert(support_via(s, g, mode, r, c, Direction::West));
                } else if weak_support_via(s, g, mode, r, c, Direction::South) {
                    assert(support_via(s, g, mode, r, c, Direction::South));
                } else {
                    assert(support_via(s, g, mode, r, c, Direction::North));
                }
            }
        }
    }
}


/// Whether a move from (r, c) in direction `d` is eligible: the cell's own
/// wall there is known Absent (Unexplored sides are never chosen for an
/// actual move) and a neighbor exists.
pub open spec fn eligible(g: Seq<Cell>, r: int, c: int, d: Direction) -> bool {
    g[idx(r, c)].wall(d) == Wall::Absent && has_neighbor(r, c, d)
}

/// The (minimal step value, direction) pair chosen after inspecting the
/// first `k` directions of the fixed order East, West, South, North: the
/// first direction holding a strict improvement wins, starting from the
/// sentinel and a default of North.
pub open spec fn best_choice(s: Seq<u16>, g: Seq<Cell>, r: int, c: int, k: int) -> (u16, Direction)
    decreases k,
{
    if k <= 0 {
        (STEP_SENTINEL, Direction::North)
    } else {
        let prev = best_choice(s, g, r, c, k - 1);
        let d = order_dir(k - 1);
        if eligible(g, r, c, d) && neighbor_step(s, r, c, d) < prev.0 {
            (neighbor_step(s, r, c, d), d)
        } else {
            prev
        }
    }
}

/// The chosen value is at most every eligible neighbor's step value.
pub proof fn lemma_best_choice_le(s: Seq<u16>, g: Seq<Cell>, r: int, c: int, k: int, m: int)
    requires
        0 <= m < k <= 4,
        eligible(g, r, c, order_dir(m)),
    ensures
        best_choice(s, g, r, c, k).0 <= neighbor_step(s, r, c, order_dir(m)),
    decreases k,
{
    if m < k - 1 {
        lemma_best_choice_le(s, g, r, c, k - 1, m);
    }
}

/// The chosen value never exceeds the sentinel: it starts there and is only
/// ever replaced by a bounded grid entry.
pub proof fn lemma_best_choice_bounded(s: Seq<u16>, g: Seq<Cell>, r: int, c: int, k: int)
    requires
        s.len() == area(),
        sentinel_bounded(s),
        in_range(r, c),
        0 <= k <= 4,
    ensures
        best_choice(s, g, r, c, k).0 <= STEP_SENTINEL,
    decreases k,
{
    if k > 0 {
        lemma_best_choice_bounded(s, g, r, c, k - 1);
        let d = order_dir(k - 1);
        if eligible(g, r, c, d) {
            assert(in_range(neighbor_row(r, d), neighbor_col(c, d)));
        }
    }
}

/// A finite chosen value belongs to an eligible direction whose neighbor
/// holds exactly that value.
pub proof fn lemma_best_choice_eligible(s: Seq<u16>, g: Seq<Cell>, r: int, c: int, k: int)
    requires
        0 <= k <= 4,
        best_choice(s, g, r, c, k).0 < STEP_SENTINEL,
    ensures
        eligible(g, r, c, best_choice(s, g, r, c, k).1),
        neighbor_step(s, r, c, best_choice(s, g, r, c, k).1) == best_choice(s, g, r, c, k).0,
    decreases k,
{
    if k > 0 {
        let prev = best_choice(s, g, r, c, k - 1);
        let d = order_dir(k - 1);
        if eligible(g, r, c, d) && neighbor_step(s, r, c, d) < prev.0 {
        } else {
            lemma_best_choice_eligible(s, g, r, c, k - 1);
        }
    }
}

/// One navigation decision. Recomputes `stepmap` against `maze` (the local,
/// partially known maze) optimistically, then: None when the current cell's
/// value is the sentinel ("goal unreachable with current knowledge"), and
/// also when no side with a known-Absent wall improves on the sentinel --
/// Unexplored sides are used for planning optimism only and are never
/// chosen for an actual move. Otherwise the direction picked by
/// `best_choice` over the fixed order East, West, South, North among sides
/// whose wall is known Absent: the first minimal neighbor value wins.
pub fn decide_direction(
    maze: &Maze,
    goal_row: usize,
    goal_col: usize,
    row: usize,
    col: usize,
    stepmap: &mut StepMap,
) -> (r: Option<Direction>)
    requires
        maze.wf(),
        old(stepmap).wf(),
        goal_row < MAZE_SIZE,
        goal_col < MAZE_SIZE,
        row < MAZE_SIZE,
        col < MAZE_SIZE,
    ensures
        final(stepmap).wf(),
        step_map_post(
            final(stepmap).grid@,
            maze.grid@,
            StepMapMode::UnexploredAsAbsent,
            goal_row as int,
            goal_col as int,
        ),
        r.is_none() <==> (final(stepmap).at(row as int, col as int) == STEP_SENTINEL
            || best_choice(final(stepmap).grid@, maze.grid@, row as int, col as int, 4).0
            == STEP_SENTINEL),
        (match r {
            Some(d) => {
                &&& d == best_choice(
                    final(stepmap).grid@,
                    maze.grid@,
                    row as int,
                    col as int,
                    4,
                ).1
                &&& maze.at(row as int, col as int).wall(d) == Wall::Absent
                &&& has_neighbor(row as int, col as int, d)
                &&& neighbor_step(final(stepmap).grid@, row as int, col as int, d)
                    == best_choice(
                    final(stepmap).grid@,
                    maze.grid@,
                    row as int,
                    col as int,
                    4,
                ).0 < STEP_SENTINEL
            },
            None => true,
        }),
{
    stepmap.calc_step_map(maze, StepMapMode::UnexploredAsAbsent, goal_row, goal_col);
    let mut min_step: u16 = STEP_SENTINEL;
    let mut direction_to_go: Direction = Direction::North;

    if *stepmap.get(row, col) == STEP_SENTINEL {
        return None;
    }

    for k in 0..4
        invariant
            maze.wf(),
            stepmap.wf(),
            row < MAZE_SIZE,
            col < MAZE_SIZE,
            goal_row < MAZE_SIZE,
            goal_col < MAZE_SIZE,
            step_map_post(
                stepmap.grid@,
                maze.grid@,
                StepMapMode::UnexploredAsAbsent,
                goal_row as int,
                goal_col as int,
            ),
            stepmap.at(row as int, col as int) != STEP_SENTINEL,
            min_step == best_choice(stepmap.grid@, maze.grid@, row as int, col as int, k as int).0,
            direction_to_go == best_choice(
                stepmap.grid@,
                maze.grid@,
                row as int,
                col as int,
                k as int,
            ).1,
    {
        let d = tozainanboku(k);
        if maze.get_cell(row, col).get(d) == Wall::Absent {
            match stepmap.get_neighbor(row, col, d) {
                Some(step) => {
                    if *step < min_step {
                        min_step = *step;
                        direction_to_go = d;
                    }
                },
                None => {},
            };
        }
    }
    if min_step == STEP_SENTINEL {
        // optimistically reachable, yet no side with a known-Absent wall
        // leads anywhere: an Unexplored side must never be walked through
        return None;
    }
    proof {
        lemma_best_choice_bounded(stepmap.grid@, maze.grid@, row as int, col as int, 4);
        lemma_best_choice_eligible(stepmap.grid@, maze.grid@, row as int, col as int, 4);
    }
    Some(direction_to_go)
}


/// Any finite value in one converged grid dominates the other converged
/// grid's value at the same cell: walking the support chain of `s1` down to
/// the goal bounds `s2` through its relaxation property.
proof fn lemma_step_dominates(
    s1: Seq<u16>,
    s2: Seq<u16>,
    g: Seq<Cell>,
    mode: StepMapMode,
    gr: int,
    gc: int,
    r: int,
    c: int,
)
    requires
        step_map_post(s1, g, mode, gr, gc),
        step_map_post(s2, g, mode, gr, gc),
        in_range(gr, gc),
        in_range(r, c),
        s1[idx(r, c)] < STEP_SENTINEL,
    ensures
        s2[idx(r, c)] <= s1[idx(r, c)],
    decreases s1[idx(r, c)],
{
    if r == gr && c == gc {
    } else {
        assert(supported_cell(s1, g, mode, r, c));
        assert(relaxed_cell(s2, g, mode, r, c));
        if support_via(s1, g, mode, r, c, Direction::East) {
            lemma_step_dominates(s1, s2, g, mode, gr, gc, r, c + 1);
        } else if support_via(s1, g, mode, r, c, Direction::West) {
            lemma_step_dominates(s1, s2, g, mode, gr, gc, r, c - 1);
        } else if support_via(s1, g, mode, r, c, Direction::South) {
            lemma_step_dominates(s1, s2, g, mode, gr, gc, r + 1, c);
        } else {
            assert(support_via(s1, g, mode, r, c, Direction::North));
            lemma_step_dominates(s1, s2, g, mode, gr, gc, r - 1, c);
        }
    }
}

/// Idempotence / determinism of the step-map computation: the properties
/// `calc_step_map` establishes determine the grid uniquely, so two
/// computations over an identical maze, mode and goal produce identical
/// distance grids.
pub proof fn lemma_step_map_unique(
    s1: Seq<u16>,
    s2: Seq<u16>,
    g: Seq<Cell>,
    mode: StepMapMode,
    gr: int,
    gc: int,
)
    requires
        step_map_post(s1, g, mode, gr, gc),
        step_map_post(s2, g, mode, gr, gc),
        in_range(gr, gc),
    ensures
        s1 == s2,
{
    assert forall|p: int| 0 <= p < s1.len() implies s1[p] == s2[p] by {
        let r = p / 16;
        let c = p % 16;
        assert(in_range(r, c));
        assert(idx(r, c) == p);
        if s1[idx(r, c)] < STEP_SENTINEL {
            lemma_step_dominates(s1, s2, g, mode, gr, gc, r, c);
        }
        if s2[idx(r, c)] < STEP_SENTINEL {
            lemma_step_dominates(s2, s1, g, mode, gr, gc, r, c);
        }
        assert(s1[p] <= STEP_SENTINEL && s2[p] <= STEP_SENTINEL);
    }
    assert(s1 =~= s2);
}

/// A cell open toward every existing neighbor on all four sides.
pub open spec fn open_cell(g: Seq<Cell>, r: int, c: int) -> bool {
    &&& (r > 0 ==> g[idx(r, c)].north == Wall::Absent)
    &&& (r < size() - 1 ==> g[idx(r, c)].south == Wall::Absent)
    &&& (c > 0 ==> g[idx(r, c)].west == Wall::Absent)
    &&& (c < size() - 1 ==> g[idx(r, c)].east == Wall::Absent)
}

/// A maze with no internal walls: every wall shared by two cells is Absent.
pub open spec fn no_inner_walls(g: Seq<Cell>) -> bool {
    forall|r: int, c: int| in_range(r, c) ==> #[trigger] open_cell(g, r, c)
}

proof fn lemma_manhattan_upper(s: Seq<u16>, g: Seq<Cell>, mode: StepMapMode, r: int, c: int)
    requires
        step_map_post(s, g, mode, 0, 0),
        no_inner_walls(g),
        in_range(r, c),
    ensures
        s[idx(r, c)] <= r + c,
    decreases r + c,
{
    if r == 0 && c == 0 {
    } else if r > 0 {
        assert(open_cell(g, r, c));
        assert(relaxed_cell(s, g, mode, r, c));
        assert(open_dir(g, mode, r, c, Direction::North));
        lemma_manhattan_upper(s, g, mode, r - 1, c);
    } else {
        assert(open_cell(g, r, c));
        assert(relaxed_cell(s, g, mode, r, c));
        assert(open_dir(g, mode, r, c, Direction::West));
        lemma_manhattan_upper(s, g, mode, r, c - 1);
    }
}

proof fn lemma_manhattan_lower(s: Seq<u16>, g: Seq<Cell>, mode: StepMapMode, r: int, c: int)
    requires
        step_map_post(s, g, mode, 0, 0),
        in_range(r, c),
        s[idx(r, c)] < STEP_SENTINEL,
    ensures
        s[idx(r, c)] >= r + c,
    decreases s[idx(r, c)],
{
    if r == 0 && c == 0 {
    } else {
        assert(supported_cell(s, g, mode, r, c));
        if support_via(s, g, mode, r, c, Direction::East) {
            lemma_manhattan_lower(s, g, mode, r, c + 1);
        } else if support_via(s, g, mode, r, c, Direction::West) {
            lemma_manhattan_lower(s, g, mode, r, c - 1);
        } else if support_via(s, g, mode, r, c, Direction::South) {
            lemma_manhattan_lower(s, g, mode, r + 1, c);
        } else {
            assert(support_via(s, g, mode, r, c, Direction::North));
            lemma_manhattan_lower(s, g, mode, r - 1, c);
        }
    }
}

/// Manhattan baseline: in a fully open maze with the goal at (0, 0), the
/// converged step map assigns every cell its Manhattan distance row + col.
pub proof fn lemma_manhattan(s: Seq<u16>, g: Seq<Cell>, mode: StepMapMode)
    requires
        step_map_post(s, g, mode, 0, 0),
        no_inner_walls(g),
    ensures
        forall|r: int, c: int| in_range(r, c) ==> #[trigger] s[idx(r, c)] == r + c,
{
    assert forall|r: int, c: int| in_range(r, c) implies #[trigger] s[idx(r, c)] == r + c by {
        lemma_manhattan_upper(s, g, mode, r, c);
        lemma_manhattan_lower(s, g, mode, r, c);
    }
}

/// The goal cell is walled off from all of its neighbors under `mode`.
pub open spec fn goal_sealed(g: Seq<Cell>, mode: StepMapMode, gr: int, gc: int) -> bool {
    &&& !open_dir(g, mode, gr, gc, Direction::North)
    &&& !open_dir(g, mode, gr, gc, Direction::East)
    &&& !open_dir(g, mode, gr, gc, Direction::South)
    &&& !open_dir(g, mode, gr, gc, Direction::West)
}

proof fn lemma_sealed_goal_chain(
    s: Seq<u16>,
    g: Seq<Cell>,
    mode: StepMapMode,
    gr: int,
    gc: int,
    r: int,
    c: int,
)
    requires
        step_map_post(s, g, mode, gr, gc),
        grid_mirrored(g),
        goal_sealed(g, mode, gr, gc),
        in_range(gr, gc),
        in_range(r, c),
        !(r == gr && c == gc),
    ensures
        s[idx(r, c)] == STEP_SENTINEL,
    decreases s[idx(r, c)],
{
    assert(s[idx(r, c)] <= STEP_SENTINEL);
    if s[idx(r, c)] < STEP_SENTINEL {
        // A finite value would hand a support chain down to the goal, whose
        // last link would cross a wall that `goal_sealed` closes: each branch
        // below is contradictory.
        assert(supported_cell(s, g, mode, r, c));
        if support_via(s, g, mode, r, c, Direction::East) {
            if r == gr && c + 1 == gc {
                lemma_mirrored_wall(g, r, c, Direction::East);
            } else {
                lemma_sealed_goal_chain(s, g, mode, gr, gc, r, c + 1);
            }
        } else if support_via(s, g, mode, r, c, Direction::West) {
            if r == gr && c - 1 == gc {
                lemma_mirrored_wall(g, r, c, Direction::West);
            } else {
                lemma_sealed_goal_chain(s, g, mode, gr, gc, r, c - 1);
            }
        } else if support_via(s, g, mode, r, c, Direction::South) {
            if r + 1 == gr && c == gc {
                lemma_mirrored_wall(g, r, c, Direction::South);
            } else {
                lemma_sealed_goal_chain(s, g, mode, gr, gc, r + 1, c);
            }
        } else {
            assert(support_via(s, g, mode, r, c, Direction::North));
            if r - 1 == gr && c == gc {
                lemma_mirrored_wall(g, r, c, Direction::North);
            } else {
                lemma_sealed_goal_chain(s, g, mode, gr, gc, r - 1, c);
            }
        }
    }
}

/// Unreachable propagation: when the goal cell is walled off from all of its
/// neighbors in a mirrored maze, every other cell keeps the sentinel after a
/// step-map computation.
pub proof fn lemma_unreachable_propagation(
    s: Seq<u16>,
    g: Seq<Cell>,
    mode: StepMapMode,
    gr: int,
    gc: int,
)
    requires
        step_map_post(s, g, mode, gr, gc),
        grid_mirrored(g),
        goal_sealed(g, mode, gr, gc),
        in_range(gr, gc),
    ensures
        forall|r: int, c: int|
            in_range(r, c) && !(r == gr && c == gc) ==> #[trigger] s[idx(r, c)] == STEP_SENTINEL,
{
    assert forall|r: int, c: int|
        in_range(r, c) && !(r == gr && c == gc) implies #[trigger] s[idx(r, c)]
        == STEP_SENTINEL by {
        lemma_sealed_goal_chain(s, g, mode, gr, gc, r, c);
    }
}

} // verus!
