//! The exploration loop: drives one ground-truth maze and one locally known
//! maze, recomputing the step map each step, moving toward the goal and
//! revealing true walls as cells are visited.
//!
//! The loop is pinned down completely: `nav_run` states the whole
//! sense-plan-act cycle as a mathematical recursion over the accumulated
//! knowledge (the step map of a grid is unique by `lemma_step_map_unique`,
//! so the recursion is well defined), and `simulate` ensures that its result
//! equals that recursion's.
//!
//! The outer move loop has no intrinsic iteration cap; a caller embedding it
//! in a time-bounded system supplies a step ceiling, after which the run is
//! reported as not finished.

use vstd::prelude::*;

use crate::maze::{
    cell_known, grid_known, grid_mirrored, grid_set_wall, idx, in_range, initial_grid,
    lemma_set_wall_known, neighbor_col, neighbor_row, nsew_to_index, Cell, Direction, Maze,
    MAZE_SIZE,
};
use crate::solver::{
    best_choice, decide_direction, lemma_step_map_unique, step_map_post, StepMap, StepMapMode,
    STEP_SENTINEL,
};

verus! {

/// The grid after sensing cell (row, col): its four true walls copied from
/// `actual` into `local`, in the fixed order East, West, South, North, each
/// write mirrored as `set_wall` mirrors it.
pub open spec fn sensed_grid(local: Seq<Cell>, actual: Seq<Cell>, row: int, col: int) -> Seq<
    Cell,
> {
    grid_set_wall(
        grid_set_wall(
            grid_set_wall(
                grid_set_wall(local, row, col, Direction::East, actual[idx(row, col)].east),
                row,
                col,
                Direction::West,
                actual[idx(row, col)].west,
            ),
            row,
            col,
            Direction::South,
            actual[idx(row, col)].south,
        ),
        row,
        col,
        Direction::North,
        actual[idx(row, col)].north,
    )
}

/// Copies the four true walls of cell (row, col) from `actual_maze` into
/// `local_maze`, in the fixed order East, West, South, North; by the
/// mirroring of `set_wall`, this also fixes the shared walls of the
/// adjacent cells.
pub fn update_wall(actual_maze: &Maze, row: usize, col: usize, local_maze: &mut Maze)
    requires
        actual_maze.wf(),
        old(local_maze).wf(),
        row < MAZE_SIZE,
        col < MAZE_SIZE,
    ensures
        final(local_maze).wf(),
        final(local_maze).grid@ == sensed_grid(
            old(local_maze).grid@,
            actual_maze.grid@,
            row as int,
            col as int,
        ),
        grid_mirrored(old(local_maze).grid@) ==> grid_mirrored(final(local_maze).grid@),
        grid_known(old(local_maze).grid@) && cell_known(actual_maze.at(row as int, col as int))
            ==> grid_known(final(local_maze).grid@),
{
    let ghost known0 = grid_known(old(local_maze).grid@) && cell_known(
        actual_maze.at(row as int, col as int),
    );
    let cell = *actual_maze.get(row, col);
    proof {
        if known0 {
            lemma_set_wall_known(local_maze.grid@, row as int, col as int, Direction::East, cell.east);
        }
    }
    local_maze.set_wall(row, col, Direction::East, cell.east);
    proof {
        if known0 {
            lemma_set_wall_known(local_maze.grid@, row as int, col as int, Direction::West, cell.west);
        }
    }
    local_maze.set_wall(row, col, Direction::West, cell.west);
    proof {
        if known0 {
            lemma_set_wall_known(local_maze.grid@, row as int, col as int, Direction::South, cell.south);
        }
    }
    local_maze.set_wall(row, col, Direction::South, cell.south);
    proof {
        if known0 {
            lemma_set_wall_known(local_maze.grid@, row as int, col as int, Direction::North, cell.north);
        }
    }
    local_maze.set_wall(row, col, Direction::North, cell.north);
}

/// The step grid that a step-map computation over `g` yields under the
/// optimistic mode for this goal. `calc_step_map`'s postcondition determines
/// the grid uniquely (`lemma_step_map_unique`), so this names a single grid.
pub open spec fn planning_grid(g: Seq<Cell>, gr: int, gc: int) -> Seq<u16> {
    choose|s: Seq<u16>| step_map_post(s, g, StepMapMode::UnexploredAsAbsent, gr, gc)
}

/// The observable outcome of an exploration run, in the mathematical model.
pub struct NavModel {
    pub reached: bool,
    pub no_path: bool,
    pub moves: int,
    pub row: int,
    pub col: int,
}

/// The whole sense-plan-act cycle as a recursion: stop on the goal; stop
/// when the fuel is out; replan on the knowledge gathered so far and stop
/// with an unreachable report when the current cell's step value is the
/// sentinel or no side with a known-Absent wall improves on it; otherwise
/// move through the chosen side and sense the reached cell's true walls.
pub open spec fn nav_run(
    actual: Seq<Cell>,
    local: Seq<Cell>,
    row: int,
    col: int,
    gr: int,
    gc: int,
    moves: int,
    fuel: int,
) -> NavModel
    decreases fuel,
{
    if row == gr && col == gc {
        NavModel { reached: true, no_path: false, moves, row, col }
    } else if fuel <= 0 {
        NavModel { reached: false, no_path: false, moves, row, col }
    } else {
        let s = planning_grid(local, gr, gc);
        if s[idx(row, col)] == STEP_SENTINEL || best_choice(s, local, row, col, 4).0
            == STEP_SENTINEL {
            NavModel { reached: false, no_path: true, moves, row, col }
        } else {
            let d = best_choice(s, local, row, col, 4).1;
            let nr = neighbor_row(row, d);
            let nc = neighbor_col(col, d);
            nav_run(
                actual,
                sensed_grid(local, actual, nr, nc),
                nr,
                nc,
                gr,
                gc,
                moves + 1,
                fuel - 1,
            )
        }
    }
}

/// The result of one exploration run.
#[derive(Debug, Clone, Copy, PartialEq, Eq, Structural)]
pub struct NavOutcome {
    /// The run ended on the goal cell.
    pub reached: bool,
    /// A decision reported "goal unreachable with current knowledge"; the
    /// run stopped without moving further.
    pub no_path: bool,
    /// Moves taken.
    pub moves: usize,
    /// Final position.
    pub row: usize,
    /// Final position.
    pub col: usize,
}

/// Runs the sense-plan-act loop from the start cell (0, 0) against the
/// ground-truth `actual_maze`: sense the start cell's true walls, then
/// repeatedly plan on the local maze optimistically, move to the known-open
/// neighbor with the smallest step value, and reveal the reached cell's true
/// walls. Stops on the goal, on an unreachable report, or after `max_moves`
/// moves; the result is exactly what `nav_run` says of a run whose starting
/// knowledge is a freshly built local maze with the start cell sensed.
pub fn simulate(actual_maze: &Maze, goal_row: usize, goal_col: usize, max_moves: usize) -> (r:
    NavOutcome)
    requires
        actual_maze.wf(),
        grid_known(actual_maze.grid@),
        goal_row < MAZE_SIZE,
        goal_col < MAZE_SIZE,
    ensures
        ({
            let nav = nav_run(
                actual_maze.grid@,
                sensed_grid(initial_grid(), actual_maze.grid@, 0, 0),
                0,
                0,
                goal_row as int,
                goal_col as int,
                0,
                max_moves as int,
            );
            &&& r.reached == nav.reached
            &&& r.no_path == nav.no_path
            &&& r.moves as int == nav.moves
            &&& r.row as int == nav.row
            &&& r.col as int == nav.col
        }),
        r.row < MAZE_SIZE,
        r.col < MAZE_SIZE,
        r.moves <= max_moves,
        r.reached <==> (r.row == goal_row && r.col == goal_col),
        !r.reached ==> r.no_path || r.moves == max_moves,
        r.no_path ==> !r.reached && r.moves < max_moves,
{
    let mut row: usize = 0;
    let mut col: usize = 0;
    let mut moves: usize = 0;
    let mut stepmap = StepMap::new();
    let mut local_maze = Maze::new();

    let ghost actual_g = actual_maze.grid@;
    let ghost gr = goal_row as int;
    let ghost gc = goal_col as int;
    let ghost nav0 = nav_run(
        actual_g,
        sensed_grid(initial_grid(), actual_g, 0, 0),
        0,
        0,
        gr,
        gc,
        0,
        max_moves as int,
    );

    // the agent can see the walls of the cell it starts on: without this,
    // the first decision could send it through an unsensed Present wall
    update_wall(actual_maze, 0, 0, &mut local_maze);

    loop
        invariant
            actual_maze.wf(),
            goal_row < MAZE_SIZE,
            goal_col < MAZE_SIZE,
            row < MAZE_SIZE,
            col < MAZE_SIZE,
            moves <= max_moves,
            stepmap.wf(),
            local_maze.wf(),
            actual_g == actual_maze.grid@,
            gr == goal_row as int,
            gc == goal_col as int,
            nav0 == nav_run(
                actual_g,
                sensed_grid(initial_grid(), actual_g, 0, 0),
                0,
                0,
                gr,
                gc,
                0,
                max_moves as int,
            ),
            nav0 == nav_run(
                actual_g,
                local_maze.grid@,
                row as int,
                col as int,
                gr,
                gc,
                moves as int,
                max_moves - moves,
            ),
        decreases max_moves - moves,
    {
        if row == goal_row && col == goal_col {
            return NavOutcome { reached: true, no_path: false, moves, row, col };
        }
        if moves == max_moves {
            return NavOutcome { reached: false, no_path: false, moves, row, col };
        }
        let decision = decide_direction(&local_maze, goal_row, goal_col, row, col, &mut stepmap);
        proof {
            // the freshly computed step map is the planning grid of the
            // current knowledge: the step-map postcondition has exactly one
            // solution
            let s = stepmap.grid@;
            assert(step_map_post(s, local_maze.grid@, StepMapMode::UnexploredAsAbsent, gr, gc));
            assert(exists|s2: Seq<u16>|
                step_map_post(s2, local_maze.grid@, StepMapMode::UnexploredAsAbsent, gr, gc));
            lemma_step_map_unique(
                planning_grid(local_maze.grid@, gr, gc),
                s,
                local_maze.grid@,
                StepMapMode::UnexploredAsAbsent,
                gr,
                gc,
            );
        }
        match decision {
            None => {
                return NavOutcome { reached: false, no_path: true, moves, row, col };
            },
            Some(direction) => {
                let (dx, dy) = nsew_to_index(direction);
                let next_row = ((row as isize) + dy) as usize;
                let next_col = ((col as isize) + dx) as usize;
                proof {
                    assert(in_range(next_row as int, next_col as int));
                }
                moves = moves + 1;
                update_wall(actual_maze, next_row, next_col, &mut local_maze);
                row = next_row;
                col = next_col;
            },
        }
    }
}

} // verus!
