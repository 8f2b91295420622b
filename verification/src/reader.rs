//! The maze text format: a character-driven state machine that turns an
//! ASCII diagram of pillars (`+`), horizontal segments (`-` or space) and
//! vertical segments (`|` or space, with interior markers space, `G`, `S`)
//! into wall writes on a maze, reporting the discovered goal coordinate out
//! of band.
//!
//! A character that does not fit the machine's current state is a hard,
//! non-recoverable fault for the maze being loaded; it is reported as a
//! failed step, and so is a segment that would write past the grid edge.
//! Reading the text from a file is the caller's business.

use vstd::prelude::*;

use crate::maze::{
    grid_mirrored, grid_set_wall, size, Cell, Direction, Maze, Wall, MAZE_SIZE,
};

verus! {

/// What the reader expects next.
#[derive(Debug, Clone, Copy, PartialEq, Eq, Structural)]
pub enum ReaderState {
    Pillar,
    Cell,
    HorizontalWall,
    VerticalWall,
}

/// The reader's cursor: expected token class and the (row, col) of the
/// segment currently being read.
#[derive(Debug, Clone, Copy, PartialEq, Eq, Structural)]
pub struct ReaderStateMachine {
    pub state: ReaderState,
    pub row: usize,
    pub col: usize,
}

impl ReaderStateMachine {
    pub fn new() -> (r: Self)
        ensures
            r == initial_reader(),
    {
        ReaderStateMachine { state: ReaderState::Pillar, row: 0, col: 0 }
    }
}

/// The reader's starting configuration.
pub open spec fn initial_reader() -> ReaderStateMachine {
    ReaderStateMachine { state: ReaderState::Pillar, row: 0, col: 0 }
}

/// Whether byte `c` is acceptable in configuration `m`. A byte that the
/// format does not allow here fails, and so does one whose wall
/// write or goal coordinate would fall outside the grid.
pub open spec fn step_ok(m: ReaderStateMachine, c: u8) -> bool {
    match m.state {
        ReaderState::Pillar => c == 43,  // '+'
        ReaderState::HorizontalWall => {
            if c == 45 {  // '-'
                m.col < MAZE_SIZE && m.row <= MAZE_SIZE
            } else if c == 32 {  // ' '
                m.col <= MAZE_SIZE
            } else {
                c == 10  // '\n'
            }
        },
        ReaderState::VerticalWall => {
            if c == 124 {  // '|'
                m.row < MAZE_SIZE && m.col <= MAZE_SIZE
            } else if c == 32 {  // ' '
                m.col < usize::MAX
            } else {
                false
            }
        },
        ReaderState::Cell => {
            if c == 71 {  // 'G'
                1 <= m.col && m.col - 1 < MAZE_SIZE && m.row < MAZE_SIZE
            } else if c == 10 {  // '\n'
                m.row < usize::MAX
            } else {
                c == 32 || c == 83  // ' ' or 'S'
            }
        },
    }
}

/// The configuration after an accepted byte `c`.
pub open spec fn step_machine(m: ReaderStateMachine, c: u8) -> ReaderStateMachine {
    match m.state {
        ReaderState::Pillar => ReaderStateMachine { state: ReaderState::HorizontalWall, ..m },
        ReaderState::HorizontalWall => {
            if c == 10 {
                ReaderStateMachine { state: ReaderState::VerticalWall, col: 0, ..m }
            } else {
                ReaderStateMachine {
                    state: ReaderState::Pillar,
                    col: (m.col + 1) as usize,
                    ..m
                }
            }
        },
        ReaderState::VerticalWall => ReaderStateMachine {
            state: ReaderState::Cell,
            col: (m.col + 1) as usize,
            ..m
        },
        ReaderState::Cell => {
            if c == 10 {
                ReaderStateMachine {
                    state: ReaderState::Pillar,
                    row: (m.row + 1) as usize,
                    col: 0,
                }
            } else {
                ReaderStateMachine { state: ReaderState::VerticalWall, ..m }
            }
        },
    }
}

/// The wall write (row, col, direction) that an accepted byte `c` performs,
/// if any; the wall written is always Present.
pub open spec fn step_wall(m: ReaderStateMachine, c: u8) -> Option<(int, int, Direction)> {
    match m.state {
        ReaderState::HorizontalWall => {
            if c == 45 {
                if m.row == MAZE_SIZE {
                    Some((size() - 1, m.col as int, Direction::South))
                } else {
                    Some((m.row as int, m.col as int, Direction::North))
                }
            } else {
                None
            }
        },
        ReaderState::VerticalWall => {
            if c == 124 {
                if m.col == MAZE_SIZE {
                    Some((m.row as int, size() - 1, Direction::East))
                } else {
                    Some((m.row as int, m.col as int, Direction::West))
                }
            } else {
                None
            }
        },
        _ => None,
    }
}

/// The goal coordinate (row, col) that an accepted byte `c` reports, if any.
pub open spec fn step_goal(m: ReaderStateMachine, c: u8) -> Option<(int, int)> {
    if m.state == ReaderState::Cell && c == 71 {
        Some((m.row as int, m.col - 1))
    } else {
        None
    }
}

/// Feeds one byte to the reader. On an acceptable byte the machine advances
/// and the byte's wall write and goal report are applied; on a malformed
/// byte nothing changes and false is returned.
pub fn reader_step(
    machine: &mut ReaderStateMachine,
    c: u8,
    maze: &mut Maze,
    goal_row: &mut usize,
    goal_col: &mut usize,
) -> (ok: bool)
    requires
        old(maze).wf(),
    ensures
        final(maze).wf(),
        ok == step_ok(*old(machine), c),
        grid_mirrored(old(maze).grid@) ==> grid_mirrored(final(maze).grid@),
        ok ==> *final(machine) == step_machine(*old(machine), c),
        ok ==> final(maze).grid@ == (match step_wall(*old(machine), c) {
            Some(w) => grid_set_wall(old(maze).grid@, w.0, w.1, w.2, Wall::Present),
            None => old(maze).grid@,
        }),
        ok ==> (*final(goal_row) as int, *final(goal_col) as int) == (match step_goal(
            *old(machine),
            c,
        ) {
            Some(rc) => rc,
            None => (*old(goal_row) as int, *old(goal_col) as int),
        }),
        !ok ==> *final(machine) == *old(machine) && final(maze).grid@ == old(maze).grid@
            && *final(goal_row) == *old(goal_row) && *final(goal_col) == *old(goal_col),
{
    match machine.state {
        ReaderState::Pillar => {
            if c == 43 {
                machine.state = ReaderState::HorizontalWall;
                true
            } else {
                false
            }
        },
        ReaderState::HorizontalWall => {
            if c == 45 {
                if machine.col < MAZE_SIZE && machine.row <= MAZE_SIZE {
                    if machine.row == MAZE_SIZE {
                        maze.set_wall(MAZE_SIZE - 1, machine.col, Direction::South, Wall::Present);
                    } else {
                        maze.set_wall(machine.row, machine.col, Direction::North, Wall::Present);
                    }
                    machine.col = machine.col + 1;
                    machine.state = ReaderState::Pillar;
                    true
                } else {
                    false
                }
            } else if c == 32 {
                if machine.col <= MAZE_SIZE {
                    machine.col = machine.col + 1;
                    machine.state = ReaderState::Pillar;
                    true
                } else {
                    false
                }
            } else if c == 10 {
                machine.col = 0;
                machine.state = ReaderState::VerticalWall;
                true
            } else {
                false
            }
        },
        ReaderState::VerticalWall => {
            if c == 124 {
                if machine.row < MAZE_SIZE && machine.col <= MAZE_SIZE {
                    if machine.col == MAZE_SIZE {
                        maze.set_wall(machine.row, MAZE_SIZE - 1, Direction::East, Wall::Present);
                    } else {
                        maze.set_wall(machine.row, machine.col, Direction::West, Wall::Present);
                    }
                    machine.col = machine.col + 1;
                    machine.state = ReaderState::Cell;
                    true
                } else {
                    false
                }
            } else if c == 32 {
                if machine.col < usize::MAX {
                    machine.col = machine.col + 1;
                    machine.state = ReaderState::Cell;
                    true
                } else {
                    false
                }
            } else {
                false
            }
        },
        ReaderState::Cell => {
            if c == 32 || c == 83 {
                machine.state = ReaderState::VerticalWall;
                true
            } else if c == 71 {
                if 1 <= machine.col && machine.col - 1 < MAZE_SIZE && machine.row < MAZE_SIZE {
                    *goal_row = machine.row;
                    *goal_col = machine.col - 1;
                    machine.state = ReaderState::VerticalWall;
                    true
                } else {
                    false
                }
            } else if c == 10 {
                if machine.row < usize::MAX {
                    machine.row = machine.row + 1;
                    machine.col = 0;
                    machine.state = ReaderState::Pillar;
                    true
                } else {
                    false
                }
            } else {
                false
            }
        },
    }
}

/// Runs the reader over `s` from byte `i` on, starting in configuration `m`
/// with grid `g` and goal (grow, gcol): None when some byte is malformed,
/// otherwise the final configuration, grid and goal.
pub open spec fn run_reader_from(
    m: ReaderStateMachine,
    s: Seq<u8>,
    i: int,
    g: Seq<Cell>,
    grow: int,
    gcol: int,
) -> Option<(ReaderStateMachine, Seq<Cell>, int, int)>
    decreases s.len() - i,
{
    if i < 0 || i >= s.len() {
        Some((m, g, grow, gcol))
    } else if step_ok(m, s[i]) {
        let m2 = step_machine(m, s[i]);
        let g2 = match step_wall(m, s[i]) {
            Some(w) => grid_set_wall(g, w.0, w.1, w.2, Wall::Present),
            None => g,
        };
        let goal2 = match step_goal(m, s[i]) {
            Some(rc) => rc,
            None => (grow, gcol),
        };
        run_reader_from(m2, s, i + 1, g2, goal2.0, goal2.1)
    } else {
        None
    }
}

/// Parses a whole diagram into `maze`, reporting the goal through the two
/// out parameters. Returns false on the first malformed byte (the maze may
/// then be partially written, as when the format fault is detected midway).
pub fn read_maze(text: &Vec<u8>, maze: &mut Maze, goal_row: &mut usize, goal_col: &mut usize) -> (ok:
    bool)
    requires
        old(maze).wf(),
        *old(goal_row) < MAZE_SIZE,
        *old(goal_col) < MAZE_SIZE,
    ensures
        final(maze).wf(),
        *final(goal_row) < MAZE_SIZE,
        *final(goal_col) < MAZE_SIZE,
        grid_mirrored(old(maze).grid@) ==> grid_mirrored(final(maze).grid@),
        ok == run_reader_from(
            initial_reader(),
            text@,
            0,
            old(maze).grid@,
            *old(goal_row) as int,
            *old(goal_col) as int,
        ).is_some(),
        ok ==> final(maze).grid@ == run_reader_from(
            initial_reader(),
            text@,
            0,
            old(maze).grid@,
            *old(goal_row) as int,
            *old(goal_col) as int,
        ).unwrap().1,
        ok ==> *final(goal_row) as int == run_reader_from(
            initial_reader(),
            text@,
            0,
            old(maze).grid@,
            *old(goal_row) as int,
            *old(goal_col) as int,
        ).unwrap().2,
        ok ==> *final(goal_col) as int == run_reader_from(
            initial_reader(),
            text@,
            0,
            old(maze).grid@,
            *old(goal_row) as int,
            *old(goal_col) as int,
        ).unwrap().3,
{
    let ghost g0 = maze.grid@;
    let ghost r0 = *goal_row as int;
    let ghost c0 = *goal_col as int;
    let mut machine = ReaderStateMachine::new();
    let n = text.len();
    for i in 0..n
        invariant
            maze.wf(),
            *goal_row < MAZE_SIZE,
            *goal_col < MAZE_SIZE,
            n == text@.len(),
            g0 == old(maze).grid@,
            r0 == *old(goal_row) as int,
            c0 == *old(goal_col) as int,
            grid_mirrored(g0) ==> grid_mirrored(maze.grid@),
            run_reader_from(initial_reader(), text@, 0, g0, r0, c0) == run_reader_from(
                machine,
                text@,
                i as int,
                maze.grid@,
                *goal_row as int,
                *goal_col as int,
            ),
    {
        let c = text[i];
        let ok = reader_step(&mut machine, c, maze, goal_row, goal_col);
        if !ok {
            return false;
        }
    }
    true
}

} // verus!
