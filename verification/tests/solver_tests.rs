use mm_maze_solver::maze::{Direction, Maze, Wall, MAZE_SIZE};
use mm_maze_solver::solver::{decide_direction, StepMap, StepMapMode, STEP_SENTINEL};

/// A maze with every internal wall Absent: the default construction with the
/// start cell's south carve undone.
fn fully_open_maze() -> Maze {
    let mut m = Maze::new();
    m.set_wall(0, 0, Direction::South, Wall::Absent);
    m
}

#[test]
fn step_map_new_is_all_zero() {
    let s = StepMap::new();
    for r in 0..MAZE_SIZE {
        for c in 0..MAZE_SIZE {
            assert_eq!(*s.get(r, c), 0);
        }
    }
}

#[test]
fn manhattan_baseline_in_open_maze() {
    let m = fully_open_maze();
    let mut s = StepMap::new();
    s.calc_step_map(&m, StepMapMode::UnexploredAsPresent, 0, 0);
    for r in 0..MAZE_SIZE {
        for c in 0..MAZE_SIZE {
            assert_eq!(*s.get(r, c), (r + c) as u16);
        }
    }
}

#[test]
fn goal_cell_is_zero() {
    let m = fully_open_maze();
    let mut s = StepMap::new();
    s.calc_step_map(&m, StepMapMode::UnexploredAsPresent, 9, 12);
    assert_eq!(*s.get(9, 12), 0);
    assert_eq!(*s.get(9, 13), 1);
    assert_eq!(*s.get(8, 12), 1);
}

#[test]
fn calc_is_idempotent() {
    let mut m = Maze::new();
    m.set_wall(3, 3, Direction::East, Wall::Present);
    m.set_wall(7, 1, Direction::South, Wall::Present);
    m.set_wall(10, 10, Direction::North, Wall::Unexplored);
    let mut s1 = StepMap::new();
    let mut s2 = StepMap::new();
    s1.calc_step_map(&m, StepMapMode::UnexploredAsAbsent, 5, 5);
    s2.calc_step_map(&m, StepMapMode::UnexploredAsAbsent, 5, 5);
    for r in 0..MAZE_SIZE {
        for c in 0..MAZE_SIZE {
            assert_eq!(*s1.get(r, c), *s2.get(r, c));
        }
    }
    // recomputing over the same map overwrites any previous content
    s1.calc_step_map(&m, StepMapMode::UnexploredAsPresent, 0, 0);
    s2.calc_step_map(&m, StepMapMode::UnexploredAsPresent, 0, 0);
    for r in 0..MAZE_SIZE {
        for c in 0..MAZE_SIZE {
            assert_eq!(*s1.get(r, c), *s2.get(r, c));
        }
    }
}

#[test]
fn walled_off_goal_leaves_sentinel_everywhere_else() {
    let mut m = fully_open_maze();
    m.set_wall(5, 5, Direction::North, Wall::Present);
    m.set_wall(5, 5, Direction::East, Wall::Present);
    m.set_wall(5, 5, Direction::South, Wall::Present);
    m.set_wall(5, 5, Direction::West, Wall::Present);
    let mut s = StepMap::new();
    s.calc_step_map(&m, StepMapMode::UnexploredAsPresent, 5, 5);
    assert_eq!(*s.get(5, 5), 0);
    for r in 0..MAZE_SIZE {
        for c in 0..MAZE_SIZE {
            if !(r == 5 && c == 5) {
                assert_eq!(*s.get(r, c), STEP_SENTINEL);
            }
        }
    }
}

#[test]
fn mode_decides_whether_unexplored_blocks() {
    let mut m = fully_open_maze();
    m.set_wall(5, 5, Direction::North, Wall::Unexplored);
    m.set_wall(5, 5, Direction::East, Wall::Unexplored);
    m.set_wall(5, 5, Direction::South, Wall::Unexplored);
    m.set_wall(5, 5, Direction::West, Wall::Unexplored);

    let mut s = StepMap::new();
    s.calc_step_map(&m, StepMapMode::UnexploredAsPresent, 5, 5);
    assert_eq!(*s.get(5, 6), STEP_SENTINEL);
    assert_eq!(*s.get(4, 5), STEP_SENTINEL);

    s.calc_step_map(&m, StepMapMode::UnexploredAsAbsent, 5, 5);
    assert_eq!(*s.get(5, 6), 1);
    assert_eq!(*s.get(4, 5), 1);
}

#[test]
fn decide_prefers_east_on_tie() {
    let m = fully_open_maze();
    let mut s = StepMap::new();
    // from (2, 0) toward (1, 1): East and North both lead one step closer
    let d = decide_direction(&m, 1, 1, 2, 0, &mut s);
    assert_eq!(d, Some(Direction::East));
}

#[test]
fn decide_follows_single_opening() {
    // the start cell of a fresh maze is open only to the east
    let m = Maze::new();
    let mut s = StepMap::new();
    let d = decide_direction(&m, 8, 8, 0, 0, &mut s);
    assert_eq!(d, Some(Direction::East));
}

#[test]
fn decide_reports_unreachable_with_sentinel() {
    let mut m = fully_open_maze();
    m.set_wall(0, 0, Direction::East, Wall::Present);
    m.set_wall(0, 0, Direction::South, Wall::Present);
    let mut s = StepMap::new();
    let d = decide_direction(&m, 8, 8, 0, 0, &mut s);
    assert_eq!(d, None);
    assert_eq!(*s.get(0, 0), STEP_SENTINEL);
}

#[test]
fn decide_returns_none_without_a_known_absent_opening() {
    // all four sides Unexplored: planning still reaches the cell
    // optimistically, but an Unexplored side is never chosen for an actual
    // move, so no direction qualifies
    let mut m = fully_open_maze();
    m.set_wall(5, 5, Direction::North, Wall::Unexplored);
    m.set_wall(5, 5, Direction::East, Wall::Unexplored);
    m.set_wall(5, 5, Direction::South, Wall::Unexplored);
    m.set_wall(5, 5, Direction::West, Wall::Unexplored);
    let mut s = StepMap::new();
    let d = decide_direction(&m, 7, 7, 5, 5, &mut s);
    assert_eq!(d, None);
    assert!(*s.get(5, 5) < STEP_SENTINEL);
}

#[test]
fn distances_respect_a_wall_detour() {
    let mut m = fully_open_maze();
    // wall between (0, 0) and (0, 1): the way around goes through row 1
    m.set_wall(0, 0, Direction::East, Wall::Present);
    let mut s = StepMap::new();
    s.calc_step_map(&m, StepMapMode::UnexploredAsPresent, 0, 0);
    assert_eq!(*s.get(0, 0), 0);
    assert_eq!(*s.get(1, 0), 1);
    assert_eq!(*s.get(1, 1), 2);
    assert_eq!(*s.get(0, 1), 3);
}
