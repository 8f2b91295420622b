use mm_maze_solver::maze::{Direction, Maze, Wall, MAZE_SIZE};
use mm_maze_solver::reader::{read_maze, reader_step, ReaderState, ReaderStateMachine};
use mm_maze_solver::solver::{StepMap, StepMapMode};

/// Renders a diagram of a maze whose border is fully walled and whose
/// interior is open, with `S` at (0, 0) and `G` at (goal_row, goal_col):
/// alternating pillar lines (`+` and `-`/space) and cell lines (`|`/space
/// and the cell marker).
fn open_maze_diagram(goal_row: usize, goal_col: usize) -> Vec<u8> {
    let mut text = Vec::new();
    for row in 0..=MAZE_SIZE {
        for _ in 0..MAZE_SIZE {
            text.push(b'+');
            text.push(if row == 0 || row == MAZE_SIZE { b'-' } else { b' ' });
        }
        text.push(b'+');
        text.push(b'\n');
        if row < MAZE_SIZE {
            for col in 0..MAZE_SIZE {
                text.push(if col == 0 { b'|' } else { b' ' });
                text.push(if row == goal_row && col == goal_col {
                    b'G'
                } else if row == 0 && col == 0 {
                    b'S'
                } else {
                    b' '
                });
            }
            text.push(b'|');
            text.push(b'\n');
        }
    }
    text
}

#[test]
fn reader_machine_starts_at_pillar() {
    let m = ReaderStateMachine::new();
    assert_eq!(m.state, ReaderState::Pillar);
    assert_eq!(m.row, 0);
    assert_eq!(m.col, 0);
}

#[test]
fn reader_step_walks_the_states() {
    let mut machine = ReaderStateMachine::new();
    let mut maze = Maze::new();
    let mut goal_row: usize = 0;
    let mut goal_col: usize = 0;
    assert!(reader_step(&mut machine, b'+', &mut maze, &mut goal_row, &mut goal_col));
    assert_eq!(machine.state, ReaderState::HorizontalWall);
    assert!(reader_step(&mut machine, b'-', &mut maze, &mut goal_row, &mut goal_col));
    assert_eq!(machine.state, ReaderState::Pillar);
    assert_eq!(machine.col, 1);
    assert!(reader_step(&mut machine, b'+', &mut maze, &mut goal_row, &mut goal_col));
    assert!(reader_step(&mut machine, b'\n', &mut maze, &mut goal_row, &mut goal_col));
    assert_eq!(machine.state, ReaderState::VerticalWall);
    assert_eq!(machine.col, 0);
    assert!(reader_step(&mut machine, b'|', &mut maze, &mut goal_row, &mut goal_col));
    assert_eq!(machine.state, ReaderState::Cell);
    assert!(reader_step(&mut machine, b'G', &mut maze, &mut goal_row, &mut goal_col));
    assert_eq!(machine.state, ReaderState::VerticalWall);
    assert_eq!((goal_row, goal_col), (0, 0));
}

#[test]
fn reader_step_rejects_wrong_byte_and_leaves_state_alone() {
    let mut machine = ReaderStateMachine::new();
    let mut maze = Maze::new();
    let mut goal_row: usize = 0;
    let mut goal_col: usize = 0;
    assert!(!reader_step(&mut machine, b'x', &mut maze, &mut goal_row, &mut goal_col));
    assert_eq!(machine.state, ReaderState::Pillar);
    assert!(reader_step(&mut machine, b'+', &mut maze, &mut goal_row, &mut goal_col));
    assert!(!reader_step(&mut machine, b'|', &mut maze, &mut goal_row, &mut goal_col));
    assert_eq!(machine.state, ReaderState::HorizontalWall);
}

#[test]
fn reader_step_writes_interior_walls() {
    let mut machine = ReaderStateMachine { state: ReaderState::HorizontalWall, row: 3, col: 5 };
    let mut maze = Maze::new();
    let mut goal_row: usize = 0;
    let mut goal_col: usize = 0;
    assert!(reader_step(&mut machine, b'-', &mut maze, &mut goal_row, &mut goal_col));
    assert_eq!(maze.get_cell(3, 5).north, Wall::Present);
    assert_eq!(maze.get_cell(2, 5).south, Wall::Present);

    let mut machine = ReaderStateMachine { state: ReaderState::VerticalWall, row: 6, col: 2 };
    assert!(reader_step(&mut machine, b'|', &mut maze, &mut goal_row, &mut goal_col));
    assert_eq!(maze.get_cell(6, 2).west, Wall::Present);
    assert_eq!(maze.get_cell(6, 1).east, Wall::Present);
}

#[test]
fn read_maze_parses_full_diagram_and_reports_goal() {
    let text = open_maze_diagram(9, 12);
    let mut maze = Maze::new();
    let mut goal_row: usize = 0;
    let mut goal_col: usize = 0;
    assert!(read_maze(&text, &mut maze, &mut goal_row, &mut goal_col));
    assert_eq!((goal_row, goal_col), (9, 12));
    for i in 0..MAZE_SIZE {
        assert_eq!(maze.get_cell(0, i).north, Wall::Present);
        assert_eq!(maze.get_cell(MAZE_SIZE - 1, i).south, Wall::Present);
        assert_eq!(maze.get_cell(i, 0).west, Wall::Present);
        assert_eq!(maze.get_cell(i, MAZE_SIZE - 1).east, Wall::Present);
    }
    assert_eq!(maze.get_cell(4, 4).east, Wall::Absent);
}

#[test]
fn read_maze_rejects_malformed_text() {
    let mut maze = Maze::new();
    let mut goal_row: usize = 0;
    let mut goal_col: usize = 0;
    let text: Vec<u8> = b"++".to_vec();
    assert!(!read_maze(&text, &mut maze, &mut goal_row, &mut goal_col));

    let mut maze = Maze::new();
    let text: Vec<u8> = b"-".to_vec();
    assert!(!read_maze(&text, &mut maze, &mut goal_row, &mut goal_col));
}

#[test]
fn parsed_maze_feeds_the_solver() {
    let text = open_maze_diagram(3, 3);
    let mut maze = Maze::new();
    // undo the start carve so the parsed maze is fully open inside
    maze.set_wall(0, 0, Direction::South, Wall::Absent);
    let mut goal_row: usize = 0;
    let mut goal_col: usize = 0;
    assert!(read_maze(&text, &mut maze, &mut goal_row, &mut goal_col));
    let mut s = StepMap::new();
    s.calc_step_map(&maze, StepMapMode::UnexploredAsPresent, goal_row, goal_col);
    assert_eq!(*s.get(3, 3), 0);
    assert_eq!(*s.get(0, 0), 6);
    assert_eq!(*s.get(15, 15), 24);
}
