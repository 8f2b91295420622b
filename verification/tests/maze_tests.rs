use mm_maze_solver::maze::{
    fblr_to_nsew, nsew_to_fblr, nsew_to_index, tozainanboku, Cell, Direction, DirectionOfTravel,
    Facing, Maze, Position, Wall, MAZE_SIZE,
};

const DIRECTIONS: [Direction; 4] = [
    Direction::North,
    Direction::East,
    Direction::South,
    Direction::West,
];

fn opposite(d: Direction) -> Direction {
    match d {
        Direction::North => Direction::South,
        Direction::East => Direction::West,
        Direction::South => Direction::North,
        Direction::West => Direction::East,
    }
}

#[test]
fn new_maze_has_border_walls_present() {
    let m = Maze::new();
    for i in 0..MAZE_SIZE {
        assert_eq!(m.get_cell(0, i).north, Wall::Present);
        assert_eq!(m.get_cell(MAZE_SIZE - 1, i).south, Wall::Present);
        assert_eq!(m.get_cell(i, 0).west, Wall::Present);
        assert_eq!(m.get_cell(i, MAZE_SIZE - 1).east, Wall::Present);
    }
}

#[test]
fn new_maze_start_cell_open_only_forward() {
    let m = Maze::new();
    let start = m.get_cell(0, 0);
    assert_eq!(start.north, Wall::Present);
    assert_eq!(start.west, Wall::Present);
    assert_eq!(start.south, Wall::Present);
    assert_eq!(start.east, Wall::Absent);
    // the south wall is mirrored onto (1, 0)
    assert_eq!(m.get_cell(1, 0).north, Wall::Present);
}

#[test]
fn new_maze_no_other_wall_present() {
    let m = Maze::new();
    for r in 0..MAZE_SIZE {
        for c in 0..MAZE_SIZE {
            let cell = m.get_cell(r, c);
            let start_south = r == 0 && c == 0;
            let start_mirror = r == 1 && c == 0;
            assert_eq!(
                cell.north,
                if r == 0 || start_mirror { Wall::Present } else { Wall::Absent }
            );
            assert_eq!(
                cell.south,
                if r == MAZE_SIZE - 1 || start_south { Wall::Present } else { Wall::Absent }
            );
            assert_eq!(cell.west, if c == 0 { Wall::Present } else { Wall::Absent });
            assert_eq!(
                cell.east,
                if c == MAZE_SIZE - 1 { Wall::Present } else { Wall::Absent }
            );
        }
    }
}

#[test]
fn set_wall_mirrors_on_neighbor() {
    let mut m = Maze::new();
    m.set_wall(4, 7, Direction::East, Wall::Present);
    assert_eq!(m.get_cell(4, 7).east, Wall::Present);
    assert_eq!(m.get_cell(4, 8).west, Wall::Present);
    m.set_wall(4, 7, Direction::South, Wall::Unexplored);
    assert_eq!(m.get_cell(4, 7).south, Wall::Unexplored);
    assert_eq!(m.get_cell(5, 7).north, Wall::Unexplored);
}

#[test]
fn mirroring_holds_after_arbitrary_mutations() {
    let mut m = Maze::new();
    m.set_wall(4, 7, Direction::East, Wall::Present);
    m.set_wall(0, 3, Direction::North, Wall::Present);
    m.set_wall(9, 9, Direction::West, Wall::Unexplored);
    m.set_wall(15, 2, Direction::South, Wall::Present);
    m.set_wall(8, 0, Direction::North, Wall::Absent);
    for r in 0..MAZE_SIZE {
        for c in 0..MAZE_SIZE {
            for d in DIRECTIONS {
                if let Some(n) = m.get_neighbor(r, c, d) {
                    assert_eq!(m.get_cell(r, c).get(d), n.get(opposite(d)));
                }
            }
        }
    }
}

#[test]
fn set_wall_at_boundary_is_a_no_op() {
    let mut m = Maze::new();
    m.set_wall(0, 5, Direction::North, Wall::Absent);
    assert_eq!(m.get_cell(0, 5).north, Wall::Present);
    m.set_wall(15, 5, Direction::South, Wall::Absent);
    assert_eq!(m.get_cell(15, 5).south, Wall::Present);
    m.set_wall(5, 0, Direction::West, Wall::Absent);
    assert_eq!(m.get_cell(5, 0).west, Wall::Present);
    m.set_wall(5, 15, Direction::East, Wall::Absent);
    assert_eq!(m.get_cell(5, 15).east, Wall::Present);
}

#[test]
fn set_wall2_resolves_relative_direction() {
    let mut m = Maze::new();
    // heading East, right-hand side is South
    m.set_wall2(3, 3, Direction::East, Facing::Right, Wall::Present);
    assert_eq!(m.get_cell(3, 3).south, Wall::Present);
    assert_eq!(m.get_cell(4, 3).north, Wall::Present);
    // heading North, left-hand side is West
    m.set_wall2(3, 3, Direction::North, Facing::Left, Wall::Present);
    assert_eq!(m.get_cell(3, 3).west, Wall::Present);
    assert_eq!(m.get_cell(3, 2).east, Wall::Present);
}

#[test]
fn get_neighbor_none_at_grid_edges() {
    let m = Maze::new();
    assert!(m.get_neighbor(0, 5, Direction::North).is_none());
    assert!(m.get_neighbor(15, 5, Direction::South).is_none());
    assert!(m.get_neighbor(5, 0, Direction::West).is_none());
    assert!(m.get_neighbor(5, 15, Direction::East).is_none());
    assert!(m.get_neighbor(1, 5, Direction::North).is_some());
    assert!(m.get_neighbor(5, 14, Direction::East).is_some());
}

#[test]
fn get_mut_writes_through() {
    let mut m = Maze::new();
    *m.get_mut(2, 2) = Cell {
        north: Wall::Unexplored,
        east: Wall::Unexplored,
        south: Wall::Unexplored,
        west: Wall::Unexplored,
    };
    assert_eq!(m.get(2, 2).north, Wall::Unexplored);
}

#[test]
fn get_neighbor_mut_writes_adjacent_cell() {
    let mut m = Maze::new();
    match m.get_neighbor_mut(2, 2, Direction::East) {
        Some(cell) => cell.north = Wall::Unexplored,
        None => panic!("neighbor expected"),
    }
    assert_eq!(m.get_cell(2, 3).north, Wall::Unexplored);
    assert!(m.get_neighbor_mut(0, 2, Direction::North).is_none());
}

#[test]
fn heading_round_trip_all_pairs() {
    for facing in DIRECTIONS {
        for d in DIRECTIONS {
            assert_eq!(fblr_to_nsew(facing, nsew_to_fblr(facing, d)), d);
        }
        for t in [
            DirectionOfTravel::Forward,
            DirectionOfTravel::Right,
            DirectionOfTravel::Left,
            DirectionOfTravel::Backward,
        ] {
            assert_eq!(nsew_to_fblr(facing, fblr_to_nsew(facing, t)), t);
        }
    }
}

#[test]
fn heading_conversion_table_spot_checks() {
    assert_eq!(
        nsew_to_fblr(Direction::East, Direction::North),
        DirectionOfTravel::Left
    );
    assert_eq!(
        nsew_to_fblr(Direction::South, Direction::East),
        DirectionOfTravel::Left
    );
    assert_eq!(
        fblr_to_nsew(Direction::West, DirectionOfTravel::Right),
        Direction::North
    );
    assert_eq!(
        fblr_to_nsew(Direction::East, DirectionOfTravel::Forward),
        Direction::East
    );
}

#[test]
fn nsew_to_index_vectors() {
    assert_eq!(nsew_to_index(Direction::North), (0, -1));
    assert_eq!(nsew_to_index(Direction::East), (1, 0));
    assert_eq!(nsew_to_index(Direction::South), (0, 1));
    assert_eq!(nsew_to_index(Direction::West), (-1, 0));
}

#[test]
fn traversal_order_is_east_west_south_north() {
    assert_eq!(tozainanboku(0), Direction::East);
    assert_eq!(tozainanboku(1), Direction::West);
    assert_eq!(tozainanboku(2), Direction::South);
    assert_eq!(tozainanboku(3), Direction::North);
}

#[test]
fn position_neighbor_arithmetic() {
    let p = Position::new(3, 4);
    assert_eq!(p.neighbor_position(Direction::North), Position::new(2, 4));
    let p = Position::new(3, 4);
    assert_eq!(p.neighbor_position(Direction::East), Position::new(3, 5));
    let p = Position::new(3, 4);
    assert_eq!(p.neighbor_position(Direction::South), Position::new(4, 4));
    let p = Position::new(3, 4);
    assert_eq!(p.neighbor_position(Direction::West), Position::new(3, 3));
}

#[test]
fn cell_new_and_get() {
    let c = Cell::new();
    for d in DIRECTIONS {
        assert_eq!(c.get(d), Wall::Absent);
    }
}

#[test]
fn lines_iter_renders_bottom_up() {
    let m = Maze::new();
    let mut it = m.lines_iter(3, 2);
    let mut lines: Vec<String> = Vec::new();
    while let Some(line) = it.next() {
        lines.push(line);
    }
    assert_eq!(lines.len(), 2 * MAZE_SIZE + 1);
    let full_wall: String =
        std::iter::repeat("+---").take(MAZE_SIZE).collect::<String>() + "+";
    // bottom edge first, top (north border) last
    assert_eq!(lines[0], full_wall);
    assert_eq!(lines[2 * MAZE_SIZE], full_wall);
    for line in &lines {
        assert_eq!(line.chars().count(), 4 * MAZE_SIZE + 1);
    }
    // goal marker at (x, y) = (3, 2): that cell row is line number 5 from
    // the bottom, and the marker's middle sits at character 4 * 3 + 2
    let goal_line = &lines[2 * MAZE_SIZE - 5];
    assert_eq!(goal_line.chars().nth(14), Some('G'));
    // start marker at (0, 0), on the line just below the top
    let start_line = &lines[2 * MAZE_SIZE - 1];
    assert_eq!(start_line.chars().nth(2), Some('S'));
    assert_eq!(start_line.chars().nth(0), Some('|'));
}

#[test]
fn lines_iter_marks_unexplored_walls() {
    let mut m = Maze::new();
    m.set_wall(5, 5, Direction::North, Wall::Unexplored);
    m.set_wall(5, 5, Direction::West, Wall::Unexplored);
    let mut it = m.lines_iter(15, 15);
    let mut lines: Vec<String> = Vec::new();
    while let Some(line) = it.next() {
        lines.push(line);
    }
    // the wall line above cell row 5 is line number 10 from the bottom
    let above = &lines[2 * MAZE_SIZE - 10];
    assert_eq!(&above[4 * 5..4 * 5 + 4], "+...");
    // the cell line of row 5 is line number 11 from the bottom
    let through = &lines[2 * MAZE_SIZE - 11];
    assert_eq!(through.chars().nth(4 * 5), Some(':'));
}

#[test]
fn lines_iter_is_restartable_by_recreation() {
    let m = Maze::new();
    let mut a = m.lines_iter(1, 1);
    let first_a = a.next().unwrap();
    let _ = a.next();
    let mut b = m.lines_iter(1, 1);
    assert_eq!(b.next().unwrap(), first_a);
}
