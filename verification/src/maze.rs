//! Grid maze model: cells with four tri-state wall slots, wall mirroring,
//! boundary rules, and the heading/direction algebra.
//!
//! The maze is an N x N grid (N = MAZE_SIZE) stored as a flat, row-major
//! vector. The start is the north-west cell (row 0, col 0), initially heading
//! East; the coordinate system has rows growing southward and columns growing
//! eastward.

use vstd::prelude::*;

verus! {

pub const MAZE_SIZE: usize = 16;

/// The grid side length as a mathematical integer.
pub open spec fn size() -> int {
    MAZE_SIZE as int
}

/// The number of cells in the grid: size() squared.
pub open spec fn area() -> int {
    256
}

/// Whether (row, col) lies inside the grid.
pub open spec fn in_range(row: int, col: int) -> bool {
    0 <= row < size() && 0 <= col < size()
}

/// Row-major position of (row, col) in the flat grid vector; the row stride
/// is the grid side length.
pub open spec fn idx(row: int, col: int) -> int {
    16 * row + col
}

/// Tri-state wall. A ground-truth maze only ever holds Present or Absent;
/// a partially known maze may hold Unexplored.
#[derive(Debug, Clone, Copy, PartialEq, Eq, Structural)]
pub enum Wall {
    Present,
    Absent,
    Unexplored,
}

/// Absolute compass direction.
#[derive(Debug, Clone, Copy, PartialEq, Eq, Structural)]
pub enum Direction {
    North,
    East,
    South,
    West,
}

/// Heading-relative direction of travel.
#[derive(Debug, Clone, Copy, PartialEq, Eq, Structural)]
pub enum DirectionOfTravel {
    Forward,
    Right,
    Left,
    Backward,
}

/// Heading-relative side, used when carving walls relative to a facing.
#[derive(Debug, Clone, Copy, PartialEq, Eq, Structural)]
pub enum Facing {
    Forward,
    Right,
    Left,
    Backward,
}

/// The compass direction opposite to `d`.
pub open spec fn opposite(d: Direction) -> Direction {
    match d {
        Direction::North => Direction::South,
        Direction::East => Direction::West,
        Direction::South => Direction::North,
        Direction::West => Direction::East,
    }
}

/// Whether the cell at (row, col) has a grid neighbor in direction `d`.
pub open spec fn has_neighbor(row: int, col: int, d: Direction) -> bool {
    match d {
        Direction::North => row > 0,
        Direction::East => col < size() - 1,
        Direction::South => row < size() - 1,
        Direction::West => col > 0,
    }
}

/// Row of the neighbor of (row, _) in direction `d`.
pub open spec fn neighbor_row(row: int, d: Direction) -> int {
    match d {
        Direction::North => row - 1,
        Direction::South => row + 1,
        _ => row,
    }
}

/// Column of the neighbor of (_, col) in direction `d`.
pub open spec fn neighbor_col(col: int, d: Direction) -> int {
    match d {
        Direction::East => col + 1,
        Direction::West => col - 1,
        _ => col,
    }
}

/// One cell of the maze: a wall slot on each of the four sides.
#[derive(Debug, Clone, Copy, PartialEq, Eq, Structural)]
pub struct Cell {
    pub north: Wall,
    pub east: Wall,
    pub south: Wall,
    pub west: Wall,
}

impl Cell {
    /// The wall on side `direction` of this cell.
    pub open spec fn wall(self, direction: Direction) -> Wall {
        match direction {
            Direction::North => self.north,
            Direction::East => self.east,
            Direction::South => self.south,
            Direction::West => self.west,
        }
    }

    /// A cell with all four walls Absent.
    pub fn new() -> (r: Self)
        ensures
            r.north == Wall::Absent,
            r.east == Wall::Absent,
            r.south == Wall::Absent,
            r.west == Wall::Absent,
    {
        Cell {
            north: Wall::Absent,
            east: Wall::Absent,
            south: Wall::Absent,
            west: Wall::Absent,
        }
    }

    /// Reads the wall on side `direction`.
    pub fn get(&self, direction: Direction) -> (r: Wall)
        ensures
            r == self.wall(direction),
    {
        match direction {
            Direction::North => self.north,
            Direction::East => self.east,
            Direction::South => self.south,
            Direction::West => self.west,
        }
    }
}

/// An N x N grid of values of type T, stored flat in row-major order.
/// `MazeInfo<Cell>` is the maze proper; `MazeInfo<u16>` is the step map.
pub struct MazeInfo<T> {
    pub grid: Vec<T>,
}

impl<T> MazeInfo<T> {
    /// Well-formedness: the flat vector holds exactly N * N entries.
    pub open spec fn wf(&self) -> bool {
        self.grid@.len() == area()
    }

    /// The entry at (row, col).
    pub open spec fn at(&self, row: int, col: int) -> T {
        self.grid@[idx(row, col)]
    }

    /// Read-only access to the entry at (row, col).
    pub fn get(&self, row: usize, col: usize) -> (r: &T)
        requires
            self.wf(),
            row < MAZE_SIZE,
            col < MAZE_SIZE,
        ensures
            *r == self.at(row as int, col as int),
    {
        &self.grid[row * MAZE_SIZE + col]
    }

    /// Mutable access to the entry at (row, col).
    pub fn get_mut(&mut self, row: usize, col: usize) -> (r: &mut T)
        requires
            old(self).wf(),
            row < MAZE_SIZE,
            col < MAZE_SIZE,
        ensures
            *r == old(self).at(row as int, col as int),
            final(self).grid@ == old(self).grid@.update(
                idx(row as int, col as int),
                *final(r),
            ),
            final(self).wf(),
    {
        &mut self.grid[row * MAZE_SIZE + col]
    }

    /// The neighboring entry in direction `direction`, or None at the grid
    /// edge in that direction.
    pub fn get_neighbor(&self, row: usize, col: usize, direction: Direction) -> (r: Option<&T>)
        requires
            self.wf(),
            row < MAZE_SIZE,
            col < MAZE_SIZE,
        ensures
            r.is_some() == has_neighbor(row as int, col as int, direction),
            (match r {
                Some(v) => *v == self.at(
                    neighbor_row(row as int, direction),
                    neighbor_col(col as int, direction),
                ),
                None => true,
            }),
    {
        match direction {
            Direction::North => {
                if row == 0 {
                    None
                } else {
                    Some(self.get(row - 1, col))
                }
            }
            Direction::East => {
                if col == MAZE_SIZE - 1 {
                    None
                } else {
                    Some(self.get(row, col + 1))
                }
            }
            Direction::South => {
                if row == MAZE_SIZE - 1 {
                    None
                } else {
                    Some(self.get(row + 1, col))
                }
            }
            Direction::West => {
                if col == 0 {
                    None
                } else {
                    Some(self.get(row, col - 1))
                }
            }
        }
    }

    /// Mutable access to the neighboring entry in direction `direction`, or
    /// None at the grid edge in that direction.
    pub fn get_neighbor_mut(&mut self, row: usize, col: usize, direction: Direction) -> (r:
        Option<&mut T>)
        requires
            old(self).wf(),
            row < MAZE_SIZE,
            col < MAZE_SIZE,
        ensures
            r.is_some() == has_neighbor(row as int, col as int, direction),
            (match r {
                Some(m) => *m == old(self).at(
                    neighbor_row(row as int, direction),
                    neighbor_col(col as int, direction),
                ) && final(self).grid@ == old(self).grid@.update(
                    idx(
                        neighbor_row(row as int, direction),
                        neighbor_col(col as int, direction),
                    ),
                    *final(m),
                ),
                None => final(self).grid@ == old(self).grid@,
            }),
            final(self).wf(),
    {
        match direction {
            Direction::North => {
                if row == 0 {
                    None
                } else {
                    Some(self.get_mut(row - 1, col))
                }
            }
            Direction::East => {
                if col == MAZE_SIZE - 1 {
                    None
                } else {
                    Some(self.get_mut(row, col + 1))
                }
            }
            Direction::South => {
                if row == MAZE_SIZE - 1 {
                    None
                } else {
                    Some(self.get_mut(row + 1, col))
                }
            }
            Direction::West => {
                if col == 0 {
                    None
                } else {
                    Some(self.get_mut(row, col - 1))
                }
            }
        }
    }
}

/// A grid coordinate: (row, col), each in [0, N).
#[derive(Debug, Clone, Copy, PartialEq, Eq, Structural)]
pub struct Position {
    pub row: usize,
    pub col: usize,
}

impl Position {
    pub fn new(row: usize, col: usize) -> (r: Self)
        ensures
            r.row == row,
            r.col == col,
    {
        Position { row, col }
    }

    /// The coordinate one step away in direction `direction`.
    pub fn neighbor_position(self, direction: Direction) -> (r: Position)
        requires
            direction == Direction::North ==> self.row > 0,
            direction == Direction::West ==> self.col > 0,
            direction == Direction::South ==> self.row < usize::MAX,
            direction == Direction::East ==> self.col < usize::MAX,
        ensures
            r.row as int == neighbor_row(self.row as int, direction),
            r.col as int == neighbor_col(self.col as int, direction),
    {
        match direction {
            Direction::North => Position { row: self.row - 1, col: self.col },
            Direction::East => Position { row: self.row, col: self.col + 1 },
            Direction::West => Position { row: self.row, col: self.col - 1 },
            Direction::South => Position { row: self.row + 1, col: self.col },
        }
    }
}


/// The heading-relative direction of travel that corresponds to absolute
/// `direction` when the agent faces `facing`.
pub open spec fn travel_of(facing: Direction, direction: Direction) -> DirectionOfTravel {
    match facing {
        Direction::North => match direction {
            Direction::North => DirectionOfTravel::Forward,
            Direction::East => DirectionOfTravel::Right,
            Direction::South => DirectionOfTravel::Backward,
            Direction::West => DirectionOfTravel::Left,
        },
        Direction::East => match direction {
            Direction::North => DirectionOfTravel::Left,
            Direction::East => DirectionOfTravel::Forward,
            Direction::South => DirectionOfTravel::Right,
            Direction::West => DirectionOfTravel::Backward,
        },
        Direction::South => match direction {
            Direction::North => DirectionOfTravel::Backward,
            Direction::East => DirectionOfTravel::Left,
            Direction::South => DirectionOfTravel::Forward,
            Direction::West => DirectionOfTravel::Right,
        },
        Direction::West => match direction {
            Direction::North => DirectionOfTravel::Right,
            Direction::East => DirectionOfTravel::Backward,
            Direction::South => DirectionOfTravel::Left,
            Direction::West => DirectionOfTravel::Forward,
        },
    }
}

/// The absolute direction that heading-relative `direction` denotes when the
/// agent faces `facing`.
pub open spec fn absolute_of(facing: Direction, direction: DirectionOfTravel) -> Direction {
    match facing {
        Direction::North => match direction {
            DirectionOfTravel::Forward => Direction::North,
            DirectionOfTravel::Right => Direction::East,
            DirectionOfTravel::Backward => Direction::South,
            DirectionOfTravel::Left => Direction::West,
        },
        Direction::East => match direction {
            DirectionOfTravel::Forward => Direction::East,
            DirectionOfTravel::Right => Direction::South,
            DirectionOfTravel::Backward => Direction::West,
            DirectionOfTravel::Left => Direction::North,
        },
        Direction::South => match direction {
            DirectionOfTravel::Forward => Direction::South,
            DirectionOfTravel::Right => Direction::West,
            DirectionOfTravel::Backward => Direction::North,
            DirectionOfTravel::Left => Direction::East,
        },
        Direction::West => match direction {
            DirectionOfTravel::Forward => Direction::West,
            DirectionOfTravel::Right => Direction::North,
            DirectionOfTravel::Backward => Direction::East,
            DirectionOfTravel::Left => Direction::South,
        },
    }
}

/// Converts an absolute direction to the heading-relative one under `facing`.
pub fn nsew_to_fblr(facing: Direction, direction: Direction) -> (r: DirectionOfTravel)
    ensures
        r == travel_of(facing, direction),
{
    match facing {
        Direction::North => match direction {
            Direction::North => DirectionOfTravel::Forward,
            Direction::East => DirectionOfTravel::Right,
            Direction::South => DirectionOfTravel::Backward,
            Direction::West => DirectionOfTravel::Left,
        },
        Direction::East => match direction {
            Direction::North => DirectionOfTravel::Left,
            Direction::East => DirectionOfTravel::Forward,
            Direction::South => DirectionOfTravel::Right,
            Direction::West => DirectionOfTravel::Backward,
        },
        Direction::South => match direction {
            Direction::North => DirectionOfTravel::Backward,
            Direction::East => DirectionOfTravel::Left,
            Direction::South => DirectionOfTravel::Forward,
            Direction::West => DirectionOfTravel::Right,
        },
        Direction::West => match direction {
            Direction::North => DirectionOfTravel::Right,
            Direction::East => DirectionOfTravel::Backward,
            Direction::South => DirectionOfTravel::Left,
            Direction::West => DirectionOfTravel::Forward,
        },
    }
}

/// Converts a heading-relative direction back to the absolute one under
/// `facing`.
pub fn fblr_to_nsew(facing: Direction, direction: DirectionOfTravel) -> (r: Direction)
    ensures
        r == absolute_of(facing, direction),
{
    match facing {
        Direction::North => match direction {
            DirectionOfTravel::Forward => Direction::North,
            DirectionOfTravel::Right => Direction::East,
            DirectionOfTravel::Backward => Direction::South,
            DirectionOfTravel::Left => Direction::West,
        },
        Direction::East => match direction {
            DirectionOfTravel::Forward => Direction::East,
            DirectionOfTravel::Right => Direction::South,
            DirectionOfTravel::Backward => Direction::West,
            DirectionOfTravel::Left => Direction::North,
        },
        Direction::South => match direction {
            DirectionOfTravel::Forward => Direction::South,
            DirectionOfTravel::Right => Direction::West,
            DirectionOfTravel::Backward => Direction::North,
            DirectionOfTravel::Left => Direction::East,
        },
        Direction::West => match direction {
            DirectionOfTravel::Forward => Direction::West,
            DirectionOfTravel::Right => Direction::North,
            DirectionOfTravel::Backward => Direction::East,
            DirectionOfTravel::Left => Direction::South,
        },
    }
}

/// Heading bijection: per fixed facing, the two heading conversions are
/// mutually inverse. Round-tripping any absolute direction through
/// `nsew_to_fblr` then `fblr_to_nsew` returns the original direction, and
/// likewise for a heading-relative direction through the opposite pair.
pub proof fn lemma_heading_bijection(
    facing: Direction,
    direction: Direction,
    travel: DirectionOfTravel,
)
    ensures
        absolute_of(facing, travel_of(facing, direction)) == direction,
        travel_of(facing, absolute_of(facing, travel)) == travel,
{
}

/// The coordinate delta (dx, dy) of one step in `direction`: East is +x,
/// South is +y, West is -x, North is -y.
pub fn nsew_to_index(direction: Direction) -> (r: (isize, isize))
    ensures
        direction == Direction::North ==> r == (0isize, -1isize),
        direction == Direction::East ==> r == (1isize, 0isize),
        direction == Direction::South ==> r == (0isize, 1isize),
        direction == Direction::West ==> r == (-1isize, 0isize),
        forall|row: int| neighbor_row(row, direction) == row + r.1 as int,
        forall|col: int| neighbor_col(col, direction) == col + r.0 as int,
{
    match direction {
        Direction::North => (0, -1),
        Direction::East => (1, 0),
        Direction::South => (0, 1),
        Direction::West => (-1, 0),
    }
}

/// The fixed enumeration order of the four directions used by the step-map
/// relaxation and the move decision: East, West, South, North.
pub open spec fn order_dir(k: int) -> Direction {
    if k == 0 {
        Direction::East
    } else if k == 1 {
        Direction::West
    } else if k == 2 {
        Direction::South
    } else {
        Direction::North
    }
}

/// The `k`-th direction of the fixed enumeration order East, West, South,
/// North.
pub fn tozainanboku(k: usize) -> (d: Direction)
    requires
        k < 4,
    ensures
        d == order_dir(k as int),
{
    if k == 0 {
        Direction::East
    } else if k == 1 {
        Direction::West
    } else if k == 2 {
        Direction::South
    } else {
        Direction::North
    }
}


/// `cell` with the wall on side `d` replaced by `w`.
pub open spec fn cell_with_wall(cell: Cell, d: Direction, w: Wall) -> Cell {
    match d {
        Direction::North => Cell { north: w, ..cell },
        Direction::East => Cell { east: w, ..cell },
        Direction::South => Cell { south: w, ..cell },
        Direction::West => Cell { west: w, ..cell },
    }
}

/// The grid after setting the wall on side `d` of (row, col) to `w` and
/// mirroring it onto the neighbor's opposite side; unchanged when the
/// neighbor does not exist.
pub open spec fn grid_set_wall(g: Seq<Cell>, row: int, col: int, d: Direction, w: Wall) -> Seq<
    Cell,
> {
    if has_neighbor(row, col, d) {
        let nr = neighbor_row(row, d);
        let nc = neighbor_col(col, d);
        g.update(idx(row, col), cell_with_wall(g[idx(row, col)], d, w)).update(
            idx(nr, nc),
            cell_with_wall(g[idx(nr, nc)], opposite(d), w),
        )
    } else {
        g
    }
}

/// The two wall pairs that tie (r, c) to its north and west neighbors agree.
pub open spec fn mirrored_at(g: Seq<Cell>, r: int, c: int) -> bool {
    &&& (r > 0 ==> g[idx(r, c)].north == g[idx(r - 1, c)].south)
    &&& (c > 0 ==> g[idx(r, c)].west == g[idx(r, c - 1)].east)
}

/// Wall symmetry: every interior wall is stored consistently on both of the
/// cells that share it.
pub open spec fn grid_mirrored(g: Seq<Cell>) -> bool {
    forall|r: int, c: int| in_range(r, c) ==> #[trigger] mirrored_at(g, r, c)
}

/// Mirroring, stated for every direction: in a mirrored grid, a cell's wall
/// toward `d` equals the neighbor-in-direction-`d`'s wall toward the
/// opposite of `d`.
pub proof fn lemma_mirrored_wall(g: Seq<Cell>, row: int, col: int, d: Direction)
    requires
        grid_mirrored(g),
        in_range(row, col),
        has_neighbor(row, col, d),
    ensures
        g[idx(row, col)].wall(d) == g[idx(neighbor_row(row, d), neighbor_col(col, d))].wall(
            opposite(d),
        ),
{
    match d {
        Direction::North => assert(mirrored_at(g, row, col)),
        Direction::East => assert(mirrored_at(g, row, col + 1)),
        Direction::South => assert(mirrored_at(g, row + 1, col)),
        Direction::West => assert(mirrored_at(g, row, col)),
    }
}

/// Setting one wall (with its mirror write) preserves wall symmetry.
pub proof fn lemma_set_wall_mirrored(g: Seq<Cell>, row: int, col: int, d: Direction, w: Wall)
    requires
        g.len() == area(),
        grid_mirrored(g),
        in_range(row, col),
    ensures
        grid_mirrored(grid_set_wall(g, row, col, d, w)),
{
    let g2 = grid_set_wall(g, row, col, d, w);
    assert forall|r: int, c: int| in_range(r, c) implies #[trigger] mirrored_at(g2, r, c) by {
        assert(mirrored_at(g, r, c));
        if r > 0 {
            assert(mirrored_at(g, r, c));
        }
        if c > 0 {
            assert(mirrored_at(g, r, c));
        }
    }
}

/// The cell layout produced by the border pass of `Maze::new`, before the
/// start cell's carve: outward border walls Present, everything else Absent.
pub open spec fn border_cell(row: int, col: int) -> Cell {
    Cell {
        north: if row == 0 {
            Wall::Present
        } else {
            Wall::Absent
        },
        east: if col == size() - 1 {
            Wall::Present
        } else {
            Wall::Absent
        },
        south: if row == size() - 1 {
            Wall::Present
        } else {
            Wall::Absent
        },
        west: if col == 0 {
            Wall::Present
        } else {
            Wall::Absent
        },
    }
}

/// The cell layout of a freshly constructed maze: outward border walls
/// Present, and the start cell (0, 0) additionally walled off on its south
/// side (mirrored onto (1, 0)), leaving only its east side open.
pub open spec fn initial_cell(row: int, col: int) -> Cell {
    Cell {
        north: if row == 0 || (row == 1 && col == 0) {
            Wall::Present
        } else {
            Wall::Absent
        },
        east: if col == size() - 1 {
            Wall::Present
        } else {
            Wall::Absent
        },
        south: if row == size() - 1 || (row == 0 && col == 0) {
            Wall::Present
        } else {
            Wall::Absent
        },
        west: if col == 0 {
            Wall::Present
        } else {
            Wall::Absent
        },
    }
}

/// The whole grid of a freshly constructed maze, cell by cell.
pub open spec fn initial_grid() -> Seq<Cell> {
    Seq::new(area() as nat, |p: int| initial_cell(p / 16, p % 16))
}

/// The absolute direction denoted by relative side `facing` when heading in
/// `direction`.
pub open spec fn facing_to_absolute(direction: Direction, facing: Facing) -> Direction {
    match direction {
        Direction::North => match facing {
            Facing::Forward => Direction::North,
            Facing::Right => Direction::East,
            Facing::Backward => Direction::South,
            Facing::Left => Direction::West,
        },
        Direction::East => match facing {
            Facing::Forward => Direction::East,
            Facing::Right => Direction::South,
            Facing::Backward => Direction::West,
            Facing::Left => Direction::North,
        },
        Direction::South => match facing {
            Facing::Forward => Direction::South,
            Facing::Right => Direction::West,
            Facing::Backward => Direction::North,
            Facing::Left => Direction::East,
        },
        Direction::West => match facing {
            Facing::Forward => Direction::West,
            Facing::Right => Direction::North,
            Facing::Backward => Direction::East,
            Facing::Left => Direction::South,
        },
    }
}

impl MazeInfo<Cell> {
    /// Builds the maze: all walls Absent except the forced border walls and
    /// the start cell's non-forward walls. Deterministic, cannot fail.
    pub fn new() -> (r: Self)
        ensures
            r.wf(),
            forall|i: int, j: int|
                #![trigger r.at(i, j)]
                #![trigger r.grid@[idx(i, j)]]
                in_range(i, j) ==> r.at(i, j) == initial_cell(i, j),
            r.grid@ == initial_grid(),
            grid_mirrored(r.grid@),
    {
        let mut cells: Vec<Cell> = Vec::new();
        for i in 0..MAZE_SIZE
            invariant
                cells@.len() == 16 * i,
                forall|a: int, b: int|
                    in_range(a, b) && idx(a, b) < cells@.len() ==> cells@[idx(a, b)]
                        == border_cell(a, b),
        {
            for j in 0..MAZE_SIZE
                invariant
                    cells@.len() == 16 * i + j,
                    i < MAZE_SIZE,
                    forall|a: int, b: int|
                        in_range(a, b) && idx(a, b) < cells@.len() ==> cells@[idx(a, b)]
                            == border_cell(a, b),
            {
                cells.push(
                    Cell {
                        north: if i == 0 {
                            Wall::Present
                        } else {
                            Wall::Absent
                        },
                        east: if j == MAZE_SIZE - 1 {
                            Wall::Present
                        } else {
                            Wall::Absent
                        },
                        south: if i == MAZE_SIZE - 1 {
                            Wall::Present
                        } else {
                            Wall::Absent
                        },
                        west: if j == 0 {
                            Wall::Present
                        } else {
                            Wall::Absent
                        },
                    },
                );
                proof {
                    assert(idx(i as int, j as int) == cells@.len() - 1);
                }
            }
        }
        let mut maze = MazeInfo { grid: cells };
        proof {
            assert forall|r: int, c: int| in_range(r, c) implies #[trigger] mirrored_at(
                maze.grid@,
                r,
                c,
            ) by {
                assert(maze.grid@[idx(r, c)] == border_cell(r, c));
                if r > 0 {
                    assert(maze.grid@[idx(r - 1, c)] == border_cell(r - 1, c));
                }
                if c > 0 {
                    assert(maze.grid@[idx(r, c - 1)] == border_cell(r, c - 1));
                }
            }
        }

        // The starting cell is walled off except for the front: heading East,
        // its right-hand side (south) is closed; north and west are border.
        maze.set_wall2(0, 0, Direction::East, Facing::Right, Wall::Present);

        proof {
            assert forall|i: int, j: int| in_range(i, j) implies maze.at(i, j) == initial_cell(
                i,
                j,
            ) by {
                assert(mirrored_at(maze.grid@, i, j));
            }
            assert forall|p: int| 0 <= p < maze.grid@.len() implies maze.grid@[p]
                == initial_grid()[p] by {
                let rr = p / 16;
                let cc = p % 16;
                assert(in_range(rr, cc));
                assert(idx(rr, cc) == p);
                assert(maze.at(rr, cc) == initial_cell(rr, cc));
            }
            assert(maze.grid@ =~= initial_grid());
        }
        maze
    }

    /// Sets the wall on the side of (row, col) named by relative direction
    /// `facing` under heading `direction`, mirroring as `set_wall` does.
    pub fn set_wall2(&mut self, row: usize, col: usize, direction: Direction, facing: Facing, wall: Wall)
        requires
            old(self).wf(),
            row < MAZE_SIZE,
            col < MAZE_SIZE,
        ensures
            final(self).wf(),
            final(self).grid@ == grid_set_wall(
                old(self).grid@,
                row as int,
                col as int,
                facing_to_absolute(direction, facing),
                wall,
            ),
            grid_mirrored(old(self).grid@) ==> grid_mirrored(final(self).grid@),
    {
        let actual_direction: Direction = match direction {
            Direction::North => match facing {
                Facing::Forward => Direction::North,
                Facing::Right => Direction::East,
                Facing::Backward => Direction::South,
                Facing::Left => Direction::West,
            },
            Direction::East => match facing {
                Facing::Forward => Direction::East,
                Facing::Right => Direction::South,
                Facing::Backward => Direction::West,
                Facing::Left => Direction::North,
            },
            Direction::South => match facing {
                Facing::Forward => Direction::South,
                Facing::Right => Direction::West,
                Facing::Backward => Direction::North,
                Facing::Left => Direction::East,
            },
            Direction::West => match facing {
                Facing::Forward => Direction::West,
                Facing::Right => Direction::North,
                Facing::Backward => Direction::East,
                Facing::Left => Direction::South,
            },
        };
        self.set_wall(row, col, actual_direction, wall)
    }

    /// Sets the wall on side `direction` of (row, col) and mirrors it onto
    /// the adjacent cell's opposite side when that neighbor exists; does
    /// nothing at the grid boundary (boundary writes are deliberately
    /// permitted and ignored).
    pub fn set_wall(&mut self, row: usize, col: usize, direction: Direction, wall: Wall)
        requires
            old(self).wf(),
            row < MAZE_SIZE,
            col < MAZE_SIZE,
        ensures
            final(self).wf(),
            final(self).grid@ == grid_set_wall(
                old(self).grid@,
                row as int,
                col as int,
                direction,
                wall,
            ),
            grid_mirrored(old(self).grid@) ==> grid_mirrored(final(self).grid@),
    {
        proof {
            if grid_mirrored(old(self).grid@) {
                lemma_set_wall_mirrored(old(self).grid@, row as int, col as int, direction, wall);
            }
        }
        match direction {
            Direction::North => {
                if row > 0 {
                    self.get_mut(row, col).north = wall;
                    self.get_mut(row - 1, col).south = wall;
                }
            }
            Direction::East => {
                if col < MAZE_SIZE - 1 {
                    self.get_mut(row, col).east = wall;
                    self.get_mut(row, col + 1).west = wall;
                }
            }
            Direction::South => {
                if row < MAZE_SIZE - 1 {
                    self.get_mut(row, col).south = wall;
                    self.get_mut(row + 1, col).north = wall;
                }
            }
            Direction::West => {
                if col > 0 {
                    self.get_mut(row, col).west = wall;
                    self.get_mut(row, col - 1).east = wall;
                }
            }
        }
    }

    /// Read-only access to the cell at (row, col).
    pub fn get_cell(&self, row: usize, col: usize) -> (r: &Cell)
        requires
            self.wf(),
            row < MAZE_SIZE,
            col < MAZE_SIZE,
        ensures
            *r == self.at(row as int, col as int),
    {
        self.get(row, col)
    }

    /// A fresh bottom-up line rendering of this maze with the goal marker at
    /// (x, y) = (goal_x, goal_y).
    pub fn lines_iter(&self, goal_x: usize, goal_y: usize) -> (r: MazeLinesIter<'_>)
        requires
            self.wf(),
        ensures
            r.wf(),
            r.maze_info == self,
            r.goal_x == goal_x,
            r.goal_y == goal_y,
            r.current_line == 2 * MAZE_SIZE,
            !r.is_finished,
    {
        MazeLinesIter::new(self, goal_x, goal_y)
    }
}

/// The maze proper: an N x N grid of cells.
pub type Maze = MazeInfo<Cell>;


/// No side of `cell` is Unexplored. A ground-truth maze satisfies this for
/// every cell, and so does a local maze that only ever copies ground-truth
/// walls.
pub open spec fn cell_known(cell: Cell) -> bool {
    &&& cell.north != Wall::Unexplored
    &&& cell.east != Wall::Unexplored
    &&& cell.south != Wall::Unexplored
    &&& cell.west != Wall::Unexplored
}

/// Every cell of the grid has only Present or Absent walls.
pub open spec fn grid_known(g: Seq<Cell>) -> bool {
    forall|p: int| 0 <= p < g.len() ==> #[trigger] cell_known(g[p])
}

/// Writing a Present or Absent wall keeps every wall of the grid known.
pub proof fn lemma_set_wall_known(g: Seq<Cell>, row: int, col: int, d: Direction, w: Wall)
    requires
        g.len() == area(),
        in_range(row, col),
        grid_known(g),
        w != Wall::Unexplored,
    ensures
        grid_known(grid_set_wall(g, row, col, d, w)),
{
    let g2 = grid_set_wall(g, row, col, d, w);
    assert forall|p: int| 0 <= p < g2.len() implies #[trigger] cell_known(g2[p]) by {
        assert(cell_known(g[p]));
    }
}

/// The fixed start cell's row.
pub const MAZE_START_Y: usize = 0;

/// The fixed start cell's column.
pub const MAZE_START_X: usize = 0;

/// Relies on std's String::push: appends the character to the string.
pub assume_specification[ String::push ](s: &mut String, ch: char)
    ensures
        final(s)@ == old(s)@.push(ch),
;

/// Relies on std's String::push_str: appends the slice's characters to the
/// string.
pub assume_specification[ String::push_str ](s: &mut String, other: &str)
    ensures
        final(s)@ == old(s)@ + other@,
;

/// The three characters that render a horizontal wall segment.
pub open spec fn h_wall_chars(w: Wall) -> Seq<char> {
    match w {
        Wall::Present => seq!['-', '-', '-'],
        Wall::Absent => seq![' ', ' ', ' '],
        Wall::Unexplored => seq!['.', '.', '.'],
    }
}

/// The character that renders a vertical wall segment.
pub open spec fn v_wall_char(w: Wall) -> char {
    match w {
        Wall::Present => '|',
        Wall::Absent => ' ',
        Wall::Unexplored => ':',
    }
}

/// The three characters that render a cell's interior: the goal marker, the
/// start marker, or blanks.
pub open spec fn cell_marker_chars(goal_x: int, goal_y: int, x: int, y: int) -> Seq<char> {
    if goal_x == x && goal_y == y {
        seq![' ', 'G', ' ']
    } else if x == MAZE_START_X as int && y == MAZE_START_Y as int {
        seq![' ', 'S', ' ']
    } else {
        seq![' ', ' ', ' ']
    }
}

/// The first `x` pillar-and-segment groups of the horizontal line above cell
/// row `y` (the bottom edge when y equals the grid side).
pub open spec fn wall_line_prefix(g: Seq<Cell>, y: int, x: int) -> Seq<char>
    decreases x,
{
    if x <= 0 {
        Seq::empty()
    } else {
        wall_line_prefix(g, y, x - 1) + seq!['+'] + (if y < size() {
            h_wall_chars(g[idx(y, x - 1)].north)
        } else {
            seq!['-', '-', '-']
        })
    }
}

/// The whole horizontal line above cell row `y`.
pub open spec fn wall_line(g: Seq<Cell>, y: int) -> Seq<char> {
    wall_line_prefix(g, y, size()) + seq!['+']
}

/// The first `x` wall-and-marker groups of the line through cell row `y`.
pub open spec fn cell_line_prefix(g: Seq<Cell>, goal_x: int, goal_y: int, y: int, x: int) -> Seq<
    char,
>
    decreases x,
{
    if x <= 0 {
        Seq::empty()
    } else {
        cell_line_prefix(g, goal_x, goal_y, y, x - 1) + seq![v_wall_char(g[idx(y, x - 1)].west)]
            + cell_marker_chars(goal_x, goal_y, x - 1, y)
    }
}

/// The whole line through cell row `y`: west walls, markers, and the east
/// border wall.
pub open spec fn cell_line(g: Seq<Cell>, goal_x: int, goal_y: int, y: int) -> Seq<char> {
    cell_line_prefix(g, goal_x, goal_y, y, size()) + seq![v_wall_char(g[idx(y, size() - 1)].east)]
}

/// Line number `line_no` of the rendered maze, counted so that the bottom
/// edge is 2 * size() (yielded first) and the top border is 0 (yielded
/// last): even numbers are horizontal wall lines, odd numbers run through a
/// cell row.
pub open spec fn maze_line(g: Seq<Cell>, goal_x: int, goal_y: int, line_no: int) -> Seq<char> {
    if line_no % 2 == 0 {
        wall_line(g, line_no / 2)
    } else {
        cell_line(g, goal_x, goal_y, line_no / 2)
    }
}

/// A lazily produced, finite sequence of the maze's printable text lines,
/// walls plus start and goal markers, yielded from the bottom line upward;
/// restartable by re-creation.
pub struct MazeLinesIter<'a> {
    pub maze_info: &'a MazeInfo<Cell>,
    pub goal_x: usize,
    pub goal_y: usize,
    pub current_line: usize,
    pub is_finished: bool,
}

impl<'a> MazeLinesIter<'a> {
    /// The iterator's cursor stays within the rendered line range.
    pub open spec fn wf(&self) -> bool {
        self.maze_info.wf() && self.current_line <= 2 * MAZE_SIZE
    }

    fn new(maze_info: &'a MazeInfo<Cell>, goal_x: usize, goal_y: usize) -> (r: Self)
        requires
            maze_info.wf(),
        ensures
            r.wf(),
            r.maze_info == maze_info,
            r.goal_x == goal_x,
            r.goal_y == goal_y,
            r.current_line == 2 * MAZE_SIZE,
            !r.is_finished,
    {
        MazeLinesIter { maze_info, goal_x, goal_y, current_line: MAZE_SIZE * 2, is_finished: false }
    }

    /// Yields the next line, from the bottom of the rendering upward, and
    /// None once all 2 * size() + 1 lines are out.
    pub fn next(&mut self) -> (r: Option<String>)
        requires
            old(self).wf(),
        ensures
            final(self).wf(),
            final(self).maze_info == old(self).maze_info,
            final(self).goal_x == old(self).goal_x,
            final(self).goal_y == old(self).goal_y,
            r.is_none() == old(self).is_finished,
            old(self).is_finished ==> *final(self) == *old(self),
            !old(self).is_finished ==> r.unwrap()@ == maze_line(
                old(self).maze_info.grid@,
                old(self).goal_x as int,
                old(self).goal_y as int,
                old(self).current_line as int,
            ),
            !old(self).is_finished && old(self).current_line > 0 ==> final(self).current_line
                == old(self).current_line - 1 && !final(self).is_finished,
            !old(self).is_finished && old(self).current_line == 0 ==> final(self).is_finished,
    {
        if self.is_finished {
            return None;
        }

        let ghost g = self.maze_info.grid@;
        let mut line = String::new();
        let y = self.current_line / 2;

        if self.current_line % 2 == 0 {
            // Top wall of cells
            for x in 0..MAZE_SIZE
                invariant
                    self.maze_info.wf(),
                    g == self.maze_info.grid@,
                    y == self.current_line / 2,
                    self.current_line <= 2 * MAZE_SIZE,
                    line@ == wall_line_prefix(g, y as int, x as int),
            {
                line.push('+');
                if y < MAZE_SIZE {
                    match self.maze_info.get_cell(y, x).north {
                        Wall::Present => line.push_str("---"),
                        Wall::Absent => line.push_str("   "),
                        Wall::Unexplored => line.push_str("..."),
                    }
                } else {
                    // This is the bottom edge of the maze
                    line.push_str("---");
                }
                proof {
                    reveal_strlit("---");
                    reveal_strlit("   ");
                    reveal_strlit("...");
                    assert(line@ =~= wall_line_prefix(g, y as int, x as int + 1));
                }
            }
            line.push('+');
            proof {
                assert(line@ =~= wall_line(g, y as int));
            }
        } else {
            // Sides of cells
            for x in 0..MAZE_SIZE
                invariant
                    self.maze_info.wf(),
                    g == self.maze_info.grid@,
                    y == self.current_line / 2,
                    self.current_line <= 2 * MAZE_SIZE,
                    self.current_line % 2 == 1,
                    line@ == cell_line_prefix(
                        g,
                        self.goal_x as int,
                        self.goal_y as int,
                        y as int,
                        x as int,
                    ),
            {
                match self.maze_info.get_cell(y, x).west {
                    Wall::Present => line.push('|'),
                    Wall::Absent => line.push(' '),
                    Wall::Unexplored => line.push(':'),
                }
                if self.goal_x == x && self.goal_y == y {
                    line.push_str(" G ");
                } else if MAZE_START_X == x && MAZE_START_Y == y {
                    line.push_str(" S ");
                } else {
                    line.push_str("   ");
                }
                proof {
                    reveal_strlit(" G ");
                    reveal_strlit(" S ");
                    reveal_strlit("   ");
                    assert(line@ =~= cell_line_prefix(
                        g,
                        self.goal_x as int,
                        self.goal_y as int,
                        y as int,
                        x as int + 1,
                    ));
                }
            }
            match self.maze_info.get_cell(y, MAZE_SIZE - 1).east {
                Wall::Present => line.push('|'),
                Wall::Absent => line.push(' '),
                Wall::Unexplored => line.push(':'),
            }
            proof {
                assert(line@ =~= cell_line(g, self.goal_x as int, self.goal_y as int, y as int));
            }
        }

        if self.current_line == 0 {
            self.is_finished = true;
        } else {
            self.current_line = self.current_line - 1;
        }

        Some(line)
    }
}

} // verus!
