//! The maze's geometry: directions, coordinates, cells and the grid itself.

use vstd::prelude::*;

pub use crate::generate::MazeGenerator;
pub use crate::solve::{find_path_to_exit, SolutionPath};


verus! {

/// One of the six ways out of a cell.
#[derive(Debug, Clone, Copy, PartialEq, Eq, Structural)]
pub enum Direction {
    North,
    South,
    East,
    West,
    Up,
    Down,
}

impl Direction {
    /// The direction that undoes a step in this one.
    pub open spec fn spec_opposite(&self) -> Direction {
        match self {
            Direction::North => Direction::South,
            Direction::South => Direction::North,
            Direction::East => Direction::West,
            Direction::West => Direction::East,
            Direction::Up => Direction::Down,
            Direction::Down => Direction::Up,
        }
    }

    /// The slot of this direction's door within a cell.
    pub open spec fn spec_index(self) -> int {
        match self {
            Direction::North => 0,
            Direction::South => 1,
            Direction::East => 2,
            Direction::West => 3,
            Direction::Up => 4,
            Direction::Down => 5,
        }
    }

    /// The direction that undoes a step in this one.
    #[verifier::when_used_as_spec(spec_opposite)]
    pub fn opposite(&self) -> (r: Self)
        ensures
            r == self.spec_opposite(),
    {
        match self {
            Self::North => Self::South,
            Self::South => Self::North,
            Self::East => Self::West,
            Self::West => Self::East,
            Self::Up => Self::Down,
            Self::Down => Self::Up,
        }
    }

    /// The door slot of this direction, below six.
    pub fn index(&self) -> (r: usize)
        ensures
            r == self.spec_index(),
            r < 6,
    {
        match self {
            Self::North => 0,
            Self::South => 1,
            Self::East => 2,
            Self::West => 3,
            Self::Up => 4,
            Self::Down => 5,
        }
    }

    /// The display label of this direction, as a string.
    pub open spec fn label_text(self) -> &'static str {
        match self {
            Direction::North => "North",
            Direction::South => "South",
            Direction::East => "East",
            Direction::West => "West",
            Direction::Up => "Up",
            Direction::Down => "Down",
        }
    }

    /// The display label of this direction.
    pub fn label(&self) -> (r: &'static str)
        ensures
            r == self.label_text(),
    {
        match self {
            Self::North => "North",
            Self::South => "South",
            Self::East => "East",
            Self::West => "West",
            Self::Up => "Up",
            Self::Down => "Down",
        }
    }
}

impl Default for Direction {
    fn default() -> (r: Self)
        ensures
            r == Direction::North,
    {
        Self::North
    }
}

impl<'a> From<Direction> for &'a str {
    fn from(direction: Direction) -> (r: Self) {
        direction.label()
    }
}

impl<'a> vstd::std_specs::convert::FromSpecImpl<Direction> for &'a str {
    open spec fn obeys_from_spec() -> bool {
        true
    }

    open spec fn from_spec(direction: Direction) -> Self {
        direction.label_text()
    }
}

/// Taking the opposite twice gives the direction back, and the two never
/// share a door slot.
pub proof fn lemma_opposite_involution(d: Direction)
    ensures
        d.spec_opposite().spec_opposite() == d,
        d.spec_opposite() != d,
{
}

/// A door as the player sees it, relative to where they face.
#[allow(unused)]
#[derive(Debug, Clone, Copy, PartialEq, Eq, Structural)]
pub enum VisibleDoors {
    Left,
    Forward,
    Right,
    Up,
    Down,
}

impl VisibleDoors {
    /// The absolute direction behind this door for a player facing `facing`.
    /// A player facing up or down is treated as facing north.
    pub open spec fn spec_direction(&self, facing: Direction) -> Direction {
        match self {
            VisibleDoors::Up => Direction::Up,
            VisibleDoors::Down => Direction::Down,
            VisibleDoors::Forward => facing,
            VisibleDoors::Left => match facing {
                Direction::East => Direction::North,
                Direction::South => Direction::East,
                Direction::West => Direction::South,
                _ => Direction::West,
            },
            VisibleDoors::Right => match facing {
                Direction::East => Direction::South,
                Direction::South => Direction::West,
                Direction::West => Direction::North,
                _ => Direction::East,
            },
        }
    }

    /// The absolute direction behind this door for a player facing `facing`.
    #[verifier::when_used_as_spec(spec_direction)]
    pub fn direction(&self, facing: Direction) -> (r: Direction)
        ensures
            r == self.spec_direction(facing),
    {
        match self {
            Self::Up => Direction::Up,
            Self::Down => Direction::Down,
            Self::Left => match facing {
                Direction::East => Direction::North,
                Direction::South => Direction::East,
                Direction::West => Direction::South,
                _ => Direction::West,
            },
            Self::Right => match facing {
                Direction::East => Direction::South,
                Direction::South => Direction::West,
                Direction::West => Direction::North,
                _ => Direction::East,
            },
            Self::Forward => facing,
        }
    }

    /// The door slot behind this door for a player facing `facing`.
    pub fn direction_as_index(&self, facing: Direction) -> (r: usize)
        ensures
            r == self.spec_direction(facing).spec_index(),
            r < 6,
    {
        self.direction(facing).index()
    }
}

/// Whether a direction lies in the horizontal plane.
pub open spec fn is_compass(d: Direction) -> bool {
    d != Direction::Up && d != Direction::Down
}

/// Four quarter turns to the same side bring a compass facing back to
/// itself; a left turn and a right turn cancel.
pub proof fn lemma_four_turns(facing: Direction)
    requires
        is_compass(facing),
    ensures
        VisibleDoors::Left.spec_direction(
            VisibleDoors::Left.spec_direction(
                VisibleDoors::Left.spec_direction(VisibleDoors::Left.spec_direction(facing)),
            ),
        ) == facing,
        VisibleDoors::Right.spec_direction(
            VisibleDoors::Right.spec_direction(
                VisibleDoors::Right.spec_direction(VisibleDoors::Right.spec_direction(facing)),
            ),
        ) == facing,
        VisibleDoors::Right.spec_direction(VisibleDoors::Left.spec_direction(facing)) == facing,
        VisibleDoors::Left.spec_direction(VisibleDoors::Right.spec_direction(facing)) == facing,
        is_compass(VisibleDoors::Left.spec_direction(facing)),
        is_compass(VisibleDoors::Right.spec_direction(facing)),
{
}

/// A position in, or just outside, the grid.
#[derive(Debug, Clone, Copy, PartialEq, Eq, Structural)]
pub struct Coord {
    pub x: isize,
    pub y: isize,
    pub z: isize,
}

impl Default for Coord {
    fn default() -> (r: Self)
        ensures
            r == (Coord { x: 0, y: 0, z: 0 }),
    {
        Coord { x: 0, y: 0, z: 0 }
    }
}

impl Coord {
    /// Whether one step in `direction` stays within the machine's integers.
    pub open spec fn can_move(self, direction: Direction) -> bool {
        match direction {
            Direction::North => self.y > isize::MIN,
            Direction::South => self.y < isize::MAX,
            Direction::West => self.x > isize::MIN,
            Direction::East => self.x < isize::MAX,
            Direction::Up => self.z < isize::MAX,
            Direction::Down => self.z > isize::MIN,
        }
    }

    /// The coordinate one step away in `direction`.
    pub open spec fn moved(self, direction: Direction) -> Coord {
        match direction {
            Direction::North => Coord { x: self.x, y: (self.y - 1) as isize, z: self.z },
            Direction::South => Coord { x: self.x, y: (self.y + 1) as isize, z: self.z },
            Direction::West => Coord { x: (self.x - 1) as isize, y: self.y, z: self.z },
            Direction::East => Coord { x: (self.x + 1) as isize, y: self.y, z: self.z },
            Direction::Up => Coord { x: self.x, y: self.y, z: (self.z + 1) as isize },
            Direction::Down => Coord { x: self.x, y: self.y, z: (self.z - 1) as isize },
        }
    }

    /// The direction of the first axis, in the order x, y, z, on which
    /// `target` differs from this coordinate.
    pub open spec fn spec_direction_to(self, target: Coord) -> Direction {
        if self.x < target.x {
            Direction::East
        } else if self.x > target.x {
            Direction::West
        } else if self.y < target.y {
            Direction::South
        } else if self.y > target.y {
            Direction::North
        } else if self.z < target.z {
            Direction::Up
        } else {
            Direction::Down
        }
    }

    /// The coordinate one step away in `direction`.
    pub fn move_in_direction(&self, direction: Direction) -> (r: Self)
        requires
            self.can_move(direction),
        ensures
            r == self.moved(direction),
    {
        match direction {
            Direction::North => Coord { x: self.x, y: self.y - 1, z: self.z },
            Direction::South => Coord { x: self.x, y: self.y + 1, z: self.z },
            Direction::West => Coord { x: self.x - 1, y: self.y, z: self.z },
            Direction::East => Coord { x: self.x + 1, y: self.y, z: self.z },
            Direction::Up => Coord { x: self.x, y: self.y, z: self.z + 1 },
            Direction::Down => Coord { x: self.x, y: self.y, z: self.z - 1 },
        }
    }

    /// The direction of the first axis, in the order x, y, z, on which
    /// `target` differs from this coordinate. The two must differ.
    pub fn direction_to(&self, target: Self) -> (r: Direction)
        requires
            *self != target,
        ensures
            r == self.spec_direction_to(target),
    {
        if self.x < target.x {
            Direction::East
        } else if self.x > target.x {
            Direction::West
        } else if self.y < target.y {
            Direction::South
        } else if self.y > target.y {
            Direction::North
        } else if self.z < target.z {
            Direction::Up
        } else {
            Direction::Down
        }
    }
}

/// A step and the step back cancel, and the direction towards the cell one
/// step away is the direction of that step.
pub proof fn lemma_step_and_back(c: Coord, d: Direction)
    requires
        c.can_move(d),
    ensures
        c.moved(d) != c,
        c.moved(d).can_move(d.spec_opposite()),
        c.moved(d).moved(d.spec_opposite()) == c,
        c.spec_direction_to(c.moved(d)) == d,
{
}

/// One room of the maze: six doors, indexed by direction, and the mark the
/// generator leaves on rooms it has reached.
#[derive(Debug, Clone, Copy)]
pub struct Cell {
    pub doors: [bool; 6],
    pub visited: bool,
}

impl Default for Cell {
    fn default() -> (r: Self)
        ensures
            !r.visited,
            forall|d: Direction| !r.spec_has_door(d),
    {
        Cell { doors: [false; 6], visited: false }
    }
}

impl Cell {
    /// Whether the door in `direction` is open.
    pub open spec fn spec_has_door(&self, direction: Direction) -> bool {
        self.doors[direction.spec_index()]
    }

    /// Whether the door in `direction` is open.
    #[verifier::when_used_as_spec(spec_has_door)]
    pub fn has_door(&self, direction: Direction) -> (r: bool)
        ensures
            r == self.spec_has_door(direction),
    {
        self.doors[direction.index()]
    }

    /// Whether the door to the left of a player facing `facing` is open.
    pub fn left(&self, facing: Direction) -> (r: bool)
        ensures
            r == self.spec_has_door(VisibleDoors::Left.spec_direction(facing)),
    {
        self.doors[VisibleDoors::Left.direction_as_index(facing)]
    }

    /// Whether the door ahead of a player facing `facing` is open.
    pub fn front(&self, facing: Direction) -> (r: bool)
        ensures
            r == self.spec_has_door(facing),
    {
        self.doors[VisibleDoors::Forward.direction_as_index(facing)]
    }

    /// Whether the door to the right of a player facing `facing` is open.
    pub fn right(&self, facing: Direction) -> (r: bool)
        ensures
            r == self.spec_has_door(VisibleDoors::Right.spec_direction(facing)),
    {
        self.doors[VisibleDoors::Right.direction_as_index(facing)]
    }

    /// Whether the door in the ceiling is open.
    pub fn top(&self) -> (r: bool)
        ensures
            r == self.spec_has_door(Direction::Up),
    {
        self.doors[Direction::Up.index()]
    }

    /// Whether the door in the floor is open.
    pub fn bottom(&self) -> (r: bool)
        ensures
            r == self.spec_has_door(Direction::Down),
    {
        self.doors[Direction::Down.index()]
    }

    /// Opens the door in `direction`; the other doors and the mark stay.
    pub fn remove_wall(&mut self, direction: &Direction)
        ensures
            final(self).spec_has_door(*direction),
            forall|d: Direction| d != *direction ==> final(self).spec_has_door(d) == old(self).spec_has_door(d),
            final(self).visited == old(self).visited,
    {
        self.doors[direction.index()] = true;
    }
}

/// A dense grid of `X` by `Y` by `Z` cells.
#[derive(Debug)]
pub struct Maze<const X: usize, const Y: usize, const Z: usize> {
    cells: [[[Cell; X]; Y]; Z],
}

impl<const X: usize, const Y: usize, const Z: usize> Default for Maze<X, Y, Z> {
    fn default() -> (r: Self)
        ensures
            r.is_blank(),
    {
        let cell = Cell::default();
        let row = [cell; X];
        let plane = [row; Y];
        let cells = [plane; Z];
        let r = Self { cells };
        proof {
            assert forall|c: Coord| #[trigger] Self::in_bounds(c) implies r.cell_at(c) == cell by {
                assert(cells == vstd::array::spec_array_fill_for_copy_type::<[[Cell; X]; Y], Z>(plane));
                assert(cells@[c.z as int] == plane);
                assert(plane@[c.y as int] == row);
                assert(row[c.x as int] == cell);
            }
        }
        r
    }
}

impl<const X: usize, const Y: usize, const Z: usize> Maze<X, Y, Z> {
    /// Whether `coord` names a cell of the grid.
    pub open spec fn in_bounds(coord: Coord) -> bool {
        0 <= coord.x < X && 0 <= coord.y < Y && 0 <= coord.z < Z
    }

    /// The cell at `coord`, for a coordinate in bounds.
    pub closed spec fn cell_at(&self, coord: Coord) -> Cell {
        self.cells[coord.z as int][coord.y as int][coord.x as int]
    }

    /// Whether the cell at `coord` has its door in `direction` open.
    pub open spec fn door(&self, coord: Coord, direction: Direction) -> bool {
        self.cell_at(coord).spec_has_door(direction)
    }

    /// No cell has an open door or the generator's mark.
    pub open spec fn is_blank(&self) -> bool {
        forall|c: Coord| #[trigger]
            Self::in_bounds(c) ==> !self.cell_at(c).visited && forall|d: Direction| !self.door(c, d)
    }

    /// Every open door between two cells of the grid is open from both
    /// sides.
    pub open spec fn doors_match(&self) -> bool {
        forall|c: Coord, d: Direction|
            Self::in_bounds(c) && Self::in_bounds(c.moved(d)) ==> (#[trigger] self.door(c, d)
                <==> self.cell_at(c.moved(d)).spec_has_door(d.spec_opposite()))
    }

    /// Leaving the grid in any direction wins.
    pub open spec fn spec_is_win(coord: Coord) -> bool {
        !Self::in_bounds(coord)
    }

    /// The extent of the grid on the x, y and z axes.
    pub fn dimensions() -> (r: (usize, usize, usize))
        ensures
            r == (X, Y, Z),
    {
        (X, Y, Z)
    }

    /// A copy of the cell at `coord`, which must lie in the grid.
    pub fn get_cell(&self, coord: &Coord) -> (r: Cell)
        requires
            Self::in_bounds(*coord),
        ensures
            r == self.cell_at(*coord),
    {
        self.cells[coord.z as usize][coord.y as usize][coord.x as usize]
    }

    /// Lends the cell at `coord`; what the borrower leaves there is the
    /// only change to the grid.
    pub fn get_cell_mut(&mut self, coord: &Coord) -> (r: &mut Cell)
        requires
            Self::in_bounds(*coord),
        ensures
            *r == old(self).cell_at(*coord),
            final(self).cell_at(*coord) == *final(r),
            forall|c: Coord|
                Self::in_bounds(c) && c != *coord ==> #[trigger] final(self).cell_at(c) == old(
                    self,
                ).cell_at(c),
    {
        &mut self.cells[coord.z as usize][coord.y as usize][coord.x as usize]
    }

    /// Whether `coord` lies outside the grid, which is where the player wins.
    pub fn is_win(&self, coord: &Coord) -> (r: bool)
        ensures
            r == Self::spec_is_win(*coord),
    {
        if coord.x < 0 || coord.y < 0 || coord.z < 0 {
            return true;
        }
        coord.x as usize >= X || coord.y as usize >= Y || coord.z as usize >= Z
    }
}

/// A coordinate wins exactly when one of its components is negative or
/// reaches the grid's extent on its axis.
pub proof fn lemma_win_is_out_of_bounds<const X: usize, const Y: usize, const Z: usize>(c: Coord)
    ensures
        Maze::<X, Y, Z>::spec_is_win(c) <==> (c.x < 0 || c.y < 0 || c.z < 0 || c.x >= X || c.y >= Y
            || c.z >= Z),
{
}

/// The grid the game is played on.
pub type QuintiMaze = Maze<5, 5, 5>;

/// The number of cells of a `QuintiMaze`.
pub const CELL_COUNT: usize = 125;

} // verus!
