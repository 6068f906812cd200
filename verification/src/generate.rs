//! The maze generator: a randomized backtracker that carves passages
//! between neighbouring cells until no cell it holds has a fresh neighbour.

use crate::bounded::{frontier_cells, frontier_get, frontier_len, frontier_new, frontier_push, frontier_remove};
use crate::maze::{lemma_step_and_back, Coord, Direction, Maze, QuintiMaze, CELL_COUNT};
use crate::random::{random_below, rng_from_seed, shuffle_directions};
use crate::solve::{door_between, is_way_out};
use vstd::prelude::*;

verus! {

/// The seed used when the caller gives none.
pub const DEFAULT_SEED: u64 = 12;

/// The cell whose upward door `generate` opens as the way out.
pub open spec fn exit_corner() -> Coord {
    Coord { x: 4, y: 4, z: 4 }
}

/// Every open door of the grid leads to a cell of the grid whose door back
/// is open too, but for the doors listed in `exits`, which lead outside.
pub open spec fn passages_paired(maze: QuintiMaze, exits: Set<(Coord, Direction)>) -> bool {
    forall|c: Coord, d: Direction|
        QuintiMaze::in_bounds(c) && #[trigger] maze.door(c, d) && !exits.contains((c, d))
            ==> QuintiMaze::in_bounds(c.moved(d)) && maze.cell_at(c.moved(d)).spec_has_door(
            d.spec_opposite(),
        )
}

/// Whether the generator has reached the cell at `c`.
pub open spec fn reached(maze: QuintiMaze, c: Coord) -> bool {
    QuintiMaze::in_bounds(c) && maze.cell_at(c).visited
}

/// Whether `rank` and `parent` show the passages carved so far to form a
/// tree rooted at `root`: the numbered cells are the reached ones, each of
/// them but the root has a passage to a cell of lower number, named by
/// `parent`, and every other passage leads to a cell of higher number.
pub open spec fn is_tree_order(
    maze: QuintiMaze,
    root: Coord,
    rank: Map<Coord, nat>,
    parent: Map<Coord, Direction>,
) -> bool {
    &&& reached(maze, root)
    &&& forall|c: Coord| #[trigger] rank.dom().contains(c) <==> reached(maze, c)
    &&& forall|c: Coord|
        #[trigger] rank.dom().contains(c) && c != root ==> parent.dom().contains(c) && maze.door(
            c,
            parent[c],
        ) && reached(maze, c.moved(parent[c])) && rank[c.moved(parent[c])] < rank[c]
    &&& forall|c: Coord, d: Direction|
        QuintiMaze::in_bounds(c) && #[trigger] maze.door(c, d) && QuintiMaze::in_bounds(c.moved(d))
            && !(c != root && d == parent[c]) ==> rank[c.moved(d)] > rank[c]
}

/// A perfect maze: every cell is reached, and the passages between the
/// cells form a tree. The cells can be numbered so that every cell but the
/// root has exactly one passage to a cell of lower number, which makes the
/// maze connected and leaves no loop in it.
pub open spec fn is_perfect(maze: QuintiMaze) -> bool {
    &&& forall|c: Coord| #[trigger] QuintiMaze::in_bounds(c) ==> maze.cell_at(c).visited
    &&& exists|root: Coord, rank: Map<Coord, nat>, parent: Map<Coord, Direction>|
        is_tree_order(maze, root, rank, parent)
}

/// What holds of every generated maze: it is perfect, its passages are
/// open from both sides, and the only door to the outside is the upward
/// door of the exit corner, which is there exactly when an exit was asked
/// for.
pub open spec fn is_generated(maze: QuintiMaze, forced_exit: bool) -> bool {
    &&& passages_paired(
        maze,
        if forced_exit {
            set![(exit_corner(), Direction::Up)]
        } else {
            Set::empty()
        },
    )
    &&& forced_exit ==> maze.door(exit_corner(), Direction::Up)
    &&& maze.doors_match()
    &&& is_perfect(maze)
}

/// How carving the passage from `coord` in `direction` changes the grid:
/// both ends are marked, the two doors between them are open, and nothing
/// else is touched.
pub open spec fn carved(before: QuintiMaze, after: QuintiMaze, coord: Coord, direction: Direction) -> bool {
    let next = coord.moved(direction);
    &&& after.cell_at(coord).visited
    &&& after.cell_at(next).visited
    &&& after.door(coord, direction)
    &&& after.door(next, direction.spec_opposite())
    &&& forall|d: Direction|
        d != direction ==> #[trigger] after.door(coord, d) == before.door(coord, d)
    &&& forall|d: Direction|
        d != direction.spec_opposite() ==> #[trigger] after.door(next, d) == before.door(next, d)
    &&& forall|c: Coord|
        QuintiMaze::in_bounds(c) && c != coord && c != next ==> #[trigger] after.cell_at(c)
            == before.cell_at(c)
}

/// What the generator keeps true while it carves: passages are paired,
/// only reached cells have doors, and the passages form a tree over the
/// reached cells with numbers below `count`.
#[verifier::opaque]
pub open spec fn carving(
    maze: QuintiMaze,
    root: Coord,
    rank: Map<Coord, nat>,
    parent: Map<Coord, Direction>,
    count: nat,
) -> bool {
    &&& passages_paired(maze, Set::empty())
    &&& is_tree_order(maze, root, rank, parent)
    &&& forall|c: Coord| #[trigger] rank.dom().contains(c) ==> rank[c] < count
    &&& forall|c: Coord, d: Direction|
        QuintiMaze::in_bounds(c) && #[trigger] maze.door(c, d) ==> maze.cell_at(c).visited
}

/// Every reached cell that the frontier no longer holds has no fresh
/// neighbour.
#[verifier::opaque]
pub open spec fn settled(maze: QuintiMaze, frontier: Seq<Coord>) -> bool {
    forall|c: Coord, d: Direction|
        reached(maze, c) && !frontier.contains(c) ==> !#[trigger] is_fresh(maze, c.moved(d))
}

/// The place of an in-bounds cell in a count of all cells.
pub open spec fn cell_number(c: Coord) -> int {
    c.z * 25 + c.y * 5 + c.x
}

/// A neighbour the generator may still carve into: in the grid and not yet
/// reached.
pub open spec fn is_fresh(maze: QuintiMaze, c: Coord) -> bool {
    QuintiMaze::in_bounds(c) && !maze.cell_at(c).visited
}

/// Paired passages are open from both sides wherever both sides exist.
pub proof fn lemma_paired_doors_match(maze: QuintiMaze, exits: Set<(Coord, Direction)>)
    requires
        passages_paired(maze, exits),
        forall|c: Coord, d: Direction| #[trigger]
            exits.contains((c, d)) ==> !QuintiMaze::in_bounds(c.moved(d)),
    ensures
        maze.doors_match(),
{
    assert forall|c: Coord, d: Direction|
        QuintiMaze::in_bounds(c) && QuintiMaze::in_bounds(c.moved(d)) implies (#[trigger] maze.door(
        c,
        d,
    ) <==> maze.cell_at(c.moved(d)).spec_has_door(d.spec_opposite())) by {
        let n = c.moved(d);
        let back = d.spec_opposite();
        assert(n.moved(back) == c);
        assert(back.spec_opposite() == d);
        if maze.door(n, back) {
            assert(!exits.contains((n, back)));
        }
        if maze.door(c, d) {
            assert(!exits.contains((c, d)));
        }
    }
}

/// Builds one maze. A generator starts blank; `generate` carves into it and
/// `take` hands the grid out.
pub struct MazeGenerator {
    maze: QuintiMaze,
    cells: heapless::Vec<Coord, CELL_COUNT>,
}

impl Default for MazeGenerator {
    fn default() -> (r: Self)
        ensures
            r.maze().is_blank(),
            r.frontier() == Seq::<Coord>::empty(),
    {
        MazeGenerator { maze: Maze::default(), cells: frontier_new() }
    }
}

impl MazeGenerator {
    /// The grid as carved so far.
    pub closed spec fn maze(&self) -> QuintiMaze {
        self.maze
    }

    /// The cells that may still have a fresh neighbour.
    pub closed spec fn frontier(&self) -> Seq<Coord> {
        frontier_cells(self.cells)
    }

    /// The neighbour of `coord` in `direction`, if the grid has one.
    fn get_next_cell_coords(coord: Coord, direction: &Direction) -> (r: Option<Coord>)
        requires
            QuintiMaze::in_bounds(coord),
        ensures
            r == if QuintiMaze::in_bounds(coord.moved(*direction)) {
                Some(coord.moved(*direction))
            } else {
                None
            },
    {
        let next = coord.move_in_direction(*direction);
        if next.x < 0 || next.x >= 5 {
            return None;
        }
        if next.y < 0 || next.y >= 5 {
            return None;
        }
        if next.z < 0 || next.z >= 5 {
            return None;
        }
        Some(next)
    }

    fn is_cell_visited(&self, coord: Coord) -> (r: bool)
        requires
            QuintiMaze::in_bounds(coord),
        ensures
            r == self.maze().cell_at(coord).visited,
    {
        self.maze.get_cell(&coord).visited
    }

    /// Opens the passage from `coord` to its neighbour in `direction` and
    /// marks both cells, or does nothing if the grid has no such neighbour.
    fn carve_passage(&mut self, coord: Coord, direction: &Direction) -> (r: Option<Coord>)
        requires
            QuintiMaze::in_bounds(coord),
        ensures
            final(self).frontier() == old(self).frontier(),
            r == if QuintiMaze::in_bounds(coord.moved(*direction)) {
                Some(coord.moved(*direction))
            } else {
                None
            },
            r is None ==> final(self).maze() == old(self).maze(),
            r is Some ==> carved(old(self).maze(), final(self).maze(), coord, *direction),
    {
        let next = match Self::get_next_cell_coords(coord, direction) {
            Some(next) => next,
            None => {
                return None;
            },
        };
        let opposite = direction.opposite();
        let current = self.maze.get_cell_mut(&coord);
        current.visited = true;
        current.remove_wall(direction);
        let next_cell = self.maze.get_cell_mut(&next);
        next_cell.visited = true;
        next_cell.remove_wall(&opposite);
        Some(next)
    }

    /// The first of `directions` that leads from `coord` to a fresh cell.
    fn first_fresh_direction(&self, coord: Coord, directions: &[Direction; 6]) -> (r: Option<
        Direction,
    >)
        requires
            QuintiMaze::in_bounds(coord),
        ensures
            r is None ==> forall|j: int|
                0 <= j < 6 ==> !is_fresh(self.maze(), coord.moved(#[trigger] directions@[j])),
            r is Some ==> exists|i: int|
                0 <= i < 6 && #[trigger] directions@[i] == r.unwrap() && is_fresh(
                    self.maze(),
                    coord.moved(directions@[i]),
                ) && forall|j: int|
                    0 <= j < i ==> !is_fresh(self.maze(), coord.moved(#[trigger] directions@[j])),
    {
        let mut i: usize = 0;
        while i < 6
            invariant
                i <= 6,
                QuintiMaze::in_bounds(coord),
                forall|j: int|
                    0 <= j < i ==> !is_fresh(self.maze(), coord.moved(#[trigger] directions@[j])),
            decreases 6 - i,
        {
            let dir = directions[i];
            match Self::get_next_cell_coords(coord, &dir) {
                Some(next) => {
                    if !self.is_cell_visited(next) {
                        return Some(dir);
                    }
                },
                None => {},
            }
            i += 1;
        }
        None
    }

    /// Carves a maze from `seed` (from `DEFAULT_SEED` if there is none)
    /// and opens the upward door of the exit corner as the way out.
    pub fn generate(&mut self, seed: Option<u64>)
        ensures
            is_generated(final(self).maze(), true),
            final(self).frontier() == Seq::<Coord>::empty(),
    {
        self.generate_with(seed, true);
    }

    /// Carves a maze from `seed` (from `DEFAULT_SEED` if there is none)
    /// into a blank grid. With `forced_exit` the upward door of the exit
    /// corner is opened afterwards; without it the maze has no way out.
    pub fn generate_with(&mut self, seed: Option<u64>, forced_exit: bool)
        ensures
            is_generated(final(self).maze(), forced_exit),
            final(self).frontier() == Seq::<Coord>::empty(),
    {
        let mut rng = rng_from_seed(
            match seed {
                Some(s) => s,
                None => DEFAULT_SEED,
            },
        );
        self.maze = Maze::default();
        self.cells = frontier_new();
        let x = random_below(&mut rng, 5) as isize;
        let y = random_below(&mut rng, 5) as isize;
        let z = random_below(&mut rng, 5) as isize;
        let mut directions: [Direction; 6] = [
            Direction::North,
            Direction::South,
            Direction::West,
            Direction::East,
            Direction::Up,
            Direction::Down,
        ];
        proof {
            assert forall|d: Direction| directions@.contains(d) by {
                assert(directions@[0] == Direction::North);
                assert(directions@[1] == Direction::South);
                assert(directions@[2] == Direction::West);
                assert(directions@[3] == Direction::East);
                assert(directions@[4] == Direction::Up);
                assert(directions@[5] == Direction::Down);
            }
        }
        let start = Coord { x, y, z };
        let pushed = frontier_push(&mut self.cells, start);
        let ghost blank = self.maze;
        let first = self.maze.get_cell_mut(&start);
        first.visited = true;
        let ghost mut seen: Set<int> = set![cell_number(start)];
        let ghost mut rank: Map<Coord, nat> = map![start => 0nat];
        let ghost mut parent: Map<Coord, Direction> = Map::empty();
        proof {
            assert(frontier_cells(self.cells)[0] == start);
            lemma_first_cell_starts_tree(blank, self.maze, start, frontier_cells(self.cells));
        }

        while frontier_len(&self.cells) > 0
            invariant
                carving(self.maze, start, rank, parent, seen.len()),
                settled(self.maze, frontier_cells(self.cells)),
                forall|i: int|
                    0 <= i < frontier_cells(self.cells).len() ==> reached(
                        self.maze,
                        #[trigger] frontier_cells(self.cells)[i],
                    ),
                forall|d: Direction| directions@.contains(d),
                seen.finite(),
                forall|k: int| #[trigger] seen.contains(k) ==> 0 <= k < 125,
                forall|c: Coord|
                    QuintiMaze::in_bounds(c) && seen.contains(cell_number(c))
                        ==> (#[trigger] self.maze.cell_at(c)).visited,
                frontier_cells(self.cells).len() <= seen.len(),
                seen.len() <= 125,
            decreases 125 - seen.len(), frontier_cells(self.cells).len(),
        {
            let index = random_below(&mut rng, frontier_len(&self.cells));
            let coords = frontier_get(&self.cells, index);
            let ghost shuffled_from = directions@;
            shuffle_directions(&mut directions, &mut rng);
            proof {
                lemma_same_members(shuffled_from, directions@);
            }
            let ghost before = self.maze;
            let ghost held = frontier_cells(self.cells);
            assert(reached(before, held[index as int]));
            match self.first_fresh_direction(coords, &directions) {
                Some(dir) => {
                    let ghost fresh = coords.moved(dir);
                    proof {
                        lemma_room_for_one_more(seen, cell_number(fresh));
                    }
                    if let Some(next) = self.carve_passage(coords, &dir) {
                        let pushed = frontier_push(&mut self.cells, next);
                        proof {
                            lemma_carve_keeps_tree(
                                before,
                                self.maze,
                                start,
                                rank,
                                parent,
                                seen.len(),
                                coords,
                                dir,
                            );
                            lemma_carve_keeps_settled(before, self.maze, held, index as int, dir);
                            rank = rank.insert(next, seen.len());
                            parent = parent.insert(next, dir.spec_opposite());
                            seen = seen.insert(cell_number(next));
                            assert forall|i: int|
                                0 <= i < frontier_cells(self.cells).len() implies reached(
                                self.maze,
                                #[trigger] frontier_cells(self.cells)[i],
                            ) by {
                                if i < held.len() {
                                    assert(reached(before, held[i]));
                                }
                            }
                        }
                    }
                },
                None => {
                    frontier_remove(&mut self.cells, index);
                    proof {
                        lemma_remove_keeps_settled(before, held, index as int, directions@);
                        assert forall|i: int|
                            0 <= i < frontier_cells(self.cells).len() implies reached(
                            self.maze,
                            #[trigger] frontier_cells(self.cells)[i],
                        ) by {
                            if i < index {
                                assert(reached(before, held[i]));
                            } else {
                                assert(reached(before, held[i + 1]));
                            }
                        }
                    }
                },
            }
        }
        proof {
            assert(frontier_cells(self.cells) =~= Seq::<Coord>::empty());
            lemma_carving_holds_tree(self.maze, start, rank, parent, seen.len());
            assert forall|c: Coord| #[trigger] QuintiMaze::in_bounds(c) implies self.maze.cell_at(
                c,
            ).visited by {
                lemma_settled_reaches_all(self.maze, start, c);
            }
        }
        if forced_exit {
            let ghost before = self.maze;
            let corner = Coord { x: 4, y: 4, z: 4 };
            self.maze.get_cell_mut(&corner).remove_wall(&Direction::Up);
            proof {
                let exits = set![(exit_corner(), Direction::Up)];
                assert forall|c: Coord, d: Direction|
                    QuintiMaze::in_bounds(c) && #[trigger] self.maze.door(c, d) && !exits.contains(
                        (c, d),
                    ) implies QuintiMaze::in_bounds(c.moved(d)) && self.maze.cell_at(
                    c.moved(d),
                ).spec_has_door(d.spec_opposite()) by {
                    assert(before.door(c, d));
                    let n = c.moved(d);
                    assert(before.cell_at(n).spec_has_door(d.spec_opposite()));
                    if n == corner {
                        assert(before.door(n, d.spec_opposite()));
                    }
                }
                lemma_paired_doors_match(self.maze, exits);
                lemma_exit_keeps_tree(before, self.maze, start, rank, parent, seen.len());
            }
        } else {
            proof {
                lemma_paired_doors_match(self.maze, Set::empty());
            }
        }
    }

    /// Hands out the grid and ends the generator.
    pub fn take(self) -> (r: QuintiMaze)
        ensures
            r == self.maze(),
    {
        self.maze
    }
}

/// Marking one cell of a blank grid begins a tree with that cell as its
/// root.
proof fn lemma_first_cell_starts_tree(
    blank: QuintiMaze,
    maze: QuintiMaze,
    start: Coord,
    held: Seq<Coord>,
)
    requires
        blank.is_blank(),
        QuintiMaze::in_bounds(start),
        maze.cell_at(start).visited,
        maze.cell_at(start).doors == blank.cell_at(start).doors,
        forall|c: Coord|
            QuintiMaze::in_bounds(c) && c != start ==> #[trigger] maze.cell_at(c) == blank.cell_at(
                c,
            ),
        held.len() > 0,
        held[0] == start,
    ensures
        carving(maze, start, map![start => 0nat], Map::empty(), 1),
        settled(maze, held),
{
    reveal(carving);
    reveal(settled);
    let rank = map![start => 0nat];
    assert forall|c: Coord, d: Direction| QuintiMaze::in_bounds(c) implies !#[trigger] maze.door(
        c,
        d,
    ) by {
        assert(!blank.door(c, d));
        if c != start {
            assert(maze.cell_at(c) == blank.cell_at(c));
        }
    }
    assert forall|c: Coord| #[trigger] rank.dom().contains(c) <==> reached(maze, c) by {
        if QuintiMaze::in_bounds(c) && c != start {
            assert(maze.cell_at(c) == blank.cell_at(c));
        }
    }
    assert(held.contains(start));
    assert forall|c: Coord, d: Direction|
        reached(maze, c) && !held.contains(c) implies !#[trigger] is_fresh(maze, c.moved(d)) by {
        assert(rank.dom().contains(c));
    }
}

/// While carving, passages are paired and form a tree from the root.
proof fn lemma_carving_holds_tree(
    maze: QuintiMaze,
    root: Coord,
    rank: Map<Coord, nat>,
    parent: Map<Coord, Direction>,
    count: nat,
)
    requires
        carving(maze, root, rank, parent, count),
    ensures
        passages_paired(maze, Set::empty()),
        is_tree_order(maze, root, rank, parent),
{
    reveal(carving);
}

/// A set of cell numbers that lacks one has room for it.
proof fn lemma_room_for_one_more(seen: Set<int>, k: int)
    requires
        seen.finite(),
        forall|j: int| #[trigger] seen.contains(j) ==> 0 <= j < 125,
        0 <= k < 125,
        !seen.contains(k),
    ensures
        seen.len() < 125,
        seen.insert(k).len() == seen.len() + 1,
{
    let all = vstd::set_lib::set_int_range(0, 125);
    vstd::set_lib::lemma_int_range(0, 125);
    assert(seen.insert(k).subset_of(all));
    vstd::set_lib::lemma_len_subset(seen.insert(k), all);
}

/// Two sequences that hold the same items equally often hold the same
/// items.
proof fn lemma_same_members(a: Seq<Direction>, b: Seq<Direction>)
    requires
        a.to_multiset() == b.to_multiset(),
        forall|d: Direction| a.contains(d),
    ensures
        forall|d: Direction| b.contains(d),
{
    a.to_multiset_ensures();
    b.to_multiset_ensures();
    assert forall|d: Direction| b.contains(d) by {
        assert(a.contains(d));
        assert(a.to_multiset().count(d) > 0);
    }
}

/// Carving one passage between two cells of the grid keeps all passages
/// paired.
proof fn lemma_carved_stays_paired(
    before: QuintiMaze,
    after: QuintiMaze,
    coord: Coord,
    direction: Direction,
    c: Coord,
    d: Direction,
)
    requires
        passages_paired(before, Set::empty()),
        QuintiMaze::in_bounds(coord),
        QuintiMaze::in_bounds(coord.moved(direction)),
        carved(before, after, coord, direction),
        QuintiMaze::in_bounds(c),
        after.door(c, d),
    ensures
        QuintiMaze::in_bounds(c.moved(d)),
        after.cell_at(c.moved(d)).spec_has_door(d.spec_opposite()),
{
    let next = coord.moved(direction);
    let back = direction.spec_opposite();
    let n = c.moved(d);
    if c == coord && d == direction {
    } else if c == next && d == back {
        assert(n == coord);
    } else {
        assert(before.door(c, d));
        assert(QuintiMaze::in_bounds(n));
        assert(before.door(n, d.spec_opposite()));
        assert(after.door(n, d.spec_opposite())) by {
            if n == coord {
                assert(d.spec_opposite() != direction);
            } else if n == next {
                assert(d.spec_opposite() != back);
            }
        }
    }
}

/// Carving a passage from a reached cell into a fresh one, and giving the
/// fresh cell the next number, keeps the passages a tree.
proof fn lemma_carve_keeps_tree(
    before: QuintiMaze,
    after: QuintiMaze,
    root: Coord,
    rank: Map<Coord, nat>,
    parent: Map<Coord, Direction>,
    count: nat,
    coord: Coord,
    direction: Direction,
)
    requires
        carving(before, root, rank, parent, count),
        reached(before, coord),
        is_fresh(before, coord.moved(direction)),
        carved(before, after, coord, direction),
    ensures
        carving(
            after,
            root,
            rank.insert(coord.moved(direction), count),
            parent.insert(coord.moved(direction), direction.spec_opposite()),
            count + 1,
        ),
{
    reveal(carving);
    let next = coord.moved(direction);
    let back = direction.spec_opposite();
    let rank2 = rank.insert(next, count);
    let parent2 = parent.insert(next, back);
    assert(!rank.dom().contains(next));
    assert(rank.dom().contains(coord));
    assert(next != coord);
    assert(next != root);
    // Cells keep their marks and doors.
    assert forall|c: Coord| QuintiMaze::in_bounds(c) && before.cell_at(c).visited implies (
    #[trigger] after.cell_at(c)).visited by {}
    assert forall|c: Coord, d: Direction|
        QuintiMaze::in_bounds(c) && #[trigger] before.door(c, d) implies after.door(c, d) by {
        if c == coord {
            if d != direction {
                assert(after.door(coord, d) == before.door(coord, d));
            }
        } else if c == next {
            if d != back {
                assert(after.door(next, d) == before.door(next, d));
            }
        }
    }
    // The fresh cell had no doors.
    assert forall|d: Direction| !before.door(next, d) by {}
    // Whatever had a door before leads to a numbered cell other than the fresh one.
    assert forall|c: Coord, d: Direction|
        QuintiMaze::in_bounds(c) && #[trigger] before.door(c, d) implies rank.dom().contains(
        c.moved(d),
    ) && c.moved(d) != next by {
        let n = c.moved(d);
        assert(before.door(n, d.spec_opposite()));
        assert(reached(before, n));
    }
    assert forall|c: Coord, d: Direction|
        QuintiMaze::in_bounds(c) && #[trigger] after.door(c, d) implies QuintiMaze::in_bounds(
        c.moved(d),
    ) && after.cell_at(c.moved(d)).spec_has_door(d.spec_opposite()) by {
        lemma_carved_stays_paired(before, after, coord, direction, c, d);
    }
    assert forall|c: Coord| #[trigger] rank2.dom().contains(c) <==> reached(after, c) by {
        if c != next && c != coord && QuintiMaze::in_bounds(c) {
            assert(after.cell_at(c) == before.cell_at(c));
        }
        if rank.dom().contains(c) {
            assert(reached(before, c));
        }
    }
    assert forall|c: Coord| #[trigger] rank2.dom().contains(c) && c != root implies parent2.dom().contains(
        c,
    ) && after.door(c, parent2[c]) && reached(after, c.moved(parent2[c])) && rank2[c.moved(
        parent2[c],
    )] < rank2[c] by {
        if c == next {
            lemma_step_and_back(coord, direction);
        } else {
            assert(rank.dom().contains(c));
            assert(before.door(c, parent[c]));
            assert(reached(before, c.moved(parent[c])));
            assert(rank.dom().contains(c.moved(parent[c])));
        }
    }
    assert forall|c: Coord, d: Direction|
        QuintiMaze::in_bounds(c) && #[trigger] after.door(c, d) && QuintiMaze::in_bounds(c.moved(d))
            && !(c != root && d == parent2[c]) implies rank2[c.moved(d)] > rank2[c] by {
        if c == next {
            if d != back {
                assert(after.door(next, d) == before.door(next, d));
            }
        } else if c == coord {
            if d != direction {
                assert(after.door(coord, d) == before.door(coord, d));
                assert(before.door(c, d));
            }
        } else {
            assert(after.cell_at(c) == before.cell_at(c));
            assert(before.door(c, d));
        }
    }
    assert forall|c: Coord| #[trigger] rank2.dom().contains(c) implies rank2[c] < count + 1 by {
        if c != next {
            assert(rank.dom().contains(c));
        }
    }
    assert forall|c: Coord, d: Direction|
        QuintiMaze::in_bounds(c) && #[trigger] after.door(c, d) implies after.cell_at(
        c,
    ).visited by {
        if c != coord && c != next {
            assert(after.cell_at(c) == before.cell_at(c));
            assert(before.door(c, d));
        }
    }
}

/// Carving from a cell the frontier holds, and adding the cell carved into
/// to the frontier, keeps the cells outside the frontier settled.
proof fn lemma_carve_keeps_settled(
    before: QuintiMaze,
    after: QuintiMaze,
    held: Seq<Coord>,
    index: int,
    direction: Direction,
)
    requires
        settled(before, held),
        0 <= index < held.len(),
        QuintiMaze::in_bounds(held[index]),
        QuintiMaze::in_bounds(held[index].moved(direction)),
        carved(before, after, held[index], direction),
    ensures
        settled(after, held.push(held[index].moved(direction))),
{
    reveal(settled);
    let coord = held[index];
    let next = coord.moved(direction);
    let held2 = held.push(next);
    assert(held2[held.len() as int] == next);
    assert(held2[index] == coord);
    assert forall|c: Coord, d: Direction|
        reached(after, c) && !held2.contains(c) implies !#[trigger] is_fresh(
        after,
        c.moved(d),
    ) by {
        assert(c != next && c != coord);
        assert(after.cell_at(c) == before.cell_at(c));
        if held.contains(c) {
            let i = choose|i: int| 0 <= i < held.len() && held[i] == c;
            assert(held2[i] == c);
        }
        assert(!is_fresh(before, c.moved(d)));
        let n = c.moved(d);
        if QuintiMaze::in_bounds(n) && n != coord && n != next {
            assert(after.cell_at(n) == before.cell_at(n));
        }
    }
}

/// Taking a cell without fresh neighbours out of the frontier keeps the
/// cells outside the frontier settled.
proof fn lemma_remove_keeps_settled(
    maze: QuintiMaze,
    held: Seq<Coord>,
    index: int,
    directions: Seq<Direction>,
)
    requires
        settled(maze, held),
        0 <= index < held.len(),
        directions.len() == 6,
        forall|d: Direction| directions.contains(d),
        forall|j: int| 0 <= j < 6 ==> !is_fresh(maze, held[index].moved(#[trigger] directions[j])),
    ensures
        settled(maze, held.remove(index)),
{
    reveal(settled);
    let coord = held[index];
    let held2 = held.remove(index);
    assert forall|c: Coord, d: Direction|
        reached(maze, c) && !held2.contains(c) implies !#[trigger] is_fresh(maze, c.moved(d)) by {
        if c == coord {
            assert(directions.contains(d));
            let j = choose|j: int| 0 <= j < directions.len() && directions[j] == d;
            assert(!is_fresh(maze, coord.moved(directions[j])));
        } else {
            if held.contains(c) {
                let i = choose|i: int| 0 <= i < held.len() && held[i] == c;
                if i < index {
                    assert(held2[i] == c);
                } else {
                    assert(held2[i - 1] == c);
                }
            }
        }
    }
}

/// The steps between two coordinates along the axes.
pub open spec fn distance(a: Coord, b: Coord) -> nat {
    (vstd::math::abs(a.x - b.x) + vstd::math::abs(a.y - b.y) + vstd::math::abs(a.z - b.z)) as nat
}

/// Once no reached cell has a fresh neighbour, every cell is reached.
proof fn lemma_settled_reaches_all(maze: QuintiMaze, root: Coord, c: Coord)
    requires
        reached(maze, root),
        settled(maze, Seq::empty()),
        QuintiMaze::in_bounds(c),
    ensures
        maze.cell_at(c).visited,
    decreases distance(c, root),
{
    reveal(settled);
    if c != root {
        let d = c.spec_direction_to(root);
        let n = c.moved(d);
        assert(QuintiMaze::in_bounds(n));
        assert(distance(n, root) < distance(c, root));
        lemma_settled_reaches_all(maze, root, n);
        lemma_step_and_back(c, d);
        assert(reached(maze, n));
        assert(!Seq::<Coord>::empty().contains(n));
        assert(!is_fresh(maze, n.moved(d.spec_opposite())));
    }
}

/// Opening the way out keeps the maze perfect.
proof fn lemma_exit_keeps_tree(
    before: QuintiMaze,
    after: QuintiMaze,
    root: Coord,
    rank: Map<Coord, nat>,
    parent: Map<Coord, Direction>,
    count: nat,
)
    requires
        carving(before, root, rank, parent, count),
        forall|c: Coord| #[trigger] QuintiMaze::in_bounds(c) ==> before.cell_at(c).visited,
        after.door(exit_corner(), Direction::Up),
        after.cell_at(exit_corner()).visited == before.cell_at(exit_corner()).visited,
        forall|d: Direction|
            d != Direction::Up ==> #[trigger] after.door(exit_corner(), d) == before.door(
                exit_corner(),
                d,
            ),
        forall|c: Coord|
            QuintiMaze::in_bounds(c) && c != exit_corner() ==> #[trigger] after.cell_at(c)
                == before.cell_at(c),
    ensures
        is_perfect(after),
{
    reveal(carving);
    let corner = exit_corner();
    assert forall|c: Coord| #[trigger] QuintiMaze::in_bounds(c) implies after.cell_at(
        c,
    ).visited by {
        assert(before.cell_at(c).visited);
        if c != corner {
            assert(after.cell_at(c) == before.cell_at(c));
        }
    }
    assert forall|c: Coord, d: Direction|
        QuintiMaze::in_bounds(c) && QuintiMaze::in_bounds(c.moved(d)) implies (#[trigger] after.door(
        c,
        d,
    ) == before.door(c, d)) by {
        if c != corner {
            assert(after.cell_at(c) == before.cell_at(c));
        } else if d != Direction::Up {
            assert(after.door(corner, d) == before.door(corner, d));
        }
    }
    assert forall|c: Coord| #[trigger] rank.dom().contains(c) <==> reached(after, c) by {
        if QuintiMaze::in_bounds(c) {
            assert(reached(before, c));
        }
    }
    assert forall|c: Coord| #[trigger] rank.dom().contains(c) && c != root implies parent.dom().contains(
        c,
    ) && after.door(c, parent[c]) && reached(after, c.moved(parent[c])) && rank[c.moved(
        parent[c],
    )] < rank[c] by {
        assert(before.door(c, parent[c]));
        assert(reached(before, c));
        assert(reached(before, c.moved(parent[c])));
    }
    assert forall|c: Coord, d: Direction|
        QuintiMaze::in_bounds(c) && #[trigger] after.door(c, d) && QuintiMaze::in_bounds(c.moved(d))
            && !(c != root && d == parent[c]) implies rank[c.moved(d)] > rank[c] by {
        assert(before.door(c, d));
    }
    assert(is_tree_order(after, root, rank, parent));
}

/// Whether `walk`, read from its back to its front, leads from `from`
/// through open doors to `to` without leaving the grid.
pub open spec fn is_walk(maze: QuintiMaze, walk: Seq<Coord>, from: Coord, to: Coord) -> bool {
    &&& walk.len() >= 1
    &&& walk.last() == from
    &&& walk[0] == to
    &&& forall|i: int| 0 <= i < walk.len() ==> QuintiMaze::in_bounds(#[trigger] walk[i])
    &&& forall|i: int|
        0 <= i < walk.len() - 1 ==> door_between(maze, #[trigger] walk[i + 1], walk[i])
}

/// In a tree of passages, the passages to lower numbers lead from every
/// cell to the root.
proof fn lemma_walk_to_root(
    maze: QuintiMaze,
    root: Coord,
    rank: Map<Coord, nat>,
    parent: Map<Coord, Direction>,
    c: Coord,
) -> (walk: Seq<Coord>)
    requires
        is_tree_order(maze, root, rank, parent),
        reached(maze, c),
    ensures
        is_walk(maze, walk, c, root),
    decreases rank[c],
{
    if c == root {
        seq![root]
    } else {
        assert(rank.dom().contains(c));
        let d = parent[c];
        let p = c.moved(d);
        assert(maze.door(c, d));
        assert(rank.dom().contains(p)) by {
            lemma_step_and_back(c, d);
        }
        let rest = lemma_walk_to_root(maze, root, rank, parent, p);
        let walk = rest.push(c);
        assert forall|i: int| 0 <= i < walk.len() implies QuintiMaze::in_bounds(
            #[trigger] walk[i],
        ) by {
            if i < rest.len() {
                assert(walk[i] == rest[i]);
            }
        }
        assert forall|i: int| 0 <= i < walk.len() - 1 implies door_between(
            maze,
            #[trigger] walk[i + 1],
            walk[i],
        ) by {
            assert(walk[i] == rest[i]);
            if i < rest.len() - 1 {
                assert(walk[i + 1] == rest[i + 1]);
            }
        }
        assert(walk[0] == rest[0]);
        walk
    }
}

/// In a tree of paired passages, a walk leads from the root to every
/// cell.
proof fn lemma_walk_from_root(
    maze: QuintiMaze,
    exits: Set<(Coord, Direction)>,
    root: Coord,
    rank: Map<Coord, nat>,
    parent: Map<Coord, Direction>,
    c: Coord,
) -> (walk: Seq<Coord>)
    requires
        is_tree_order(maze, root, rank, parent),
        passages_paired(maze, exits),
        forall|e: Coord, d: Direction| #[trigger]
            exits.contains((e, d)) ==> !QuintiMaze::in_bounds(e.moved(d)),
        reached(maze, c),
    ensures
        is_walk(maze, walk, root, c),
    decreases rank[c],
{
    if c == root {
        seq![root]
    } else {
        assert(rank.dom().contains(c));
        let d = parent[c];
        let p = c.moved(d);
        lemma_step_and_back(c, d);
        assert(maze.door(c, d));
        assert(!exits.contains((c, d)));
        assert(maze.door(p, d.spec_opposite()));
        assert(rank.dom().contains(p));
        let rest = lemma_walk_from_root(maze, exits, root, rank, parent, p);
        let walk = seq![c] + rest;
        assert forall|i: int| 0 <= i < walk.len() implies QuintiMaze::in_bounds(
            #[trigger] walk[i],
        ) by {
            if i > 0 {
                assert(walk[i] == rest[i - 1]);
            }
        }
        assert forall|i: int| 0 <= i < walk.len() - 1 implies door_between(
            maze,
            #[trigger] walk[i + 1],
            walk[i],
        ) by {
            assert(walk[i + 1] == rest[i]);
            if i > 0 {
                assert(walk[i] == rest[i - 1]);
                assert(door_between(maze, rest[i - 1 + 1], rest[i - 1]));
            }
        }
        assert(walk.last() == rest.last());
        walk
    }
}

/// From every cell of a maze generated with its way out, a walk through
/// open doors leads out of the grid.
pub proof fn lemma_generated_maze_has_way_out(maze: QuintiMaze, start: Coord)
    requires
        is_generated(maze, true),
        QuintiMaze::in_bounds(start),
    ensures
        exists|walk: Seq<Coord>| #[trigger] is_way_out(maze, walk, start),
{
    let (root, rank, parent) = choose|
        root: Coord,
        rank: Map<Coord, nat>,
        parent: Map<Coord, Direction>,
    | is_tree_order(maze, root, rank, parent);
    let corner = exit_corner();
    let exits = set![(corner, Direction::Up)];
    assert(QuintiMaze::in_bounds(corner));
    let down = lemma_walk_from_root(maze, exits, root, rank, parent, corner);
    let up = lemma_walk_to_root(maze, root, rank, parent, start);
    let inside = down + up.subrange(1, up.len() as int);
    let outside = corner.moved(Direction::Up);
    let way = seq![outside] + inside;
    assert forall|i: int| 0 <= i < inside.len() implies QuintiMaze::in_bounds(
        #[trigger] inside[i],
    ) by {
        if i < down.len() {
            assert(inside[i] == down[i]);
        } else {
            assert(inside[i] == up[i - down.len() + 1]);
        }
    }
    assert forall|i: int| 0 <= i < inside.len() - 1 implies door_between(
        maze,
        #[trigger] inside[i + 1],
        inside[i],
    ) by {
        if i + 1 < down.len() {
            assert(inside[i] == down[i]);
            assert(inside[i + 1] == down[i + 1]);
        } else if i + 1 == down.len() {
            assert(inside[i] == down[i]);
            assert(inside[i] == up[0]);
            assert(inside[i + 1] == up[1]);
        } else {
            let j = i - down.len() + 1;
            assert(inside[i] == up[j]);
            assert(inside[i + 1] == up[j + 1]);
        }
    }
    assert(inside[0] == corner) by {
        assert(inside[0] == down[0]);
    }
    assert(inside.last() == start) by {
        if up.len() > 1 {
            assert(inside.last() == up[up.len() - 1]);
        } else {
            assert(inside.last() == down.last());
        }
    }
    assert(way[0] == outside);
    assert(way.last() == inside.last());
    assert forall|i: int| 1 <= i < way.len() implies QuintiMaze::in_bounds(#[trigger] way[i]) by {
        assert(way[i] == inside[i - 1]);
    }
    assert forall|i: int| 0 <= i < way.len() - 1 implies door_between(
        maze,
        #[trigger] way[i + 1],
        way[i],
    ) by {
        assert(way[i + 1] == inside[i]);
        if i > 0 {
            assert(way[i] == inside[i - 1]);
            assert(door_between(maze, inside[i - 1 + 1], inside[i - 1]));
        } else {
            assert(maze.door(corner, Direction::Up));
        }
    }
    assert(is_way_out(maze, way, start));
}

} // verus!
