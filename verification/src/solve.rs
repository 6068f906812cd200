//! The search for a way out of the maze: depth first through open doors,
//! never straight back to the cell just left.

use crate::bounded::{path_cells, path_new, path_push_back};
use crate::maze::{Coord, Direction, QuintiMaze, CELL_COUNT};
use vstd::prelude::*;

verus! {

/// A way out, from the cell outside the grid back to the cell the search
/// started from.
pub type SolutionPath = heapless::Deque<Coord, CELL_COUNT>;

/// How many steps the search may go beyond its starting cell. A way out
/// found within this depth fits a `SolutionPath`.
pub const SEARCH_DEPTH: usize = 123;

/// The order in which the doors of a cell are tried.
pub open spec fn scan_order() -> Seq<Direction> {
    seq![
        Direction::Up,
        Direction::Down,
        Direction::West,
        Direction::East,
        Direction::South,
        Direction::North,
    ]
}

/// The way out that a search finds from `at`, having come from `prior`,
/// going at most `depth` steps further and trying the doors of `at` from
/// place `from` of the scan order on. The first door that leads outside,
/// or to a cell from which the search succeeds, decides.
pub open spec fn search(
    maze: QuintiMaze,
    prior: Option<Coord>,
    at: Coord,
    depth: nat,
    from: int,
) -> Option<Seq<Coord>>
    decreases depth, 6 - from,
{
    if from < 0 || from >= 6 {
        None
    } else {
        let d = scan_order()[from];
        let next = at.moved(d);
        if !maze.door(at, d) {
            search(maze, prior, at, depth, from + 1)
        } else if QuintiMaze::spec_is_win(next) {
            Some(seq![next, at])
        } else if Some(next) != prior && depth > 0 && search(
            maze,
            Some(at),
            next,
            (depth - 1) as nat,
            0,
        ) is Some {
            Some(search(maze, Some(at), next, (depth - 1) as nat, 0).unwrap().push(at))
        } else {
            search(maze, prior, at, depth, from + 1)
        }
    }
}

/// The way out that `find_path_to_exit` returns from `start`, if any.
pub open spec fn exit_path(maze: QuintiMaze, start: Coord) -> Option<Seq<Coord>> {
    search(maze, None, start, SEARCH_DEPTH as nat, 0)
}

/// Whether an open door of `a` leads to `b`.
pub open spec fn door_between(maze: QuintiMaze, a: Coord, b: Coord) -> bool {
    exists|d: Direction| #[trigger] maze.door(a, d) && a.moved(d) == b
}

/// Whether `path`, read from its back to its front, walks from `start`
/// through open doors to a cell outside the grid, leaving the grid only
/// with its last step.
pub open spec fn is_way_out(maze: QuintiMaze, path: Seq<Coord>, start: Coord) -> bool {
    &&& path.len() >= 2
    &&& path.last() == start
    &&& QuintiMaze::spec_is_win(path[0])
    &&& forall|i: int| 1 <= i < path.len() ==> QuintiMaze::in_bounds(#[trigger] path[i])
    &&& forall|i: int|
        0 <= i < path.len() - 1 ==> door_between(maze, #[trigger] path[i + 1], path[i])
}

/// Whether `path` never steps straight back to the cell it just left.
pub open spec fn is_direct(path: Seq<Coord>) -> bool {
    forall|i: int| 0 <= i < path.len() - 2 ==> #[trigger] path[i] != path[i + 2]
}

/// Whether the first step of `path`, read from its back, goes somewhere
/// else than to `prior`.
pub open spec fn leaves_prior(path: Seq<Coord>, prior: Option<Coord>) -> bool {
    prior is Some && path.len() > 2 ==> path[path.len() - 2] != prior.unwrap()
}

/// Whatever the search finds is a way out of the maze from where it
/// started, no longer than its depth allows, that never steps straight
/// back.
pub proof fn lemma_search_finds_way_out(
    maze: QuintiMaze,
    prior: Option<Coord>,
    at: Coord,
    depth: nat,
    from: int,
)
    requires
        QuintiMaze::in_bounds(at),
        search(maze, prior, at, depth, from) is Some,
    ensures
        is_way_out(maze, search(maze, prior, at, depth, from).unwrap(), at),
        is_direct(search(maze, prior, at, depth, from).unwrap()),
        leaves_prior(search(maze, prior, at, depth, from).unwrap(), prior),
        search(maze, prior, at, depth, from).unwrap().len() <= depth + 2,
    decreases depth, 6 - from,
{
    let d = scan_order()[from];
    let next = at.moved(d);
    if !maze.door(at, d) {
        lemma_search_finds_way_out(maze, prior, at, depth, from + 1);
    } else if QuintiMaze::spec_is_win(next) {
        let p = seq![next, at];
        assert(door_between(maze, p[1], p[0]));
    } else if Some(next) != prior && depth > 0 && search(
        maze,
        Some(at),
        next,
        (depth - 1) as nat,
        0,
    ) is Some {
        let q = search(maze, Some(at), next, (depth - 1) as nat, 0).unwrap();
        lemma_search_finds_way_out(maze, Some(at), next, (depth - 1) as nat, 0);
        let p = q.push(at);
        assert(p.last() == at);
        assert(p[0] == q[0]);
        assert forall|i: int| 1 <= i < p.len() implies QuintiMaze::in_bounds(#[trigger] p[i]) by {
            if i < q.len() {
                assert(p[i] == q[i]);
            }
        }
        assert forall|i: int| 0 <= i < p.len() - 1 implies door_between(
            maze,
            #[trigger] p[i + 1],
            p[i],
        ) by {
            if i < q.len() - 1 {
                assert(p[i + 1] == q[i + 1]);
                assert(p[i] == q[i]);
            } else {
                assert(p[i] == next);
                assert(maze.door(at, d));
            }
        }
        assert forall|i: int| 0 <= i < p.len() - 2 implies #[trigger] p[i] != p[i + 2] by {
            assert(p[i] == q[i]);
            if i < q.len() - 2 {
                assert(p[i + 2] == q[i + 2]);
            } else if q.len() > 2 {
                assert(q[q.len() - 2] != at);
            }
        }
        assert(p[p.len() - 2] == next);
    } else {
        lemma_search_finds_way_out(maze, prior, at, depth, from + 1);
    }
}

/// The search misses no way out: where a way out from `at` exists that
/// never steps straight back, does not begin with a step to `prior`, is
/// short enough for the depth, and does not begin through a door that
/// comes before place `from` in the scan order, the search finds one.
pub proof fn lemma_search_is_complete(
    maze: QuintiMaze,
    prior: Option<Coord>,
    at: Coord,
    depth: nat,
    from: int,
    walk: Seq<Coord>,
)
    requires
        QuintiMaze::in_bounds(at),
        is_way_out(maze, walk, at),
        is_direct(walk),
        leaves_prior(walk, prior),
        walk.len() <= depth + 2,
        0 <= from <= 6,
        forall|j: int|
            0 <= j < from ==> !(maze.door(at, #[trigger] scan_order()[j]) && at.moved(
                scan_order()[j],
            ) == walk[walk.len() - 2]),
    ensures
        search(maze, prior, at, depth, from) is Some,
    decreases depth, 6 - from,
{
    let target = walk[walk.len() - 2];
    assert(walk[walk.len() - 2 + 1] == at);
    assert(door_between(maze, walk[walk.len() - 2 + 1], target));
    if from == 6 {
        let d = choose|d: Direction| #[trigger] maze.door(at, d) && at.moved(d) == target;
        assert(scan_order()[0] == Direction::Up);
        assert(scan_order()[1] == Direction::Down);
        assert(scan_order()[2] == Direction::West);
        assert(scan_order()[3] == Direction::East);
        assert(scan_order()[4] == Direction::South);
        assert(scan_order()[5] == Direction::North);
        assert(false);
    } else {
        let d = scan_order()[from];
        let next = at.moved(d);
        if !maze.door(at, d) {
            lemma_search_is_complete(maze, prior, at, depth, from + 1, walk);
        } else if QuintiMaze::spec_is_win(next) {
        } else if next == target {
            let tail = walk.drop_last();
            assert(QuintiMaze::in_bounds(target));
            assert(walk.len() > 2);
            assert(tail.last() == next);
            assert(tail[0] == walk[0]);
            assert forall|i: int| 1 <= i < tail.len() implies QuintiMaze::in_bounds(
                #[trigger] tail[i],
            ) by {
                assert(tail[i] == walk[i]);
            }
            assert forall|i: int| 0 <= i < tail.len() - 1 implies door_between(
                maze,
                #[trigger] tail[i + 1],
                tail[i],
            ) by {
                assert(tail[i + 1] == walk[i + 1]);
                assert(tail[i] == walk[i]);
            }
            assert forall|i: int| 0 <= i < tail.len() - 2 implies #[trigger] tail[i] != tail[i
                + 2] by {
                assert(walk[i] != walk[i + 2]);
            }
            if tail.len() > 2 {
                assert(walk[walk.len() - 3] != walk[walk.len() - 3 + 2]);
            }
            lemma_search_is_complete(maze, Some(at), next, (depth - 1) as nat, 0, tail);
        } else if Some(next) != prior && depth > 0 && search(
            maze,
            Some(at),
            next,
            (depth - 1) as nat,
            0,
        ) is Some {
        } else {
            lemma_search_is_complete(maze, prior, at, depth, from + 1, walk);
        }
    }
}

/// The way out that `find_path_to_exit` returns is a way out of the maze
/// that never steps straight back and fits a `SolutionPath`.
pub proof fn lemma_exit_path_is_way_out(maze: QuintiMaze, start: Coord)
    requires
        QuintiMaze::in_bounds(start),
        exit_path(maze, start) is Some,
    ensures
        is_way_out(maze, exit_path(maze, start).unwrap(), start),
        is_direct(exit_path(maze, start).unwrap()),
        exit_path(maze, start).unwrap().len() <= CELL_COUNT,
{
    lemma_search_finds_way_out(maze, None, start, SEARCH_DEPTH as nat, 0);
}

/// `find_path_to_exit` finds a way out exactly when there is one that
/// never steps straight back and fits a `SolutionPath`.
pub proof fn lemma_exit_path_exists_iff(maze: QuintiMaze, start: Coord)
    requires
        QuintiMaze::in_bounds(start),
    ensures
        exit_path(maze, start) is Some <==> exists|walk: Seq<Coord>|
            #[trigger] is_way_out(maze, walk, start) && is_direct(walk) && walk.len() <= CELL_COUNT,
{
    if exit_path(maze, start) is Some {
        lemma_exit_path_is_way_out(maze, start);
    }
    if exists|walk: Seq<Coord>|
        #[trigger] is_way_out(maze, walk, start) && is_direct(walk) && walk.len() <= CELL_COUNT {
        let walk = choose|walk: Seq<Coord>|
            #[trigger] is_way_out(maze, walk, start) && is_direct(walk) && walk.len() <= CELL_COUNT;
        lemma_search_is_complete(maze, None, start, SEARCH_DEPTH as nat, 0, walk);
    }
}

/// Searches from `location`, appending what it finds to `result`.
fn find_exit(
    maze: &QuintiMaze,
    prior_location: Option<Coord>,
    location: Coord,
    result: &mut SolutionPath,
    depth: usize,
) -> (found: bool)
    requires
        QuintiMaze::in_bounds(location),
        path_cells(*old(result)).len() + depth + 2 <= CELL_COUNT,
    ensures
        found == search(*maze, prior_location, location, depth as nat, 0) is Some,
        found ==> path_cells(*final(result)) == path_cells(*old(result)) + search(
            *maze,
            prior_location,
            location,
            depth as nat,
            0,
        ).unwrap(),
        !found ==> path_cells(*final(result)) == path_cells(*old(result)),
    decreases depth,
{
    let order = [
        Direction::Up,
        Direction::Down,
        Direction::West,
        Direction::East,
        Direction::South,
        Direction::North,
    ];
    assert(order@ =~= scan_order());
    let cell = maze.get_cell(&location);
    let mut i: usize = 0;
    while i < 6
        invariant
            i <= 6,
            order@ == scan_order(),
            QuintiMaze::in_bounds(location),
            cell == maze.cell_at(location),
            path_cells(*result) == path_cells(*old(result)),
            path_cells(*old(result)).len() + depth + 2 <= CELL_COUNT,
            search(*maze, prior_location, location, depth as nat, 0) == search(
                *maze,
                prior_location,
                location,
                depth as nat,
                i as int,
            ),
        decreases 6 - i,
    {
        let direction = order[i];
        if cell.has_door(direction) {
            let new_location = location.move_in_direction(direction);
            if maze.is_win(&new_location) {
                let outside = path_push_back(result, new_location);
                let inside = path_push_back(result, location);
                assert(path_cells(*result) =~= path_cells(*old(result)) + seq![
                    new_location,
                    location,
                ]);
                return true;
            }
            let came_from = match prior_location {
                Some(prior) => prior == new_location,
                None => false,
            };
            if !came_from && depth > 0 {
                if find_exit(maze, Some(location), new_location, result, depth - 1) {
                    proof {
                        lemma_search_finds_way_out(
                            *maze,
                            Some(location),
                            new_location,
                            (depth - 1) as nat,
                            0,
                        );
                    }
                    let ghost tail = search(
                        *maze,
                        Some(location),
                        new_location,
                        (depth - 1) as nat,
                        0,
                    ).unwrap();
                    let inside = path_push_back(result, location);
                    assert(path_cells(*result) =~= path_cells(*old(result)) + tail.push(location));
                    return true;
                }
            }
        }
        i += 1;
    }
    false
}

/// Looks for a way out of `maze` from `starting_position`. The doors of
/// each cell are tried in the scan order, and the first way found is
/// returned, from the cell outside the grid back to the starting cell.
/// Without a way out the path is empty.
pub fn find_path_to_exit(maze: &QuintiMaze, starting_position: Coord) -> (r: (bool, SolutionPath))
    requires
        QuintiMaze::in_bounds(starting_position),
    ensures
        r.0 == exit_path(*maze, starting_position) is Some,
        path_cells(r.1) == match exit_path(*maze, starting_position) {
            Some(path) => path,
            None => Seq::<Coord>::empty(),
        },
{
    let mut vec = path_new();
    let result = find_exit(maze, None, starting_position, &mut vec, SEARCH_DEPTH);
    proof {
        if result {
            assert(Seq::<Coord>::empty() + exit_path(*maze, starting_position).unwrap()
                =~= exit_path(*maze, starting_position).unwrap());
        }
    }
    (result, vec)
}

} // verus!
