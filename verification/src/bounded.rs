//! The fixed-capacity collections the maze code keeps its cells in. They
//! come from `heapless`; what is said of them here is taken on trust.

use crate::maze::{Coord, CELL_COUNT};
use vstd::prelude::*;

verus! {

/// `heapless::Vec`, a vector of at most `N` items, taken as opaque.
#[verifier::external_type_specification]
#[verifier::external_body]
#[verifier::reject_recursive_types(T)]
pub struct ExBoundedVec<T, const N: usize>(heapless::Vec<T, N>);

/// `heapless::Deque`, a double-ended queue of at most `N` items, taken as
/// opaque.
#[verifier::external_type_specification]
#[verifier::external_body]
#[verifier::reject_recursive_types(T)]
pub struct ExBoundedDeque<T, const N: usize>(heapless::Deque<T, N>);

/// The cells a generator's working set holds, oldest first.
pub uninterp spec fn frontier_cells(frontier: heapless::Vec<Coord, CELL_COUNT>) -> Seq<Coord>;

/// The cells a path holds, from its front to its back.
pub uninterp spec fn path_cells(path: heapless::Deque<Coord, CELL_COUNT>) -> Seq<Coord>;

/// `heapless::Vec::new`: a vector that holds nothing.
#[verifier::external_body]
pub(crate) fn frontier_new() -> (r: heapless::Vec<Coord, CELL_COUNT>)
    ensures
        frontier_cells(r) == Seq::<Coord>::empty(),
{
    heapless::Vec::new()
}

/// `heapless::Vec::len`: the number of cells held.
#[verifier::external_body]
pub(crate) fn frontier_len(frontier: &heapless::Vec<Coord, CELL_COUNT>) -> (r: usize)
    ensures
        r == frontier_cells(*frontier).len(),
{
    frontier.len()
}

/// Indexing a `heapless::Vec` through its slice: the cell at `index`,
/// which must be below the length.
#[verifier::external_body]
pub(crate) fn frontier_get(frontier: &heapless::Vec<Coord, CELL_COUNT>, index: usize) -> (r: Coord)
    requires
        frontier_cells(*frontier).len() > index,
    ensures
        r == frontier_cells(*frontier)[index as int],
{
    frontier[index]
}

/// `heapless::Vec::push`: appends `cell` at the end while fewer than
/// `CELL_COUNT` cells are held; a full vector hands the cell back and
/// stays as it was.
#[verifier::external_body]
pub(crate) fn frontier_push(frontier: &mut heapless::Vec<Coord, CELL_COUNT>, cell: Coord) -> (r:
    Result<(), Coord>)
    ensures
        r is Ok <==> CELL_COUNT > frontier_cells(*old(frontier)).len(),
        r is Ok ==> frontier_cells(*final(frontier)) == frontier_cells(*old(frontier)).push(cell),
        r is Err ==> r->Err_0 == cell && frontier_cells(*final(frontier)) == frontier_cells(*old(frontier)),
{
    frontier.push(cell)
}

/// `heapless::Vec::remove`: takes out and returns the cell at `index`,
/// which must be below the length; the cells behind it move up by one.
#[verifier::external_body]
pub(crate) fn frontier_remove(frontier: &mut heapless::Vec<Coord, CELL_COUNT>, index: usize) -> (r:
    Coord)
    requires
        frontier_cells(*old(frontier)).len() > index,
    ensures
        r == frontier_cells(*old(frontier))[index as int],
        frontier_cells(*final(frontier)) == frontier_cells(*old(frontier)).remove(index as int),
{
    frontier.remove(index)
}

/// `heapless::Deque::new`: a deque that holds nothing.
#[verifier::external_body]
pub(crate) fn path_new() -> (r: heapless::Deque<Coord, CELL_COUNT>)
    ensures
        path_cells(r) == Seq::<Coord>::empty(),
{
    heapless::Deque::new()
}

/// `heapless::Deque::push_back`: appends `cell` at the back while fewer
/// than `CELL_COUNT` cells are held; a full deque hands the cell back and
/// stays as it was.
#[verifier::external_body]
pub(crate) fn path_push_back(path: &mut heapless::Deque<Coord, CELL_COUNT>, cell: Coord) -> (r:
    Result<(), Coord>)
    ensures
        r is Ok <==> CELL_COUNT > path_cells(*old(path)).len(),
        r is Ok ==> path_cells(*final(path)) == path_cells(*old(path)).push(cell),
        r is Err ==> r->Err_0 == cell && path_cells(*final(path)) == path_cells(*old(path)),
{
    path.push_back(cell)
}

/// `heapless::Deque::pop_back`: takes the cell at the back out and returns
/// it; an empty deque gives `None` and stays empty.
#[verifier::external_body]
pub(crate) fn path_pop_back(path: &mut heapless::Deque<Coord, CELL_COUNT>) -> (r: Option<Coord>)
    ensures
        r is None <==> path_cells(*old(path)).len() == 0,
        r is None ==> path_cells(*final(path)) == path_cells(*old(path)),
        r is Some ==> r == Some(path_cells(*old(path)).last()) && path_cells(*final(path))
            == path_cells(*old(path)).drop_last(),
{
    path.pop_back()
}

/// `heapless::Deque::back`: a copy of the cell at the back, `None` for an
/// empty deque.
#[verifier::external_body]
pub(crate) fn path_back(path: &heapless::Deque<Coord, CELL_COUNT>) -> (r: Option<Coord>)
    ensures
        r is None <==> path_cells(*path).len() == 0,
        r is Some ==> r == Some(path_cells(*path).last()),
{
    path.back().copied()
}

} // verus!
