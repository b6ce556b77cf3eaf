//! Trusted interface to the hexagonal grid index.
//!
//! Cells and vertexes are carried as their plain 64-bit ids. What the grid
//! index computes for an id is named by uninterpreted functions; the wrappers
//! below relate the real calls to those names.

use vstd::prelude::*;

verus! {

/// The id of the `i`-th base cell (resolution zero) in the grid index's own
/// enumeration order; meaningful for `i` below 122.
pub uninterp spec fn base_cell_at(i: u64) -> u64;

/// The ids of `cell`'s children at resolution `res`, in the grid index's
/// canonical order (empty for an id that is no valid cell).
pub uninterp spec fn children_of(cell: u64, res: u8) -> Seq<u64>;

/// The ids of `cell`'s topological vertexes, in the grid index's canonical
/// order (empty for an id that is no valid cell).
pub uninterp spec fn vertexes_of(cell: u64) -> Seq<u64>;

/// Whether `cell` is a pentagonal cell (false for an id that is no valid
/// cell).
pub uninterp spec fn is_pentagon_cell(cell: u64) -> bool;

/// Relies on `h3o::CellIndex::base_cells`: it enumerates all 122 base cells,
/// in a fixed order.
#[verifier::external_body]
pub(crate) fn h3_base_cells() -> (r: Vec<u64>)
    ensures
        r@.len() == 122,
        forall|i: int| 0 <= i < 122 ==> r@[i] == base_cell_at(i as u64),
{
    h3o::CellIndex::base_cells().map(u64::from).collect()
}

/// Relies on `h3o::CellIndex::children`: the children of a cell at a
/// resolution are a function of cell id and resolution alone.
#[verifier::external_body]
pub(crate) fn h3_children(cell: u64, res: u8) -> (r: Vec<u64>)
    requires
        res <= 15,
    ensures
        r@ == children_of(cell, res),
{
    match h3o::CellIndex::try_from(cell) {
        Ok(c) => match h3o::Resolution::try_from(res) {
            Ok(rr) => c.children(rr).map(u64::from).collect(),
            Err(_) => Vec::new(),
        },
        Err(_) => Vec::new(),
    }
}

/// Relies on `h3o::CellIndex::vertexes`: a cell's vertexes are a function of
/// the cell id alone.
#[verifier::external_body]
pub(crate) fn h3_cell_vertexes(cell: u64) -> (r: Vec<u64>)
    ensures
        r@ == vertexes_of(cell),
{
    match h3o::CellIndex::try_from(cell) {
        Ok(c) => c.vertexes().map(u64::from).collect(),
        Err(_) => Vec::new(),
    }
}

/// Relies on `h3o::CellIndex::is_pentagon`: pentagonality is a function of
/// the cell id alone.
#[verifier::external_body]
pub(crate) fn h3_is_pentagon(cell: u64) -> (r: bool)
    ensures
        r == is_pentagon_cell(cell),
{
    match h3o::CellIndex::try_from(cell) {
        Ok(c) => c.is_pentagon(),
        Err(_) => false,
    }
}

/// The ids of a cell's boundary vertexes, in the order the grid index yields
/// them.
pub fn cell_boundary_ids(cell: u64) -> (r: Vec<u64>)
    ensures
        r@ == vertexes_of(cell),
{
    h3_cell_vertexes(cell)
}

/// Whether a cell id names a pentagonal cell.
pub fn cell_is_pentagon(cell: u64) -> (r: bool)
    ensures
        r == is_pentagon_cell(cell),
{
    h3_is_pentagon(cell)
}

} // verus!
