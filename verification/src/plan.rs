//! Resolution validation and the two-level chunk plan.
//!
//! A run is configured by a world resolution (the resolution geometry is
//! generated at) and a strictly coarser chunk resolution (the resolution the
//! geometry is partitioned at). The plan enumerates every chunk cell and,
//! for each, its descendant cells at the world resolution.

use crate::h3::{base_cell_at, children_of, h3_base_cells, h3_children};
use vstd::prelude::*;

verus! {

/// Fatal configuration errors; they abort a run before any cell is
/// processed.
#[derive(Clone, Copy, PartialEq, Eq, Structural, Debug)]
pub enum ConfigError {
    /// The chunk resolution is not strictly coarser (numerically smaller)
    /// than the world resolution.
    ChunkNotCoarser {
        /// The offending chunk resolution.
        chunk_res: u8,
        /// The world resolution it was compared against.
        world_res: u8,
    },
    /// The chunk resolution lies outside the grid index's range of zero to
    /// fifteen.
    InvalidChunkResolution {
        /// The offending value.
        value: u8,
    },
    /// The world resolution lies outside the grid index's range of zero to
    /// fifteen.
    InvalidWorldResolution {
        /// The offending value.
        value: u8,
    },
}

/// The outcome of validating a resolution pair: the chunk resolution must be
/// strictly coarser than the world resolution and both must lie in the grid
/// index's range, checked in that order.
pub open spec fn config_check(world_res: u8, chunk_res: u8) -> Result<(), ConfigError> {
    if chunk_res >= world_res {
        Err(ConfigError::ChunkNotCoarser { chunk_res, world_res })
    } else if chunk_res > 15 {
        Err(ConfigError::InvalidChunkResolution { value: chunk_res })
    } else if world_res > 15 {
        Err(ConfigError::InvalidWorldResolution { value: world_res })
    } else {
        Ok(())
    }
}

/// Validates a resolution pair; succeeds exactly when the chunk resolution
/// is strictly coarser than the world resolution and both are at most
/// fifteen.
pub fn validate_config(world_res: u8, chunk_res: u8) -> (r: Result<(), ConfigError>)
    ensures
        r == config_check(world_res, chunk_res),
        r is Ok <==> chunk_res < world_res && chunk_res <= 15 && world_res <= 15,
{
    if chunk_res >= world_res {
        Err(ConfigError::ChunkNotCoarser { chunk_res, world_res })
    } else if chunk_res > 15 {
        Err(ConfigError::InvalidChunkResolution { value: chunk_res })
    } else if world_res > 15 {
        Err(ConfigError::InvalidWorldResolution { value: world_res })
    } else {
        Ok(())
    }
}

/// One chunk of the plan: a chunk cell and its descendant cells at the world
/// resolution.
pub struct ChunkPlan {
    /// The chunk cell's id.
    pub chunk_cell: u64,
    /// The ids of the chunk cell's descendants at the world resolution.
    pub world_cells: Vec<u64>,
}

/// The base cell ids in enumeration order.
pub open spec fn spec_base_cells() -> Seq<u64> {
    Seq::new(122, |i: int| base_cell_at(i as u64))
}

/// The children of every cell of `cells` at `res`, flattened in order.
pub open spec fn concat_children(cells: Seq<u64>, res: u8) -> Seq<u64>
    decreases cells.len(),
{
    if cells.len() == 0 {
        Seq::<u64>::empty()
    } else {
        children_of(cells[0], res) + concat_children(cells.drop_first(), res)
    }
}

/// Appending a cell appends its children.
proof fn lemma_concat_children_push(cells: Seq<u64>, c: u64, res: u8)
    ensures
        concat_children(cells.push(c), res) == concat_children(cells, res) + children_of(c, res),
    decreases cells.len(),
{
    assert(concat_children(cells.push(c), res) == children_of(cells.push(c)[0], res)
        + concat_children(cells.push(c).drop_first(), res));
    if cells.len() == 0 {
        assert(cells.push(c)[0] == c);
        assert(cells.push(c).drop_first() =~= Seq::<u64>::empty());
        assert(concat_children(cells.push(c).drop_first(), res) == Seq::<u64>::empty());
        assert(children_of(c, res) + Seq::<u64>::empty() =~= children_of(c, res));
        assert(concat_children(cells, res) + children_of(c, res) =~= children_of(c, res));
    } else {
        assert(cells.push(c)[0] == cells[0]);
        assert(cells.push(c).drop_first() =~= cells.drop_first().push(c));
        lemma_concat_children_push(cells.drop_first(), c, res);
        assert(children_of(cells[0], res) + (concat_children(cells.drop_first(), res) + children_of(
            c,
            res,
        )) =~= (children_of(cells[0], res) + concat_children(cells.drop_first(), res))
            + children_of(c, res));
    }
}

/// Every cell of the grid at resolution `res`: the base cells themselves at
/// resolution zero, otherwise every base cell's descendants at `res`.
pub open spec fn spec_cells_at(res: u8) -> Seq<u64> {
    if res == 0 {
        spec_base_cells()
    } else {
        concat_children(spec_base_cells(), res)
    }
}

/// Collects every cell of the grid at resolution `res`.
fn cells_at(res: u8) -> (r: Vec<u64>)
    requires
        res <= 15,
    ensures
        r@ == spec_cells_at(res),
{
    let base = h3_base_cells();
    proof {
        assert(base@ =~= spec_base_cells());
    }
    if res == 0 {
        base
    } else {
        let mut v: Vec<u64> = Vec::new();
        let mut i: usize = 0;
        proof {
            assert(base@.take(0) =~= Seq::<u64>::empty());
        }
        while i < base.len()
            invariant
                i <= base@.len(),
                res <= 15,
                v@ == concat_children(base@.take(i as int), res),
            decreases base@.len() - i,
        {
            let mut ch = h3_children(base[i], res);
            v.append(&mut ch);
            proof {
                assert(base@.take(i + 1) =~= base@.take(i as int).push(base@[i as int]));
                lemma_concat_children_push(base@.take(i as int), base@[i as int], res);
            }
            i = i + 1;
        }
        proof {
            assert(base@.take(base@.len() as int) =~= base@);
        }
        v
    }
}

/// Enumerates every cell of the grid at one resolution; fails exactly when
/// the resolution lies outside the grid index's range.
pub fn cells_at_resolution(resolution: u8) -> (r: Result<Vec<u64>, ConfigError>)
    ensures
        r is Ok <==> resolution <= 15,
        r is Err ==> r == Err::<Vec<u64>, ConfigError>(
            (ConfigError::InvalidWorldResolution { value: resolution }),
        ),
        r matches Ok(cells) ==> cells@ == spec_cells_at(resolution),
{
    if resolution > 15 {
        return Err(ConfigError::InvalidWorldResolution { value: resolution });
    }
    Ok(cells_at(resolution))
}

/// Enumerates the two-level cell hierarchy of a run: every chunk cell at the
/// chunk resolution with its descendant cells at the world resolution, in
/// the grid index's enumeration order. Fails exactly when the configuration
/// is invalid, before touching any cell.
pub fn plan_chunks(world_res: u8, chunk_res: u8) -> (r: Result<Vec<ChunkPlan>, ConfigError>)
    ensures
        r is Ok <==> config_check(world_res, chunk_res) is Ok,
        r is Err ==> r == Err::<Vec<ChunkPlan>, ConfigError>(
            config_check(world_res, chunk_res)->Err_0,
        ),
        r matches Ok(plan) ==> {
            let cc = spec_cells_at(chunk_res);
            &&& plan@.len() == cc.len()
            &&& forall|i: int|
                0 <= i < cc.len() ==> (#[trigger] plan@[i]).chunk_cell == cc[i]
                    && plan@[i].world_cells@ == children_of(cc[i], world_res)
        },
{
    match validate_config(world_res, chunk_res) {
        Ok(()) => {},
        Err(e) => {
            return Err(e);
        },
    }
    let chunk_cells: Vec<u64> = cells_at(chunk_res);
    let ghost cc = spec_cells_at(chunk_res);
    let mut plan: Vec<ChunkPlan> = Vec::new();
    let mut i: usize = 0;
    while i < chunk_cells.len()
        invariant
            i <= chunk_cells@.len(),
            chunk_cells@ == cc,
            world_res <= 15,
            plan@.len() == i,
            forall|j: int|
                0 <= j < i ==> (#[trigger] plan@[j]).chunk_cell == cc[j]
                    && plan@[j].world_cells@ == children_of(cc[j], world_res),
        decreases chunk_cells@.len() - i,
    {
        let cell = chunk_cells[i];
        let world_cells = h3_children(cell, world_res);
        plan.push(ChunkPlan { chunk_cell: cell, world_cells });
        i = i + 1;
    }
    Ok(plan)
}

} // verus!
