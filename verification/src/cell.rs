//! Turning grid cells into mesh geometry.
//!
//! A cell arrives as its pentagon flag, its projected center, its projected
//! boundary positions (in order) and the attribute value its vertices carry.
//! Processing validates the center, registers vertices with deduplication,
//! drops non-finite boundary vertices one by one, and fan-triangulates what
//! remains.

use crate::mesh::{
    dedup_attributes, dedup_index, dedup_positions, Attribute, AttributeMode, Mesh,
    triangulate_pentagon,
};
use crate::quant::{position_finite, Position, QuantScheme};
use vstd::prelude::*;

verus! {

/// Counters accumulated while processing cells.
#[derive(Clone, Copy, PartialEq, Eq, Structural, Debug)]
pub struct ProcessingStats {
    /// Cells classified as pentagons.
    pub pentagon_count: usize,
    /// Cells classified as hexagons.
    pub hexagon_count: usize,
    /// Projected coordinates found non-finite (cell centers and individual
    /// boundary vertices alike).
    pub invalid_coords: usize,
    /// Cells that were processed without error.
    pub cells_processed: usize,
}

impl Default for ProcessingStats {
    /// All counters zero.
    fn default() -> (s: Self)
        ensures
            s == (ProcessingStats {
                pentagon_count: 0,
                hexagon_count: 0,
                invalid_coords: 0,
                cells_processed: 0,
            }),
    {
        ProcessingStats { pentagon_count: 0, hexagon_count: 0, invalid_coords: 0, cells_processed: 0 }
    }
}

impl ProcessingStats {
    /// Adds another statistics value into this one.
    pub fn accumulate(&mut self, other: &ProcessingStats)
        requires
            old(self).pentagon_count + other.pentagon_count <= usize::MAX,
            old(self).hexagon_count + other.hexagon_count <= usize::MAX,
            old(self).invalid_coords + other.invalid_coords <= usize::MAX,
            old(self).cells_processed + other.cells_processed <= usize::MAX,
        ensures
            final(self).pentagon_count == old(self).pentagon_count + other.pentagon_count,
            final(self).hexagon_count == old(self).hexagon_count + other.hexagon_count,
            final(self).invalid_coords == old(self).invalid_coords + other.invalid_coords,
            final(self).cells_processed == old(self).cells_processed + other.cells_processed,
    {
        self.pentagon_count = self.pentagon_count + other.pentagon_count;
        self.hexagon_count = self.hexagon_count + other.hexagon_count;
        self.invalid_coords = self.invalid_coords + other.invalid_coords;
        self.cells_processed = self.cells_processed + other.cells_processed;
    }
}

/// Recoverable errors of cell processing; they are counted, never escalated.
#[derive(Clone, Copy, PartialEq, Eq, Structural, Debug)]
pub enum CellError {
    /// The cell's projected center has a non-finite coordinate; the whole
    /// cell is skipped.
    InvalidCoordinates,
    /// Fewer than three valid boundary vertices remain; the cell contributes
    /// no triangles.
    InsufficientBoundary,
}

/// One grid cell's geometry, ready for processing.
pub struct CellGeom {
    /// Whether the cell is a pentagon (otherwise a hexagon).
    pub pentagon: bool,
    /// Projected center position.
    pub center: Position,
    /// Projected boundary positions, in the order the grid index yields them.
    pub boundary: Vec<Position>,
    /// Attribute value given to every vertex this cell registers.
    pub attribute: Attribute,
}

/// Mathematical model of a mesh's data.
pub ghost struct MeshModel {
    /// Vertex positions.
    pub vertices: Seq<Position>,
    /// Per-vertex attributes.
    pub attributes: Seq<Attribute>,
    /// Flat triangle indices.
    pub indices: Seq<int>,
}

/// The model of a mesh value.
pub open spec fn mesh_model(m: &Mesh) -> MeshModel {
    MeshModel {
        vertices: m.vertices@,
        attributes: m.attributes@,
        indices: m.indices@.map_values(|x: usize| x as int),
    }
}

/// Mathematical model of the statistics counters.
pub ghost struct StatsModel {
    /// Pentagon cells seen.
    pub pentagons: nat,
    /// Hexagon cells seen.
    pub hexagons: nat,
    /// Non-finite coordinates seen.
    pub invalid: nat,
    /// Cells processed without error.
    pub processed: nat,
}

/// The model of a statistics value.
pub open spec fn stats_model(s: ProcessingStats) -> StatsModel {
    StatsModel {
        pentagons: s.pentagon_count as nat,
        hexagons: s.hexagon_count as nat,
        invalid: s.invalid_coords as nat,
        processed: s.cells_processed as nat,
    }
}

/// State accumulated while walking a cell's boundary: the mesh's vertex and
/// attribute sequences, the indices of the valid boundary vertices in order,
/// and how many boundary vertices were dropped as non-finite.
pub ghost struct BoundaryOutcome {
    /// Mesh vertex positions so far.
    pub positions: Seq<Position>,
    /// Mesh attributes so far.
    pub attributes: Seq<Attribute>,
    /// Indices of the valid boundary vertices, in boundary order.
    pub bidx: Seq<int>,
    /// Count of boundary vertices dropped as non-finite.
    pub invalid: nat,
}

/// One boundary vertex: a finite position is registered with deduplication,
/// a non-finite one is dropped and counted.
pub open spec fn boundary_step(
    scheme: QuantScheme,
    acc: BoundaryOutcome,
    p: Position,
    a: Attribute,
) -> BoundaryOutcome {
    if position_finite(p) {
        BoundaryOutcome {
            positions: dedup_positions(scheme, acc.positions, p),
            attributes: dedup_attributes(scheme, acc.positions, acc.attributes, p, a),
            bidx: acc.bidx.push(dedup_index(scheme, acc.positions, p)),
            invalid: acc.invalid,
        }
    } else {
        BoundaryOutcome {
            positions: acc.positions,
            attributes: acc.attributes,
            bidx: acc.bidx,
            invalid: acc.invalid + 1,
        }
    }
}

/// Walks a whole boundary sequence, front to back.
pub open spec fn boundary_fold(
    scheme: QuantScheme,
    init: BoundaryOutcome,
    b: Seq<Position>,
    a: Attribute,
) -> BoundaryOutcome
    decreases b.len(),
{
    if b.len() == 0 {
        init
    } else {
        boundary_fold(scheme, boundary_step(scheme, init, b[0], a), b.drop_first(), a)
    }
}

/// Folding one more element at the back is one more step.
pub proof fn lemma_boundary_fold_push(
    scheme: QuantScheme,
    init: BoundaryOutcome,
    b: Seq<Position>,
    p: Position,
    a: Attribute,
)
    ensures
        boundary_fold(scheme, init, b.push(p), a) == boundary_step(
            scheme,
            boundary_fold(scheme, init, b, a),
            p,
            a,
        ),
    decreases b.len(),
{
    if b.len() == 0 {
        assert(b.push(p)[0] == p);
        assert(b.push(p).drop_first() =~= Seq::<Position>::empty());
        assert(boundary_fold(scheme, init, b.push(p), a) == boundary_fold(
            scheme,
            boundary_step(scheme, init, p, a),
            b.push(p).drop_first(),
            a,
        ));
        assert(boundary_fold(scheme, boundary_step(scheme, init, p, a), b.push(p).drop_first(), a)
            == boundary_step(scheme, init, p, a));
        assert(boundary_fold(scheme, init, b, a) == init);
    } else {
        assert(b.push(p)[0] == b[0]);
        assert(b.push(p).drop_first() =~= b.drop_first().push(p));
        assert(boundary_fold(scheme, init, b.push(p), a) == boundary_fold(
            scheme,
            boundary_step(scheme, init, b[0], a),
            b.drop_first().push(p),
            a,
        ));
        lemma_boundary_fold_push(scheme, boundary_step(scheme, init, b[0], a), b.drop_first(), p, a);
        assert(boundary_fold(scheme, init, b, a) == boundary_fold(
            scheme,
            boundary_step(scheme, init, b[0], a),
            b.drop_first(),
            a,
        ));
    }
}

/// A boundary walk drops at most one coordinate per boundary vertex.
pub proof fn lemma_boundary_fold_invalid(
    scheme: QuantScheme,
    init: BoundaryOutcome,
    b: Seq<Position>,
    a: Attribute,
)
    ensures
        boundary_fold(scheme, init, b, a).invalid <= init.invalid + b.len(),
    decreases b.len(),
{
    if b.len() == 0 {
    } else {
        lemma_boundary_fold_invalid(scheme, boundary_step(scheme, init, b[0], a), b.drop_first(), a);
    }
}

/// The flat index sequence of a triangle fan: triangle `t` is
/// `(center, b[t], b[(t+1) mod N])`.
pub open spec fn fan_indices(center: int, b: Seq<int>) -> Seq<int> {
    Seq::new(
        3 * b.len(),
        |t: int|
            if t % 3 == 0 {
                center
            } else if t % 3 == 1 {
                b[t / 3]
            } else {
                b[(t / 3 + 1) % b.len() as int]
            },
    )
}

/// The outcome of processing one cell against a mesh model: the new mesh
/// model, the number of non-finite coordinates encountered, and whether the
/// cell was processed without error.
pub open spec fn process_cell_spec(scheme: QuantScheme, m: MeshModel, c: CellGeom) -> (
    MeshModel,
    nat,
    bool,
) {
    if !position_finite(c.center) {
        (m, 1nat, false)
    } else {
        let center_idx = dedup_index(scheme, m.vertices, c.center);
        let init = BoundaryOutcome {
            positions: dedup_positions(scheme, m.vertices, c.center),
            attributes: dedup_attributes(scheme, m.vertices, m.attributes, c.center, c.attribute),
            bidx: Seq::<int>::empty(),
            invalid: 0nat,
        };
        let out = boundary_fold(scheme, init, c.boundary@, c.attribute);
        if out.bidx.len() >= 3 {
            (
                MeshModel {
                    vertices: out.positions,
                    attributes: out.attributes,
                    indices: m.indices + fan_indices(center_idx, out.bidx),
                },
                out.invalid,
                true,
            )
        } else {
            (
                MeshModel {
                    vertices: out.positions,
                    attributes: out.attributes,
                    indices: m.indices,
                },
                out.invalid,
                false,
            )
        }
    }
}

/// Whether every cell's attribute belongs to channel `mode`.
pub open spec fn cells_mode_ok(mode: AttributeMode, cells: Seq<CellGeom>) -> bool {
    forall|i: int| 0 <= i < cells.len() ==> (#[trigger] cells[i]).attribute.spec_mode() == mode
}

/// The empty mesh model.
pub open spec fn empty_mesh_model() -> MeshModel {
    MeshModel {
        vertices: Seq::<Position>::empty(),
        attributes: Seq::<Attribute>::empty(),
        indices: Seq::<int>::empty(),
    }
}

/// The all-zero statistics model.
pub open spec fn zero_stats_model() -> StatsModel {
    StatsModel { pentagons: 0nat, hexagons: 0nat, invalid: 0nat, processed: 0nat }
}

/// Upper bound on how many coordinates a cell sequence can mark invalid: one
/// center plus one per boundary vertex, per cell.
pub open spec fn total_work(cells: Seq<CellGeom>) -> nat
    decreases cells.len(),
{
    if cells.len() == 0 {
        0nat
    } else {
        1 + cells[0].boundary@.len() + total_work(cells.drop_first())
    }
}

/// One cell's effect on the running mesh and statistics models.
pub open spec fn run_step(
    scheme: QuantScheme,
    acc: (MeshModel, StatsModel),
    c: CellGeom,
) -> (MeshModel, StatsModel) {
    let (m1, inv, ok) = process_cell_spec(scheme, acc.0, c);
    (
        m1,
        StatsModel {
            pentagons: acc.1.pentagons + (if c.pentagon {
                1nat
            } else {
                0nat
            }),
            hexagons: acc.1.hexagons + (if c.pentagon {
                0nat
            } else {
                1nat
            }),
            invalid: acc.1.invalid + inv,
            processed: acc.1.processed + (if ok {
                1nat
            } else {
                0nat
            }),
        },
    )
}

/// The model outcome of processing a cell sequence in order.
pub open spec fn run_fold(
    scheme: QuantScheme,
    acc: (MeshModel, StatsModel),
    cells: Seq<CellGeom>,
) -> (MeshModel, StatsModel)
    decreases cells.len(),
{
    if cells.len() == 0 {
        acc
    } else {
        run_fold(scheme, run_step(scheme, acc, cells[0]), cells.drop_first())
    }
}

/// Folding one more cell at the back is one more step.
pub proof fn lemma_run_fold_push(
    scheme: QuantScheme,
    acc: (MeshModel, StatsModel),
    cells: Seq<CellGeom>,
    c: CellGeom,
)
    ensures
        run_fold(scheme, acc, cells.push(c)) == run_step(scheme, run_fold(scheme, acc, cells), c),
    decreases cells.len(),
{
    if cells.len() == 0 {
        assert(cells.push(c)[0] == c);
        assert(cells.push(c).drop_first() =~= Seq::<CellGeom>::empty());
        assert(run_fold(scheme, acc, cells.push(c)) == run_fold(
            scheme,
            run_step(scheme, acc, c),
            cells.push(c).drop_first(),
        ));
    } else {
        assert(cells.push(c)[0] == cells[0]);
        assert(cells.push(c).drop_first() =~= cells.drop_first().push(c));
        assert(run_fold(scheme, acc, cells.push(c)) == run_fold(
            scheme,
            run_step(scheme, acc, cells[0]),
            cells.drop_first().push(c),
        ));
        lemma_run_fold_push(scheme, run_step(scheme, acc, cells[0]), cells.drop_first(), c);
    }
}

/// Appending a cell adds its work to the total.
pub proof fn lemma_total_work_push(cells: Seq<CellGeom>, c: CellGeom)
    ensures
        total_work(cells.push(c)) == total_work(cells) + 1 + c.boundary@.len(),
    decreases cells.len(),
{
    assert(total_work(cells.push(c)) == 1 + cells.push(c)[0].boundary@.len() + total_work(
        cells.push(c).drop_first(),
    ));
    if cells.len() == 0 {
        assert(cells.push(c)[0] == c);
        assert(cells.push(c).drop_first() =~= Seq::<CellGeom>::empty());
        assert(total_work(cells.push(c).drop_first()) == 0);
    } else {
        assert(cells.push(c)[0] == cells[0]);
        assert(cells.push(c).drop_first() =~= cells.drop_first().push(c));
        lemma_total_work_push(cells.drop_first(), c);
        assert(total_work(cells) == 1 + cells[0].boundary@.len() + total_work(cells.drop_first()));
    }
}

/// A prefix never has more work than the whole sequence.
pub proof fn lemma_total_work_take_le(cells: Seq<CellGeom>, j: int)
    requires
        0 <= j <= cells.len(),
    ensures
        total_work(cells.take(j)) <= total_work(cells),
    decreases cells.len() - j,
{
    if j == cells.len() {
        assert(cells.take(j) =~= cells);
    } else {
        assert(cells.take(j + 1) =~= cells.take(j).push(cells[j]));
        lemma_total_work_push(cells.take(j), cells[j]);
        lemma_total_work_take_le(cells, j + 1);
    }
}

/// A cell sequence's work is at least its length.
pub proof fn lemma_total_work_ge_len(cells: Seq<CellGeom>)
    ensures
        total_work(cells) >= cells.len(),
    decreases cells.len(),
{
    if cells.len() == 0 {
    } else {
        lemma_total_work_ge_len(cells.drop_first());
    }
}

/// Bounds on the statistics a fold can accumulate: at most one pentagon,
/// hexagon and processed count per cell, and at most `total_work` invalid
/// coordinates.
pub proof fn lemma_run_fold_bounds(
    scheme: QuantScheme,
    acc: (MeshModel, StatsModel),
    cells: Seq<CellGeom>,
)
    ensures
        run_fold(scheme, acc, cells).1.pentagons <= acc.1.pentagons + cells.len(),
        run_fold(scheme, acc, cells).1.hexagons <= acc.1.hexagons + cells.len(),
        run_fold(scheme, acc, cells).1.processed <= acc.1.processed + cells.len(),
        run_fold(scheme, acc, cells).1.invalid <= acc.1.invalid + total_work(cells),
    decreases cells.len(),
{
    if cells.len() == 0 {
    } else {
        let c = cells[0];
        if position_finite(c.center) {
            let init_c = BoundaryOutcome {
                positions: dedup_positions(scheme, acc.0.vertices, c.center),
                attributes: dedup_attributes(
                    scheme,
                    acc.0.vertices,
                    acc.0.attributes,
                    c.center,
                    c.attribute,
                ),
                bidx: Seq::<int>::empty(),
                invalid: 0nat,
            };
            lemma_boundary_fold_invalid(scheme, init_c, c.boundary@, c.attribute);
        }
        lemma_run_fold_bounds(scheme, run_step(scheme, acc, c), cells.drop_first());
        assert(total_work(cells) == 1 + c.boundary@.len() + total_work(cells.drop_first()));
    }
}

/// Processes one cell into the mesh, updating the statistics.
///
/// The cell is classified first (pentagon or hexagon). A non-finite center
/// abandons the whole cell before anything is registered. Non-finite boundary
/// vertices are dropped individually; the remaining ones are registered in
/// order and, when at least three remain, fan-triangulated around the center.
/// When fewer remain the cell contributes no triangles, but the vertices it
/// already registered stay in the mesh.
#[verifier::rlimit(100)]
pub fn process_single_cell(mesh: &mut Mesh, stats: &mut ProcessingStats, cell: &CellGeom) -> (r:
    Result<(), CellError>)
    requires
        old(mesh).wf(),
        cell.attribute.spec_mode() == old(mesh).mode,
        old(stats).pentagon_count < usize::MAX,
        old(stats).hexagon_count < usize::MAX,
        old(stats).invalid_coords + 1 + cell.boundary@.len() <= usize::MAX,
    ensures
        final(mesh).wf(),
        final(mesh).scheme == old(mesh).scheme,
        final(mesh).mode == old(mesh).mode,
        final(stats).cells_processed == old(stats).cells_processed,
        final(stats).pentagon_count == old(stats).pentagon_count + (if cell.pentagon {
            1int
        } else {
            0int
        }),
        final(stats).hexagon_count == old(stats).hexagon_count + (if cell.pentagon {
            0int
        } else {
            1int
        }),
        ({
            let (m1, inv, ok) = process_cell_spec(old(mesh).scheme, mesh_model(old(mesh)), *cell);
            &&& mesh_model(final(mesh)) == m1
            &&& final(stats).invalid_coords == old(stats).invalid_coords + inv
            &&& (ok <==> r is Ok)
            &&& !position_finite(cell.center) ==> r == Err::<(), CellError>(
                CellError::InvalidCoordinates,
            ) && *final(mesh) == *old(mesh)
            &&& position_finite(cell.center) && !ok ==> r == Err::<(), CellError>(
                CellError::InsufficientBoundary,
            )
        }),
{
    let ghost scheme = mesh.scheme;
    if cell.pentagon {
        stats.pentagon_count = stats.pentagon_count + 1;
    } else {
        stats.hexagon_count = stats.hexagon_count + 1;
    }
    if !crate::quant::position_is_finite(&cell.center) {
        stats.invalid_coords = stats.invalid_coords + 1;
        return Err(CellError::InvalidCoordinates);
    }
    let ghost m0 = mesh_model(old(mesh));
    let center_idx = mesh.add_vertex(cell.center, cell.attribute);
    let ghost init = BoundaryOutcome {
        positions: mesh.vertices@,
        attributes: mesh.attributes@,
        bidx: Seq::<int>::empty(),
        invalid: 0nat,
    };
    let ghost stats_mid = *stats;
    let mut boundary_indices: Vec<usize> = Vec::new();
    let mut i: usize = 0;
    while i < cell.boundary.len()
        invariant
            mesh.wf(),
            mesh.scheme == scheme,
            mesh.mode == old(mesh).mode,
            cell.attribute.spec_mode() == mesh.mode,
            i <= cell.boundary@.len(),
            center_idx < mesh.vertices@.len(),
            mesh.indices@ == old(mesh).indices@,
            stats.pentagon_count == stats_mid.pentagon_count,
            stats.hexagon_count == stats_mid.hexagon_count,
            stats.cells_processed == stats_mid.cells_processed,
            stats_mid.invalid_coords + 1 + cell.boundary@.len() <= usize::MAX,
            ({
                let out = boundary_fold(scheme, init, cell.boundary@.take(i as int), cell.attribute);
                &&& mesh.vertices@ == out.positions
                &&& mesh.attributes@ == out.attributes
                &&& boundary_indices@.len() == out.bidx.len()
                &&& forall|j: int|
                    0 <= j < out.bidx.len() ==> (#[trigger] boundary_indices@[j]) as int
                        == out.bidx[j]
                &&& forall|j: int|
                    0 <= j < boundary_indices@.len() ==> (#[trigger] boundary_indices@[j])
                        < mesh.vertices@.len()
                &&& out.invalid <= i
                &&& stats.invalid_coords == stats_mid.invalid_coords + out.invalid
            }),
        decreases cell.boundary@.len() - i,
    {
        let ghost out_before = boundary_fold(scheme, init, cell.boundary@.take(i as int), cell.attribute);
        let p = cell.boundary[i];
        if crate::quant::position_is_finite(&p) {
            let idx = mesh.add_vertex(p, cell.attribute);
            boundary_indices.push(idx);
        } else {
            stats.invalid_coords = stats.invalid_coords + 1;
        }
        proof {
            assert(cell.boundary@.take(i + 1) =~= cell.boundary@.take(i as int).push(
                cell.boundary@[i as int],
            ));
            lemma_boundary_fold_push(
                scheme,
                init,
                cell.boundary@.take(i as int),
                cell.boundary@[i as int],
                cell.attribute,
            );
        }
        i = i + 1;
    }
    proof {
        assert(cell.boundary@.take(cell.boundary@.len() as int) =~= cell.boundary@);
    }
    let ghost out = boundary_fold(scheme, init, cell.boundary@, cell.attribute);
    if boundary_indices.len() >= 3 {
        let triangles = triangulate_pentagon(center_idx, boundary_indices.as_slice());
        let ghost base = mesh.indices@;
        let n = triangles.len();
        let mut t: usize = 0;
        while t < n
            invariant
                mesh.wf(),
                mesh.scheme == scheme,
                mesh.mode == old(mesh).mode,
                mesh.vertices@ == out.positions,
                mesh.attributes@ == out.attributes,
                t <= n,
                n == triangles@.len(),
                n == boundary_indices@.len(),
                n == out.bidx.len(),
                center_idx < mesh.vertices@.len(),
                forall|j: int|
                    0 <= j < out.bidx.len() ==> (#[trigger] boundary_indices@[j]) as int
                        == out.bidx[j],
                forall|j: int|
                    0 <= j < boundary_indices@.len() ==> (#[trigger] boundary_indices@[j])
                        < mesh.vertices@.len(),
                forall|j: int|
                    0 <= j < triangles@.len() ==> (#[trigger] triangles@[j])@ == seq![
                        center_idx,
                        boundary_indices@[j],
                        boundary_indices@[(j + 1) % boundary_indices@.len() as int],
                    ],
                mesh.indices@.len() == base.len() + 3 * t,
                mesh.indices@.subrange(0, base.len() as int) == base,
                forall|j: int|
                    0 <= j < 3 * t ==> (#[trigger] mesh.indices@[base.len() + j]) as int
                        == fan_indices(center_idx as int, out.bidx)[j],
            decreases n - t,
        {
            let tri = triangles[t];
            proof {
                assert(triangles@[t as int]@ == seq![
                    center_idx,
                    boundary_indices@[t as int],
                    boundary_indices@[(t + 1) % boundary_indices@.len() as int],
                ]);
                assert(tri@[0] == center_idx);
                assert(tri@[1] == boundary_indices@[t as int]);
                assert(tri@[2] == boundary_indices@[(t + 1) % boundary_indices@.len() as int]);
            }
            let ghost before = mesh.indices@;
            mesh.add_triangle(tri);
            proof {
                assert(mesh.indices@.subrange(0, base.len() as int) =~= base);
                let f = fan_indices(center_idx as int, out.bidx);
                assert forall|j: int|
                    0 <= j < 3 * (t + 1) implies (#[trigger] mesh.indices@[base.len() + j]) as int
                        == f[j] by {
                    if j < 3 * t {
                        assert(mesh.indices@[base.len() + j] == before[base.len() + j]);
                    } else {
                        assert(mesh.indices@[base.len() + j] == tri@[j - 3 * t]);
                        assert(f[j] == (if j % 3 == 0 {
                            center_idx as int
                        } else if j % 3 == 1 {
                            out.bidx[j / 3]
                        } else {
                            out.bidx[(j / 3 + 1) % out.bidx.len() as int]
                        }));
                        assert(j / 3 == t as int);
                        assert(j % 3 == j - 3 * t);
                    }
                }
            }
            t = t + 1;
        }
        proof {
            let (m1, inv, ok) = process_cell_spec(old(mesh).scheme, m0, *cell);
            assert(center_idx as int == dedup_index(scheme, m0.vertices, cell.center));
            let f = fan_indices(center_idx as int, out.bidx);
            assert(mesh_model(mesh).indices =~= m0.indices + f) by {
                assert(mesh.indices@.len() == base.len() + 3 * out.bidx.len());
                assert(f.len() == 3 * out.bidx.len());
                assert forall|j: int|
                    0 <= j < mesh.indices@.len() implies #[trigger] mesh_model(mesh).indices[j]
                        == (m0.indices + f)[j] by {
                    if j < base.len() {
                        assert(mesh.indices@.subrange(0, base.len() as int)[j] == mesh.indices@[j]);
                        assert(m0.indices[j] == base[j] as int);
                    } else {
                        assert(mesh.indices@[base.len() + (j - base.len())] as int == f[j
                            - base.len()]);
                    }
                }
            }
            assert(mesh_model(mesh) == m1);
        }
        Ok(())
    } else {
        proof {
            let (m1, inv, ok) = process_cell_spec(old(mesh).scheme, m0, *cell);
            assert(mesh_model(mesh).indices =~= m0.indices);
            assert(mesh_model(mesh) == m1);
        }
        Err(CellError::InsufficientBoundary)
    }
}

/// Builds one mesh from a sequence of cells, processing them in order.
///
/// Recoverable cell errors are counted, never escalated; `cells_processed`
/// grows only for cells processed without error. The result is exactly the
/// fold of the per-cell outcome over the sequence, starting from an empty
/// mesh and all-zero statistics.
pub fn gen_world_geometry(cells: &Vec<CellGeom>, mode: AttributeMode, scheme: QuantScheme) -> (r: (
    Mesh,
    ProcessingStats,
))
    requires
        cells_mode_ok(mode, cells@),
        total_work(cells@) <= usize::MAX,
    ensures
        r.0.wf(),
        r.0.scheme == scheme,
        r.0.mode == mode,
        ({
            let (m, s) = run_fold(scheme, (empty_mesh_model(), zero_stats_model()), cells@);
            &&& mesh_model(&r.0) == m
            &&& stats_model(r.1) == s
        }),
{
    let mut mesh = Mesh::with_config(mode, scheme);
    let mut stats = ProcessingStats::default();
    proof {
        assert(cells@.take(0) =~= Seq::<CellGeom>::empty());
        assert(mesh_model(&mesh).indices =~= empty_mesh_model().indices);
    }
    let mut i: usize = 0;
    while i < cells.len()
        invariant
            mesh.wf(),
            mesh.scheme == scheme,
            mesh.mode == mode,
            i <= cells@.len(),
            cells_mode_ok(mode, cells@),
            total_work(cells@) <= usize::MAX,
            stats.pentagon_count + stats.hexagon_count <= i,
            stats.cells_processed <= i,
            stats.invalid_coords <= total_work(cells@.take(i as int)),
            ({
                let (m, s) = run_fold(
                    scheme,
                    (empty_mesh_model(), zero_stats_model()),
                    cells@.take(i as int),
                );
                &&& mesh_model(&mesh) == m
                &&& stats_model(stats) == s
            }),
        decreases cells@.len() - i,
    {
        proof {
            assert(cells@.take(i + 1) =~= cells@.take(i as int).push(cells@[i as int]));
            lemma_total_work_push(cells@.take(i as int), cells@[i as int]);
            lemma_total_work_take_le(cells@, i + 1);
        }
        let r = process_single_cell(&mut mesh, &mut stats, &cells[i]);
        if r.is_ok() {
            stats.cells_processed = stats.cells_processed + 1;
        }
        proof {
            lemma_run_fold_push(
                scheme,
                (empty_mesh_model(), zero_stats_model()),
                cells@.take(i as int),
                cells@[i as int],
            );
            let c = cells@[i as int];
            if position_finite(c.center) {
                let (m_prev, s_prev) = run_fold(
                    scheme,
                    (empty_mesh_model(), zero_stats_model()),
                    cells@.take(i as int),
                );
                let init_c = BoundaryOutcome {
                    positions: dedup_positions(scheme, m_prev.vertices, c.center),
                    attributes: dedup_attributes(
                        scheme,
                        m_prev.vertices,
                        m_prev.attributes,
                        c.center,
                        c.attribute,
                    ),
                    bidx: Seq::<int>::empty(),
                    invalid: 0nat,
                };
                lemma_boundary_fold_invalid(scheme, init_c, c.boundary@, c.attribute);
            }
        }
        i = i + 1;
    }
    proof {
        assert(cells@.take(cells@.len() as int) =~= cells@);
    }
    (mesh, stats)
}

} // verus!
