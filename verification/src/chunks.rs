//! Chunked world generation: one mesh and one exported file pair per chunk.
//!
//! Each chunk owns an independent mesh and statistics value; chunk results
//! are accumulated into a global total. File names are deterministic:
//! `<prefix>-chunk<N>.gltf` / `.bin`, numbered from one in plan order.

use crate::cell::{
    cells_mode_ok, empty_mesh_model, gen_world_geometry, lemma_run_fold_bounds,
    lemma_total_work_ge_len, mesh_model, run_fold, stats_model, total_work, CellGeom, MeshModel,
    ProcessingStats, StatsModel, zero_stats_model,
};
use crate::export::{
    binary_data, dec_of, export_gltf, first_too_large, json_safe, lemma_dec_of_json_safe,
    lemma_json_safe_concat, push_decimal, scene_json, ExportError,
};
use crate::h3::is_pentagon_cell;
use crate::mesh::{Attribute, AttributeMode, Mesh};
use crate::quant::{Position, QuantScheme};
use vstd::prelude::*;
use vstd::string::StringExecFns;

verus! {

/// Builds one cell's geometry, classifying the cell through the grid index.
pub fn cell_geometry(cell: u64, center: Position, boundary: Vec<Position>, attribute: Attribute) -> (g:
    CellGeom)
    ensures
        g.pentagon == is_pentagon_cell(cell),
        g.center == center,
        g.boundary@ == boundary@,
        g.attribute == attribute,
{
    let pentagon = crate::h3::cell_is_pentagon(cell);
    CellGeom { pentagon, center, boundary, attribute }
}

/// The cells of one chunk, in processing order.
pub struct ChunkCells {
    /// The chunk's world-resolution cells.
    pub cells: Vec<CellGeom>,
}

/// One exported chunk: its file names, the descriptor text, the binary
/// buffer, the mesh they were produced from, and the chunk's statistics.
pub struct ChunkExport {
    /// Name of the scene descriptor file.
    pub gltf_name: String,
    /// Name of the binary buffer file, referenced by the descriptor.
    pub bin_name: String,
    /// The JSON scene descriptor.
    pub gltf: String,
    /// The binary buffer.
    pub bin: Vec<u8>,
    /// The chunk's mesh.
    pub mesh: Mesh,
    /// The chunk's statistics.
    pub stats: ProcessingStats,
}

/// The file stem of chunk number `n`: `<prefix>-chunk<n>`.
pub fn chunk_file_stem(prefix: &str, number: u128) -> (r: String)
    ensures
        r@ == prefix@ + "-chunk"@ + dec_of(number as nat),
{
    let mut s = prefix.to_owned();
    s.append("-chunk");
    push_decimal(&mut s, number);
    s
}

/// The descriptor file name of chunk number `n`.
pub open spec fn gltf_name_spec(prefix: Seq<char>, number: nat) -> Seq<char> {
    prefix + "-chunk"@ + dec_of(number) + ".gltf"@
}

/// The binary file name of chunk number `n`.
pub open spec fn bin_name_spec(prefix: Seq<char>, number: nat) -> Seq<char> {
    prefix + "-chunk"@ + dec_of(number) + ".bin"@
}

/// The mesh and statistics models a chunk's cells produce.
pub open spec fn chunk_model(scheme: QuantScheme, cells: Seq<CellGeom>) -> (MeshModel, StatsModel) {
    run_fold(scheme, (empty_mesh_model(), zero_stats_model()), cells)
}

/// Whether every triangle index of the chunk's mesh fits the binary
/// format's 32-bit index type.
pub open spec fn chunk_indices_fit(scheme: QuantScheme, cells: Seq<CellGeom>) -> bool {
    let m = chunk_model(scheme, cells).0;
    forall|j: int| 0 <= j < m.indices.len() ==> (#[trigger] m.indices[j]) <= 0xffffffff
}

/// Index of the first entry too large for 32 bits (`s.len()` if all fit).
pub open spec fn first_oversize(s: Seq<int>) -> int
    decreases s.len(),
{
    if s.len() == 0 {
        0
    } else if s[0] > 0xffffffff {
        0
    } else {
        1 + first_oversize(s.drop_first())
    }
}

/// `first_oversize` on a cast index sequence agrees with the serializer's
/// `first_too_large` on the sequence it was cast from.
proof fn lemma_first_oversize_map(s: Seq<usize>)
    ensures
        first_oversize(s.map_values(|x: usize| x as int)) == first_too_large(s),
    decreases s.len(),
{
    let f = |x: usize| x as int;
    if s.len() == 0 {
    } else {
        assert(s.map_values(f)[0] == f(s[0]));
        assert(s.map_values(f).drop_first() =~= s.drop_first().map_values(f));
        lemma_first_oversize_map(s.drop_first());
    }
}

/// Componentwise sum of two statistics models.
pub open spec fn stats_add(a: StatsModel, b: StatsModel) -> StatsModel {
    StatsModel {
        pentagons: a.pentagons + b.pentagons,
        hexagons: a.hexagons + b.hexagons,
        invalid: a.invalid + b.invalid,
        processed: a.processed + b.processed,
    }
}

/// Global statistics: the sum of every chunk's statistics, in order.
pub open spec fn chunks_stats_fold(
    scheme: QuantScheme,
    acc: StatsModel,
    chunks: Seq<ChunkCells>,
) -> StatsModel
    decreases chunks.len(),
{
    if chunks.len() == 0 {
        acc
    } else {
        chunks_stats_fold(
            scheme,
            stats_add(acc, chunk_model(scheme, chunks[0].cells@).1),
            chunks.drop_first(),
        )
    }
}

/// Folding one more chunk at the back adds its statistics.
proof fn lemma_chunks_stats_fold_push(scheme: QuantScheme, acc: StatsModel, chunks: Seq<ChunkCells>, c: ChunkCells)
    ensures
        chunks_stats_fold(scheme, acc, chunks.push(c)) == stats_add(
            chunks_stats_fold(scheme, acc, chunks),
            chunk_model(scheme, c.cells@).1,
        ),
    decreases chunks.len(),
{
    if chunks.len() == 0 {
        assert(chunks.push(c)[0] == c);
        assert(chunks.push(c).drop_first() =~= Seq::<ChunkCells>::empty());
        assert(chunks_stats_fold(scheme, acc, chunks.push(c)) == chunks_stats_fold(
            scheme,
            stats_add(acc, chunk_model(scheme, c.cells@).1),
            chunks.push(c).drop_first(),
        ));
    } else {
        assert(chunks.push(c)[0] == chunks[0]);
        assert(chunks.push(c).drop_first() =~= chunks.drop_first().push(c));
        assert(chunks_stats_fold(scheme, acc, chunks.push(c)) == chunks_stats_fold(
            scheme,
            stats_add(acc, chunk_model(scheme, chunks[0].cells@).1),
            chunks.drop_first().push(c),
        ));
        lemma_chunks_stats_fold_push(
            scheme,
            stats_add(acc, chunk_model(scheme, chunks[0].cells@).1),
            chunks.drop_first(),
            c,
        );
    }
}

/// Total work over all chunks.
pub open spec fn chunks_work(chunks: Seq<ChunkCells>) -> nat
    decreases chunks.len(),
{
    if chunks.len() == 0 {
        0nat
    } else {
        total_work(chunks[0].cells@) + chunks_work(chunks.drop_first())
    }
}

/// Appending a chunk adds its work.
proof fn lemma_chunks_work_push(chunks: Seq<ChunkCells>, c: ChunkCells)
    ensures
        chunks_work(chunks.push(c)) == chunks_work(chunks) + total_work(c.cells@),
    decreases chunks.len(),
{
    assert(chunks_work(chunks.push(c)) == total_work(chunks.push(c)[0].cells@) + chunks_work(
        chunks.push(c).drop_first(),
    ));
    if chunks.len() == 0 {
        assert(chunks.push(c)[0] == c);
        assert(chunks.push(c).drop_first() =~= Seq::<ChunkCells>::empty());
        assert(chunks_work(chunks.push(c).drop_first()) == 0);
    } else {
        assert(chunks.push(c)[0] == chunks[0]);
        assert(chunks.push(c).drop_first() =~= chunks.drop_first().push(c));
        lemma_chunks_work_push(chunks.drop_first(), c);
        assert(chunks_work(chunks) == total_work(chunks[0].cells@) + chunks_work(
            chunks.drop_first(),
        ));
    }
}

/// A prefix never has more work than the whole sequence.
proof fn lemma_chunks_work_take_le(chunks: Seq<ChunkCells>, j: int)
    requires
        0 <= j <= chunks.len(),
    ensures
        chunks_work(chunks.take(j)) <= chunks_work(chunks),
    decreases chunks.len() - j,
{
    if j == chunks.len() {
        assert(chunks.take(j) =~= chunks);
    } else {
        assert(chunks.take(j + 1) =~= chunks.take(j).push(chunks[j]));
        lemma_chunks_work_push(chunks.take(j), chunks[j]);
        lemma_chunks_work_take_le(chunks, j + 1);
    }
}

/// Whether every chunk's mesh has only indices that fit 32 bits.
pub open spec fn all_chunks_fit(scheme: QuantScheme, chunks: Seq<ChunkCells>) -> bool {
    forall|i: int| 0 <= i < chunks.len() ==> chunk_indices_fit(scheme, (#[trigger] chunks[i]).cells@)
}

/// Index of the first chunk whose mesh has an index too large for 32 bits
/// (`chunks.len()` if all fit).
pub open spec fn first_unfit_chunk(scheme: QuantScheme, chunks: Seq<ChunkCells>) -> int
    decreases chunks.len(),
{
    if chunks.len() == 0 {
        0
    } else if !chunk_indices_fit(scheme, chunks[0].cells@) {
        0
    } else {
        1 + first_unfit_chunk(scheme, chunks.drop_first())
    }
}

/// A non-fitting chunk preceded only by fitting ones is the first one.
proof fn lemma_first_unfit_chunk_is(scheme: QuantScheme, chunks: Seq<ChunkCells>, i: int)
    requires
        0 <= i < chunks.len(),
        !chunk_indices_fit(scheme, chunks[i].cells@),
        forall|j: int| 0 <= j < i ==> chunk_indices_fit(scheme, (#[trigger] chunks[j]).cells@),
    ensures
        first_unfit_chunk(scheme, chunks) == i,
    decreases i,
{
    if i == 0 {
    } else {
        assert(chunk_indices_fit(scheme, chunks[0].cells@));
        assert(chunks.drop_first()[i - 1] == chunks[i]);
        assert forall|j: int| 0 <= j < i - 1 implies chunk_indices_fit(
            scheme,
            (#[trigger] chunks.drop_first()[j]).cells@,
        ) by {
            assert(chunks.drop_first()[j] == chunks[j + 1]);
        }
        lemma_first_unfit_chunk_is(scheme, chunks.drop_first(), i - 1);
    }
}

/// The error payload of a chunk whose indices do not fit: the first
/// offending index value of its mesh.
pub open spec fn chunk_oversize_index(scheme: QuantScheme, cells: Seq<CellGeom>) -> int {
    let m = chunk_model(scheme, cells).0;
    m.indices[first_oversize(m.indices)]
}

/// Whether one exported chunk is exactly what chunk number `i+1` of the run
/// should contain.
pub open spec fn chunk_export_ok(
    scheme: QuantScheme,
    mode: AttributeMode,
    prefix: Seq<char>,
    i: int,
    chunk: ChunkCells,
    out: ChunkExport,
) -> bool {
    let (m, st) = chunk_model(scheme, chunk.cells@);
    &&& out.mesh.wf()
    &&& out.mesh.scheme == scheme
    &&& out.mesh.mode == mode
    &&& mesh_model(&out.mesh) == m
    &&& stats_model(out.stats) == st
    &&& out.gltf_name@ == gltf_name_spec(prefix, (i + 1) as nat)
    &&& out.bin_name@ == bin_name_spec(prefix, (i + 1) as nat)
    &&& out.bin@ == binary_data(&out.mesh)
    &&& out.gltf@ == scene_json(
        m.vertices.len(),
        m.indices.len(),
        mode,
        bin_name_spec(prefix, (i + 1) as nat),
    )
}

/// Processes one chunk's cells into a mesh and exports it under chunk
/// number `number`. Fails exactly when some triangle index of the chunk's
/// mesh exceeds the 32-bit range.
pub fn process_chunk(
    cells: &Vec<CellGeom>,
    mode: AttributeMode,
    scheme: QuantScheme,
    prefix: &str,
    number: u128,
) -> (r: Result<ChunkExport, ExportError>)
    requires
        cells_mode_ok(mode, cells@),
        total_work(cells@) <= usize::MAX,
        json_safe(prefix@),
    ensures
        r is Ok <==> chunk_indices_fit(scheme, cells@),
        r matches Ok(out) ==> {
            let (m, st) = chunk_model(scheme, cells@);
            &&& out.mesh.wf()
            &&& out.mesh.scheme == scheme
            &&& out.mesh.mode == mode
            &&& mesh_model(&out.mesh) == m
            &&& stats_model(out.stats) == st
            &&& out.gltf_name@ == gltf_name_spec(prefix@, number as nat)
            &&& out.bin_name@ == bin_name_spec(prefix@, number as nat)
            &&& out.bin@ == binary_data(&out.mesh)
            &&& out.gltf@ == scene_json(
                m.vertices.len(),
                m.indices.len(),
                mode,
                bin_name_spec(prefix@, number as nat),
            )
        },
        r is Err ==> r == Err::<ChunkExport, ExportError>(
            (ExportError::IndexTooLarge {
                index: chunk_oversize_index(scheme, cells@) as usize,
            }),
        ) && chunk_oversize_index(scheme, cells@) > 0xffffffff,
{
    let (mesh, stats) = gen_world_geometry(cells, mode, scheme);
    let stem = chunk_file_stem(prefix, number);
    let mut bin_name = stem.clone();
    bin_name.append(".bin");
    let mut gltf_name = stem;
    gltf_name.append(".gltf");
    proof {
        reveal_strlit("-chunk");
        reveal_strlit(".bin");
        reveal_strlit(".gltf");
        assert(json_safe("-chunk"@));
        assert(json_safe(".bin"@));
        lemma_dec_of_json_safe(number as nat);
        lemma_json_safe_concat(prefix@, "-chunk"@);
        lemma_json_safe_concat(prefix@ + "-chunk"@, dec_of(number as nat));
        lemma_json_safe_concat(prefix@ + "-chunk"@ + dec_of(number as nat), ".bin"@);
    }
    match export_gltf(&mesh, bin_name.as_str()) {
        Ok((gltf, bin)) => {
            proof {
                let m = chunk_model(scheme, cells@).0;
                assert(m.indices =~= mesh.indices@.map_values(|x: usize| x as int));
                assert forall|j: int| 0 <= j < m.indices.len() implies (#[trigger] m.indices[j])
                    <= 0xffffffff by {
                    assert(m.indices[j] == mesh.indices@[j] as int);
                }
            }
            Ok(ChunkExport { gltf_name, bin_name, gltf, bin, mesh, stats })
        },
        Err(e) => {
            proof {
                let m = chunk_model(scheme, cells@).0;
                assert(m.indices =~= mesh.indices@.map_values(|x: usize| x as int));
                let w = choose|i: int|
                    0 <= i < mesh.indices@.len() && !((#[trigger] mesh.indices@[i]) <= 0xffffffff);
                assert(mesh.indices@[w] > 0xffffffff);
                crate::export::lemma_first_too_large_props(mesh.indices@);
                lemma_first_oversize_map(mesh.indices@);
                let k = first_too_large(mesh.indices@);
                assert(m.indices[k] == mesh.indices@[k] as int);
                assert(!chunk_indices_fit(scheme, cells@)) by {
                    assert(m.indices[w] == mesh.indices@[w] as int);
                }
            }
            Err(e)
        },
    }
}

/// Generates the whole chunked world: one mesh and one exported file pair
/// per chunk, numbered from one in plan order, plus the global statistics,
/// the componentwise sum of every chunk's statistics. A single chunk whose
/// mesh overflows the 32-bit index range aborts the run with that chunk's
/// error.
pub fn gen_world_chunks(
    chunks: &Vec<ChunkCells>,
    mode: AttributeMode,
    scheme: QuantScheme,
    prefix: &str,
) -> (r: Result<(Vec<ChunkExport>, ProcessingStats), ExportError>)
    requires
        forall|i: int|
            0 <= i < chunks@.len() ==> cells_mode_ok(mode, (#[trigger] chunks@[i]).cells@),
        chunks_work(chunks@) <= usize::MAX,
        json_safe(prefix@),
    ensures
        r is Ok <==> all_chunks_fit(scheme, chunks@),
        r matches Ok(out) ==> out.0@.len() == chunks@.len() && (forall|i: int|
            0 <= i < chunks@.len() ==> chunk_export_ok(
                scheme,
                mode,
                prefix@,
                i,
                chunks@[i],
                #[trigger] out.0@[i],
            )) && stats_model(out.1) == chunks_stats_fold(scheme, zero_stats_model(), chunks@),
        r is Err ==> r == Err::<(Vec<ChunkExport>, ProcessingStats), ExportError>(
            (ExportError::IndexTooLarge {
                index: chunk_oversize_index(
                    scheme,
                    chunks@[first_unfit_chunk(scheme, chunks@)].cells@,
                ) as usize,
            }),
        ),
{
    let mut outs: Vec<ChunkExport> = Vec::new();
    let mut global = ProcessingStats::default();
    let mut i: usize = 0;
    proof {
        assert(chunks@.take(0) =~= Seq::<ChunkCells>::empty());
    }
    while i < chunks.len()
        invariant
            i <= chunks@.len(),
            forall|j: int|
                0 <= j < chunks@.len() ==> cells_mode_ok(mode, (#[trigger] chunks@[j]).cells@),
            chunks_work(chunks@) <= usize::MAX,
            json_safe(prefix@),
            outs@.len() == i,
            forall|j: int|
                0 <= j < i ==> chunk_export_ok(
                    scheme,
                    mode,
                    prefix@,
                    j,
                    chunks@[j],
                    #[trigger] outs@[j],
                ),
            forall|j: int| 0 <= j < i ==> chunk_indices_fit(scheme, (#[trigger] chunks@[j]).cells@),
            stats_model(global) == chunks_stats_fold(
                scheme,
                zero_stats_model(),
                chunks@.take(i as int),
            ),
            global.pentagon_count <= chunks_work(chunks@.take(i as int)),
            global.hexagon_count <= chunks_work(chunks@.take(i as int)),
            global.invalid_coords <= chunks_work(chunks@.take(i as int)),
            global.cells_processed <= chunks_work(chunks@.take(i as int)),
        decreases chunks@.len() - i,
    {
        proof {
            assert(chunks@.take(i + 1) =~= chunks@.take(i as int).push(chunks@[i as int]));
            lemma_chunks_work_push(chunks@.take(i as int), chunks@[i as int]);
            lemma_chunks_work_take_le(chunks@, i + 1);
            lemma_total_work_ge_len(chunks@[i as int].cells@);
            lemma_run_fold_bounds(
                scheme,
                (empty_mesh_model(), zero_stats_model()),
                chunks@[i as int].cells@,
            );
        }
        let number: u128 = (i as u128) + 1;
        match process_chunk(&chunks[i].cells, mode, scheme, prefix, number) {
            Ok(out) => {
                global.accumulate(&out.stats);
                outs.push(out);
                proof {
                    lemma_chunks_stats_fold_push(
                        scheme,
                        zero_stats_model(),
                        chunks@.take(i as int),
                        chunks@[i as int],
                    );
                }
            },
            Err(e) => {
                proof {
                    lemma_first_unfit_chunk_is(scheme, chunks@, i as int);
                }
                return Err(e);
            },
        }
        i = i + 1;
    }
    proof {
        assert(chunks@.take(chunks@.len() as int) =~= chunks@);
    }
    Ok((outs, global))
}

} // verus!
