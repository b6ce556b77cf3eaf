use h3_world_geometry_generator::{
    cell_geometry, gen_world_chunks, gen_world_geometry, plan_chunks, process_single_cell,
    Attribute, AttributeMode, CellError, CellGeom, ChunkCells, Mesh, Position, ProcessingStats,
    QuantScheme,
};

const SPHERE_RADIUS: f64 = 10.0;

fn project(lat_deg: f64, lng_deg: f64, radius: f64) -> Position {
    let lat = lat_deg.to_radians();
    let lng = lng_deg.to_radians();
    let x = (radius * lat.cos() * lng.cos()) as f32;
    let y = (radius * lat.sin()) as f32;
    let z = (radius * lat.cos() * lng.sin()) as f32;
    Position { x: x.to_bits(), y: y.to_bits(), z: z.to_bits() }
}

fn placeholder() -> Attribute {
    Attribute::Uv(1.0f32.to_bits(), 1.0f32.to_bits())
}

/// Builds one cell's geometry from the grid index, projecting its center and
/// boundary onto the sphere.
fn build_cell(id: u64) -> CellGeom {
    let cell = h3o::CellIndex::try_from(id).unwrap();
    let center = h3o::LatLng::from(cell);
    let center_pos = project(center.lat(), center.lng(), SPHERE_RADIUS);
    let mut boundary = Vec::new();
    for vid in h3_world_geometry_generator::cell_boundary_ids(id) {
        let vertex = h3o::VertexIndex::try_from(vid).unwrap();
        let ll = h3o::LatLng::from(vertex);
        boundary.push(project(ll.lat(), ll.lng(), SPHERE_RADIUS));
    }
    cell_geometry(id, center_pos, boundary, placeholder())
}

#[test]
fn non_finite_center_contributes_nothing_and_counts_once() {
    let mut mesh = Mesh::new();
    let mut stats = ProcessingStats::default();
    let cell = CellGeom {
        pentagon: false,
        center: Position { x: f32::NAN.to_bits(), y: 0, z: 0 },
        boundary: vec![
            project(0.0, 0.0, SPHERE_RADIUS),
            project(0.0, 1.0, SPHERE_RADIUS),
            project(1.0, 0.0, SPHERE_RADIUS),
        ],
        attribute: placeholder(),
    };
    let r = process_single_cell(&mut mesh, &mut stats, &cell);
    assert_eq!(r, Err(CellError::InvalidCoordinates));
    assert_eq!(mesh.stats().vertex_count, 0);
    assert_eq!(mesh.stats().triangle_count, 0);
    assert_eq!(stats.invalid_coords, 1);
    assert_eq!(stats.hexagon_count, 1);
    assert_eq!(stats.pentagon_count, 0);
}

#[test]
fn non_finite_boundary_vertices_are_dropped_individually() {
    let mut mesh = Mesh::new();
    let mut stats = ProcessingStats::default();
    let bad = Position { x: f32::INFINITY.to_bits(), y: 0, z: 0 };
    let cell = CellGeom {
        pentagon: false,
        center: project(10.0, 10.0, SPHERE_RADIUS),
        boundary: vec![
            project(0.0, 0.0, SPHERE_RADIUS),
            bad,
            project(0.0, 1.0, SPHERE_RADIUS),
            bad,
            project(1.0, 0.0, SPHERE_RADIUS),
        ],
        attribute: placeholder(),
    };
    let r = process_single_cell(&mut mesh, &mut stats, &cell);
    assert_eq!(r, Ok(()));
    // center plus the three valid boundary vertices, fan of three triangles
    assert_eq!(mesh.stats().vertex_count, 4);
    assert_eq!(mesh.stats().triangle_count, 3);
    assert_eq!(stats.invalid_coords, 2);
}

#[test]
fn too_few_valid_boundary_vertices_leave_no_triangles() {
    let mut mesh = Mesh::new();
    let mut stats = ProcessingStats::default();
    let bad = Position { x: f32::NAN.to_bits(), y: 0, z: 0 };
    let cell = CellGeom {
        pentagon: true,
        center: project(10.0, 10.0, SPHERE_RADIUS),
        boundary: vec![
            project(0.0, 0.0, SPHERE_RADIUS),
            project(0.0, 1.0, SPHERE_RADIUS),
            bad,
            bad,
            bad,
        ],
        attribute: placeholder(),
    };
    let r = process_single_cell(&mut mesh, &mut stats, &cell);
    assert_eq!(r, Err(CellError::InsufficientBoundary));
    // the center and valid boundary vertices already registered remain
    assert_eq!(mesh.stats().vertex_count, 3);
    assert_eq!(mesh.stats().triangle_count, 0);
    assert_eq!(stats.invalid_coords, 3);
    assert_eq!(stats.pentagon_count, 1);
}

#[test]
fn base_cells_make_pentagon_and_hexagon_fans() {
    let mut pentagons = 0;
    let mut hexagons = 0;
    for cell in h3o::CellIndex::base_cells() {
        let geom = build_cell(u64::from(cell));
        let mut mesh = Mesh::new();
        let mut stats = ProcessingStats::default();
        let r = process_single_cell(&mut mesh, &mut stats, &geom);
        assert_eq!(r, Ok(()));
        let ms = mesh.stats();
        if geom.pentagon {
            pentagons += 1;
            assert_eq!(ms.vertex_count, 6);
            assert_eq!(ms.triangle_count, 5);
        } else {
            hexagons += 1;
            assert_eq!(ms.vertex_count, 7);
            assert_eq!(ms.triangle_count, 6);
        }
    }
    assert_eq!(pentagons, 12);
    assert_eq!(hexagons, 110);
}

#[test]
fn one_mesh_over_all_base_cells_shares_boundary_vertices() {
    let ids = h3_world_geometry_generator::cells_at_resolution(0).unwrap();
    assert_eq!(ids.len(), 122);
    assert!(h3_world_geometry_generator::cells_at_resolution(16).is_err());
    let cells: Vec<CellGeom> = ids.iter().map(|&id| build_cell(id)).collect();
    let (mesh, stats) = gen_world_geometry(&cells, AttributeMode::Uv, QuantScheme::Fine);
    assert_eq!(stats.pentagon_count, 12);
    assert_eq!(stats.hexagon_count, 110);
    assert_eq!(stats.invalid_coords, 0);
    assert_eq!(stats.cells_processed, 122);
    let ms = mesh.stats();
    // 122 centers plus the 240 distinct vertexes of the base tessellation
    assert_eq!(ms.vertex_count, 362);
    // 110 hexagon fans of 6 plus 12 pentagon fans of 5
    assert_eq!(ms.triangle_count, 720);
}

#[test]
fn chunked_run_exports_one_file_pair_per_chunk() {
    let plan = plan_chunks(1, 0).unwrap();
    let chunks: Vec<ChunkCells> = plan
        .iter()
        .map(|chunk| ChunkCells {
            cells: chunk.world_cells.iter().map(|&id| build_cell(id)).collect(),
        })
        .collect();
    let (outs, global) =
        gen_world_chunks(&chunks, AttributeMode::Uv, QuantScheme::Fine, "world").unwrap();
    assert_eq!(outs.len(), 122);
    assert_eq!(outs[0].gltf_name, "world-chunk1.gltf");
    assert_eq!(outs[0].bin_name, "world-chunk1.bin");
    assert_eq!(outs[121].gltf_name, "world-chunk122.gltf");
    assert_eq!(global.cells_processed, 842);
    assert_eq!(global.pentagon_count, 12);
    assert_eq!(global.hexagon_count, 830);
    assert_eq!(global.invalid_coords, 0);
    for out in &outs {
        let ms = out.mesh.stats();
        // binary size follows the layout formula for every chunk
        assert_eq!(out.bin.len(), ms.vertex_count * 12 + ms.vertex_count * 8 + ms.triangle_count * 3 * 4);
        // the descriptor parses and references the chunk's own binary file
        let v: serde_json::Value = serde_json::from_str(&out.gltf).unwrap();
        assert_eq!(v["buffers"][0]["byteLength"], out.bin.len());
        assert_eq!(v["buffers"][0]["uri"].as_str().unwrap(), out.bin_name);
    }
}
