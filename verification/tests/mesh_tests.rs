use h3_world_geometry_generator::{
    triangulate_pentagon, Attribute, AttributeMode, Mesh, Position, QuantScheme,
};

fn pos(x: f32, y: f32, z: f32) -> Position {
    Position { x: x.to_bits(), y: y.to_bits(), z: z.to_bits() }
}

fn uv(u: f32, v: f32) -> Attribute {
    Attribute::Uv(u.to_bits(), v.to_bits())
}

#[test]
fn add_vertex_is_idempotent_per_position() {
    let mut mesh = Mesh::new();
    let p = pos(1.0, 2.0, 3.0);
    let first = mesh.add_vertex(p, uv(0.0, 0.0));
    let second = mesh.add_vertex(p, uv(0.5, 0.5));
    assert_eq!(first, second);
    assert_eq!(mesh.stats().vertex_count, 1);
}

#[test]
fn colliding_vertex_keeps_the_first_attribute() {
    let mut mesh = Mesh::new();
    let p = pos(1.0, 2.0, 3.0);
    mesh.add_vertex(p, uv(0.25, 0.75));
    mesh.add_vertex(p, uv(0.5, 0.5));
    assert_eq!(mesh.attributes.len(), 1);
    assert_eq!(mesh.attributes[0], uv(0.25, 0.75));
}

#[test]
fn positions_apart_by_more_than_epsilon_get_distinct_indices() {
    let mut mesh = Mesh::new();
    // Adjacent single-precision values near 1.0 differ by about 1.2e-7,
    // far more than the fine scheme's 1e-9 granularity.
    let a = 1.0f32;
    let b = f32::from_bits(1.0f32.to_bits() + 1);
    let ia = mesh.add_vertex(pos(a, 0.0, 0.0), uv(0.0, 0.0));
    let ib = mesh.add_vertex(pos(b, 0.0, 0.0), uv(0.0, 0.0));
    assert_ne!(ia, ib);
    assert_eq!(mesh.stats().vertex_count, 2);
}

#[test]
fn positions_within_epsilon_collapse_to_one_vertex() {
    // Under the coarse scheme (1e-6), adjacent values near 0.1 are about
    // 7.5e-9 apart and share a key.
    let mut mesh = Mesh::with_config(AttributeMode::Uv, QuantScheme::Coarse);
    let a = 0.1f32;
    let b = f32::from_bits(0.1f32.to_bits() + 1);
    let ia = mesh.add_vertex(pos(a, 0.0, 0.0), uv(0.0, 0.0));
    let ib = mesh.add_vertex(pos(b, 0.0, 0.0), uv(0.0, 0.0));
    assert_eq!(ia, ib);
    assert_eq!(mesh.stats().vertex_count, 1);

    // Under the fine scheme (1e-9) tiny values collapse to key zero.
    let mut fine = Mesh::new();
    let ia = fine.add_vertex(pos(1.0e-12, 0.0, 0.0), uv(0.0, 0.0));
    let ib = fine.add_vertex(pos(2.0e-12, 0.0, 0.0), uv(0.0, 0.0));
    assert_eq!(ia, ib);
    assert_eq!(fine.stats().vertex_count, 1);
}

#[test]
fn fan_triangulation_produces_n_wrapping_triangles() {
    for n in 3..=6usize {
        let boundary: Vec<usize> = (1..=n).collect();
        let triangles = triangulate_pentagon(10, &boundary);
        assert_eq!(triangles.len(), n);
        for i in 0..n {
            assert_eq!(triangles[i][0], 10);
            assert_eq!(triangles[i][1], boundary[i]);
            assert_eq!(triangles[i][2], boundary[(i + 1) % n]);
        }
        // the last triangle wraps around to the first boundary vertex
        assert_eq!(triangles[n - 1][2], boundary[0]);
    }
}

#[test]
fn stats_counts_whole_triangles() {
    let mut mesh = Mesh::new();
    let a = mesh.add_vertex(pos(0.0, 0.0, 0.0), uv(0.0, 0.0));
    let b = mesh.add_vertex(pos(1.0, 0.0, 0.0), uv(0.0, 0.0));
    let c = mesh.add_vertex(pos(0.0, 1.0, 0.0), uv(0.0, 0.0));
    let d = mesh.add_vertex(pos(0.0, 0.0, 1.0), uv(0.0, 0.0));
    mesh.add_triangle([a, b, c]);
    mesh.add_triangle([a, c, d]);
    let stats = mesh.stats();
    assert_eq!(stats.vertex_count, 4);
    assert_eq!(stats.triangle_count, 2);
    assert_eq!(mesh.indices, vec![a, b, c, a, c, d]);
}
