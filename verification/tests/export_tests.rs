use h3_world_geometry_generator::{
    export_gltf, write_binary_data, Attribute, AttributeMode, Mesh, Position, QuantScheme,
};

fn pos(x: f32, y: f32, z: f32) -> Position {
    Position { x: x.to_bits(), y: y.to_bits(), z: z.to_bits() }
}

fn sample_uv_mesh() -> Mesh {
    let mut mesh = Mesh::new();
    let a = mesh.add_vertex(pos(1.0, 2.0, 3.0), Attribute::Uv(0.5f32.to_bits(), 0.25f32.to_bits()));
    let b = mesh.add_vertex(pos(4.0, 5.0, 6.0), Attribute::Uv(0.75f32.to_bits(), 1.0f32.to_bits()));
    let c = mesh.add_vertex(pos(7.0, 8.0, 9.0), Attribute::Uv(0.0f32.to_bits(), 0.0f32.to_bits()));
    mesh.add_triangle([a, b, c]);
    mesh
}

fn sample_color_mesh() -> Mesh {
    let mut mesh = Mesh::with_config(AttributeMode::Color, QuantScheme::Fine);
    let white = Attribute::Color(1.0f32.to_bits(), 1.0f32.to_bits(), 1.0f32.to_bits());
    let a = mesh.add_vertex(pos(1.0, 2.0, 3.0), white);
    let b = mesh.add_vertex(pos(4.0, 5.0, 6.0), white);
    let c = mesh.add_vertex(pos(7.0, 8.0, 9.0), white);
    mesh.add_triangle([a, b, c]);
    mesh
}

#[test]
fn binary_length_matches_the_formula_uv() {
    let mesh = sample_uv_mesh();
    let bytes = write_binary_data(&mesh).unwrap();
    let stats = mesh.stats();
    // vertexCount*12 + vertexCount*8 + triangleCount*3*4
    assert_eq!(bytes.len(), stats.vertex_count * 12 + stats.vertex_count * 8 + stats.triangle_count * 3 * 4);
    assert_eq!(bytes.len(), 3 * 12 + 3 * 8 + 1 * 12);
}

#[test]
fn binary_length_matches_the_formula_color() {
    let mesh = sample_color_mesh();
    let bytes = write_binary_data(&mesh).unwrap();
    let stats = mesh.stats();
    assert_eq!(bytes.len(), stats.vertex_count * 12 + stats.vertex_count * 12 + stats.triangle_count * 3 * 4);
    assert_eq!(bytes.len(), 3 * 12 + 3 * 12 + 1 * 12);
}

#[test]
fn binary_layout_is_little_endian_positions_attributes_indices() {
    let mesh = sample_uv_mesh();
    let bytes = write_binary_data(&mesh).unwrap();
    // positions first, as little-endian 32-bit floats
    assert_eq!(&bytes[0..4], &1.0f32.to_le_bytes());
    assert_eq!(&bytes[4..8], &2.0f32.to_le_bytes());
    assert_eq!(&bytes[8..12], &3.0f32.to_le_bytes());
    assert_eq!(&bytes[12..16], &4.0f32.to_le_bytes());
    // attribute blocks follow the whole position run
    assert_eq!(&bytes[36..40], &0.5f32.to_le_bytes());
    assert_eq!(&bytes[40..44], &0.25f32.to_le_bytes());
    // indices last, as little-endian 32-bit integers
    assert_eq!(&bytes[60..64], &0u32.to_le_bytes());
    assert_eq!(&bytes[64..68], &1u32.to_le_bytes());
    assert_eq!(&bytes[68..72], &2u32.to_le_bytes());
}

#[test]
fn descriptor_references_three_contiguous_views_uv() {
    let mesh = sample_uv_mesh();
    let (gltf, bin) = export_gltf(&mesh, "model.bin").unwrap();
    let v: serde_json::Value = serde_json::from_str(&gltf).unwrap();
    assert_eq!(v["asset"]["version"], "2.0");
    assert_eq!(v["scene"], 0);
    assert_eq!(v["scenes"][0]["nodes"][0], 0);
    assert_eq!(v["nodes"][0]["mesh"], 0);
    let prim = &v["meshes"][0]["primitives"][0];
    assert_eq!(prim["attributes"]["POSITION"], 0);
    assert_eq!(prim["attributes"]["TEXCOORD_0"], 1);
    assert_eq!(prim["indices"], 2);
    assert_eq!(prim["mode"], 4);
    assert_eq!(v["accessors"][0]["componentType"], 5126);
    assert_eq!(v["accessors"][0]["count"], 3);
    assert_eq!(v["accessors"][0]["type"], "VEC3");
    assert_eq!(v["accessors"][1]["count"], 3);
    assert_eq!(v["accessors"][1]["type"], "VEC2");
    assert_eq!(v["accessors"][2]["componentType"], 5125);
    assert_eq!(v["accessors"][2]["count"], 3);
    assert_eq!(v["accessors"][2]["type"], "SCALAR");
    let views = &v["bufferViews"];
    assert_eq!(views[0]["byteOffset"], 0);
    assert_eq!(views[0]["byteLength"], 36);
    assert_eq!(views[0]["byteStride"], 12);
    assert_eq!(views[1]["byteOffset"], 36);
    assert_eq!(views[1]["byteLength"], 24);
    assert_eq!(views[1]["byteStride"], 8);
    assert_eq!(views[2]["byteOffset"], 60);
    assert_eq!(views[2]["byteLength"], 12);
    assert_eq!(v["buffers"][0]["byteLength"], bin.len());
    assert_eq!(v["buffers"][0]["uri"], "model.bin");
}

#[test]
fn descriptor_uses_the_color_channel_in_color_mode() {
    let mesh = sample_color_mesh();
    let (gltf, bin) = export_gltf(&mesh, "c.bin").unwrap();
    let v: serde_json::Value = serde_json::from_str(&gltf).unwrap();
    let prim = &v["meshes"][0]["primitives"][0];
    assert_eq!(prim["attributes"]["COLOR_0"], 1);
    assert_eq!(v["accessors"][1]["type"], "VEC3");
    let views = &v["bufferViews"];
    assert_eq!(views[1]["byteLength"], 36);
    assert_eq!(views[1]["byteStride"], 12);
    assert_eq!(v["buffers"][0]["byteLength"], 36 + 36 + 12);
    assert_eq!(bin.len(), 36 + 36 + 12);
}

#[test]
fn empty_mesh_exports_an_empty_buffer() {
    let mesh = Mesh::new();
    let bytes = write_binary_data(&mesh).unwrap();
    assert_eq!(bytes.len(), 0);
    let (gltf, _) = export_gltf(&mesh, "e.bin").unwrap();
    let v: serde_json::Value = serde_json::from_str(&gltf).unwrap();
    assert_eq!(v["buffers"][0]["byteLength"], 0);
}
