//! Mesh generation for a sphere tessellated by a hierarchical hexagonal grid.
//!
//! The library turns grid cells (center plus polygonal boundary, projected onto
//! a sphere) into chunked 3D meshes: vertices are deduplicated through quantized
//! spatial keys, cells are fan-triangulated, and each chunk is serialized to a
//! flat binary vertex buffer together with a JSON scene descriptor referencing
//! it. Projection to 3D runs outside the library; positions enter as raw
//! IEEE 754 single-precision bit patterns and all mesh logic is verified over
//! those plain values.

pub mod cell;
pub mod chunks;
pub mod export;
pub mod h3;
pub mod mesh;
pub mod plan;
pub mod quant;

pub use cell::{gen_world_geometry, process_single_cell, CellError, CellGeom, ProcessingStats};
pub use chunks::{
    cell_geometry, chunk_file_stem, gen_world_chunks, process_chunk, ChunkCells, ChunkExport,
};
pub use export::{export_gltf, is_json_safe, write_binary_data, ExportError};
pub use h3::{cell_boundary_ids, cell_is_pentagon};
pub use mesh::{triangulate_pentagon, Attribute, AttributeMode, Mesh, MeshStats};
pub use plan::{cells_at_resolution, plan_chunks, validate_config, ChunkPlan, ConfigError};
pub use quant::{position_is_finite, quantize, quantize_component, Position, QuantKey, QuantScheme};
