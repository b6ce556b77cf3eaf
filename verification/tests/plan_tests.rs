use h3_world_geometry_generator::{
    cell_boundary_ids, cell_is_pentagon, plan_chunks, validate_config, ConfigError,
};

#[test]
fn chunk_resolution_not_coarser_is_a_config_error() {
    assert_eq!(
        validate_config(0, 0),
        Err(ConfigError::ChunkNotCoarser { chunk_res: 0, world_res: 0 })
    );
    assert_eq!(
        validate_config(5, 5),
        Err(ConfigError::ChunkNotCoarser { chunk_res: 5, world_res: 5 })
    );
    assert_eq!(
        validate_config(3, 7),
        Err(ConfigError::ChunkNotCoarser { chunk_res: 7, world_res: 3 })
    );
    // the plan fails the same way, before any cell is touched
    assert!(matches!(
        plan_chunks(0, 0),
        Err(ConfigError::ChunkNotCoarser { chunk_res: 0, world_res: 0 })
    ));
}

#[test]
fn out_of_range_resolutions_are_config_errors() {
    assert_eq!(
        validate_config(200, 100),
        Err(ConfigError::InvalidChunkResolution { value: 100 })
    );
    assert_eq!(
        validate_config(20, 5),
        Err(ConfigError::InvalidWorldResolution { value: 20 })
    );
    assert!(validate_config(1, 0).is_ok());
    assert!(validate_config(15, 14).is_ok());
}

#[test]
fn plan_at_chunk_resolution_zero_has_one_chunk_per_base_cell() {
    let plan = plan_chunks(1, 0).unwrap();
    assert_eq!(plan.len(), 122);

    // chunk cells are exactly the base cells, in enumeration order
    let base: Vec<u64> = h3o::CellIndex::base_cells().map(u64::from).collect();
    for (i, chunk) in plan.iter().enumerate() {
        assert_eq!(chunk.chunk_cell, base[i]);
    }

    // each chunk holds its cell's resolution-1 children: 7 for hexagons,
    // 6 for pentagons; 12 base cells are pentagons
    let mut pentagons = 0;
    let mut total = 0;
    for chunk in &plan {
        let n = chunk.world_cells.len();
        assert!(n == 6 || n == 7);
        if n == 6 {
            pentagons += 1;
        }
        total += n;
    }
    assert_eq!(pentagons, 12);
    assert_eq!(total, 842);

    // the children agree with the grid index itself
    let cell = h3o::CellIndex::try_from(plan[0].chunk_cell).unwrap();
    let children: Vec<u64> = cell.children(h3o::Resolution::One).map(u64::from).collect();
    assert_eq!(plan[0].world_cells, children);
}

#[test]
fn boundary_ids_agree_with_the_grid_index() {
    for cell in h3o::CellIndex::base_cells() {
        let ids = cell_boundary_ids(u64::from(cell));
        let direct: Vec<u64> = cell.vertexes().map(u64::from).collect();
        assert_eq!(ids, direct);
        assert!(ids.len() == 5 || ids.len() == 6);
        assert_eq!(ids.len() == 5, cell.is_pentagon());
    }
}

#[test]
fn twelve_base_cells_are_pentagons() {
    let mut pentagons = 0;
    for cell in h3o::CellIndex::base_cells() {
        if cell_is_pentagon(u64::from(cell)) {
            pentagons += 1;
        }
    }
    assert_eq!(pentagons, 12);
}
