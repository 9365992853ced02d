use tilephys::{
    CELL_LIMIT, mesh_indices, to_chunk_coords, BodyArena, BodyHandle, Cell, CellType, Chunk, Tilemap, Vec2, TILE_SIZE,
};

#[test]
fn chunk_coords_floor_negative_values() {
    assert_eq!(to_chunk_coords(-1, -1), (-1, -1));
    assert_eq!(to_chunk_coords(16, 16), (1, 1));
    assert_eq!(to_chunk_coords(0, 0), (0, 0));
    assert_eq!(to_chunk_coords(15, -16), (0, -1));
    assert_eq!(to_chunk_coords(-17, 31), (-2, 1));
}

#[test]
fn cell_empty_and_is_empty() {
    let c = Cell::empty();
    assert!(c.is_empty());
    assert_eq!(c.rb, None);
    let s = Cell { cell_type: CellType::Stone, rb: Some(BodyHandle { index: 3 }) };
    assert!(!s.is_empty());
}

#[test]
fn new_chunk_is_empty_and_dirty() {
    let c = Chunk::new(-2, 3);
    assert!(c.needs_mesh_update());
    assert!(c.occupied_cells().is_empty());
    assert_eq!((c.chunk_x(), c.chunk_y()), (-2, 3));
    assert_eq!(c.base_world_point(), Vec2::new(-32000, 48000));
}

#[test]
fn set_cell_creates_static_tile_body() {
    let mut bodies = BodyArena::new();
    let mut tm = Tilemap::new();
    assert_eq!(tm.chunks_stored(), 0);
    let h = tm.set_cell(&mut bodies, 3, 4, CellType::Stone).expect("a body for the new tile");
    assert_eq!(tm.chunks_stored(), 1);
    let rb = bodies.get(h).unwrap();
    assert_eq!(rb.get_top_left(), Vec2::new(2950, 3950));
    assert_eq!(rb.dimensions, Vec2::new(TILE_SIZE, TILE_SIZE));
    assert_eq!(rb.weight, None);
    assert_eq!(tm.cell_type_at(3, 4), CellType::Stone);
    assert_eq!(tm.cell_type_at(4, 3), CellType::Empty);
    assert_eq!(tm.cell_type_at(400, 400), CellType::Empty);
}

#[test]
fn set_cell_twice_is_idempotent() {
    let mut bodies = BodyArena::new();
    let mut tm = Tilemap::new();
    let first = tm.set_cell(&mut bodies, -5, 7, CellType::Stone);
    assert!(first.is_some());
    let slots_after_first = bodies.slots.clone();
    let cells_after_first = tm.chunk(0).occupied_cells();
    let second = tm.set_cell(&mut bodies, -5, 7, CellType::Stone);
    assert_eq!(second, None);
    assert_eq!(bodies.slots, slots_after_first);
    assert_eq!(tm.chunk(0).occupied_cells(), cells_after_first);
    assert_eq!(tm.chunks_stored(), 1);
    assert!(bodies.is_live(first.unwrap()));
}

#[test]
fn clearing_a_cell_destroys_its_body() {
    let mut bodies = BodyArena::new();
    let mut tm = Tilemap::new();
    let h = tm.set_cell(&mut bodies, 1, 1, CellType::Stone).unwrap();
    tm.mark_chunk_mesh_updated(0);
    assert!(!tm.chunk(0).needs_mesh_update());
    assert_eq!(tm.set_cell(&mut bodies, 1, 1, CellType::Empty), None);
    assert!(!bodies.is_live(h));
    assert_eq!(tm.cell_type_at(1, 1), CellType::Empty);
    assert!(tm.chunk(0).needs_mesh_update());
    // clearing an empty cell changes nothing
    tm.mark_chunk_mesh_updated(0);
    assert_eq!(tm.set_cell(&mut bodies, 2, 2, CellType::Empty), None);
    assert!(!tm.chunk(0).needs_mesh_update());
}

#[test]
fn chunks_are_created_per_region() {
    let mut bodies = BodyArena::new();
    let mut tm = Tilemap::new();
    tm.set_cell(&mut bodies, -1, -1, CellType::Stone);
    tm.set_cell(&mut bodies, 0, 0, CellType::Stone);
    tm.set_cell(&mut bodies, 15, 15, CellType::Stone);
    tm.set_cell(&mut bodies, 16, 0, CellType::Stone);
    assert_eq!(tm.chunks_stored(), 3);
    assert_eq!((tm.chunk(0).chunk_x(), tm.chunk(0).chunk_y()), (-1, -1));
    assert_eq!(tm.chunk(0).occupied_cells(), vec![(15, 15)]);
    assert_eq!(tm.chunk(1).occupied_cells(), vec![(0, 0), (15, 15)]);
    assert_eq!(tm.chunk(2).occupied_cells(), vec![(0, 0)]);
    assert_eq!(bodies.slots.len(), 4);
}

#[test]
fn cells_at_the_limits_are_usable() {
    let mut bodies = BodyArena::new();
    let mut tm = Tilemap::new();
    let lo = -CELL_LIMIT;
    let hi = CELL_LIMIT - 1;
    assert!(tm.set_cell(&mut bodies, lo, lo, CellType::Stone).is_some());
    assert!(tm.set_cell(&mut bodies, hi, hi, CellType::Stone).is_some());
    assert_eq!(tm.cell_type_at(lo, lo), CellType::Stone);
    assert_eq!(tm.cell_type_at(hi, hi), CellType::Stone);
    assert_eq!(to_chunk_coords(lo, hi), (lo / 16, hi / 16));
}

#[test]
fn mesh_indices_make_two_triangles_per_quad() {
    assert_eq!(mesh_indices(0), Vec::<u32>::new());
    assert_eq!(mesh_indices(2), vec![0, 1, 2, 0, 2, 3, 4, 5, 6, 4, 6, 7]);
}
