use ultimate_fate::geometry::{Chunk, GridPos, LocalPos, MapId, TerrainCell, TerrainKind, WorldMap};

#[test]
fn map_cells_lists_every_stored_position_once() {
    let mut map = WorldMap::new(MapId(3));
    let a = GridPos::new(-33, 64, -9);
    let b = GridPos::new(5, 6, 0);
    map.set_cell(a, TerrainCell::new(TerrainKind::StoneFloor));
    map.set_cell(b, TerrainCell::new(TerrainKind::Wall));
    map.set_cell(b, TerrainCell::new(TerrainKind::Road));

    let mut cells = map.cells();
    cells.sort_by_key(|(p, _)| (p.x, p.y, p.z));
    assert_eq!(cells.len(), 2);
    assert_eq!(cells[0], (a, TerrainCell::new(TerrainKind::StoneFloor)));
    assert_eq!(cells[1], (b, TerrainCell::new(TerrainKind::Road)));
    assert_eq!(map.chunk_count(), 2);
}

#[test]
fn chunk_cells_lists_local_positions() {
    let mut chunk = Chunk::empty();
    assert!(chunk.cells().is_empty());
    let here = LocalPos { x: 3, y: 31, z: 7 };
    chunk.set_cell(here, TerrainCell::new(TerrainKind::Bridge));
    chunk.set_cell(LocalPos { x: 0, y: 0, z: 0 }, TerrainCell::new(TerrainKind::Water));
    let cells = chunk.cells();
    assert_eq!(cells.len(), 2);
    assert!(cells.contains(&(here, TerrainCell::new(TerrainKind::Bridge))));
    assert!(cells.contains(&(LocalPos { x: 0, y: 0, z: 0 }, TerrainCell::new(TerrainKind::Water))));
}
