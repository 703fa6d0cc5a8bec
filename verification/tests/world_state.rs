use cells_server::spatial::SpatialGrid;
use cells_server::tile::{TilePos, TileType};
use cells_server::tiles::TileManager;

#[test]
fn tile_manager_starts_empty() {
    let tm = TileManager::new();
    let p = TilePos::new(0, 0);
    assert!(!tm.is_tile_present(&p));
    assert_eq!(tm.get_tile(&p), None);
    assert_eq!(tm.mine_ticks(&p), None);
    assert!(tm.get_mined_tiles().is_empty());
}

#[test]
fn added_tile_is_visible() {
    let mut tm = TileManager::new();
    let p = TilePos::new(3, -4);
    tm.add_tile(p, TileType::Wood);
    assert!(tm.is_tile_present(&p));
    assert_eq!(tm.get_tile(&p), Some(TileType::Wood));
    assert_eq!(tm.mine_ticks(&p), Some(40));
    assert_eq!(tm.get_tile(&TilePos::new(-4, 3)), None);
}

#[test]
fn re_adding_a_tile_replaces_its_type() {
    let mut tm = TileManager::new();
    let p = TilePos::new(10, 10);
    tm.add_tile(p, TileType::Stone);
    tm.add_tile(p, TileType::Wood);
    assert_eq!(tm.get_tile(&p), Some(TileType::Wood));
}

#[test]
fn mined_tile_is_gone_until_it_respawns() {
    let mut tm = TileManager::new();
    let p = TilePos::new(1, 2);
    tm.add_tile(p, TileType::Stone);
    assert_eq!(tm.mine_tile(&p, 100), Some(300));
    assert!(!tm.is_tile_present(&p));
    assert_eq!(tm.get_tile(&p), None);
    assert_eq!(tm.mine_ticks(&p), None);
    assert_eq!(tm.get_mined_tiles(), vec![p]);
    // Mining it again while it is gone does nothing.
    assert_eq!(tm.mine_tile(&p, 150), None);
    assert!(tm.process_respawns(299).is_empty());
    assert!(!tm.is_tile_present(&p));
    assert_eq!(tm.process_respawns(300), vec![(p, TileType::Stone)]);
    assert!(tm.is_tile_present(&p));
    assert!(tm.get_mined_tiles().is_empty());
}

#[test]
fn mining_an_absent_tile_fails() {
    let mut tm = TileManager::new();
    assert_eq!(tm.mine_tile(&TilePos::new(0, 0), 5), None);
    assert!(tm.get_mined_tiles().is_empty());
}

#[test]
fn air_respawns_at_once() {
    let mut tm = TileManager::new();
    let p = TilePos::new(-1, -1);
    tm.add_tile(p, TileType::Air);
    assert_eq!(tm.mine_ticks(&p), None);
    assert_eq!(tm.mine_tile(&p, 7), Some(7));
    assert_eq!(tm.process_respawns(7), vec![(p, TileType::Air)]);
    assert_eq!(tm.get_tile(&p), Some(TileType::Air));
}

#[test]
fn respawns_only_what_is_due() {
    let mut tm = TileManager::new();
    let stone = TilePos::new(0, 1);
    let wood = TilePos::new(0, 2);
    tm.add_tile(stone, TileType::Stone);
    tm.add_tile(wood, TileType::Wood);
    assert_eq!(tm.mine_tile(&stone, 0), Some(200));
    assert_eq!(tm.mine_tile(&wood, 0), Some(400));
    let mut mined = tm.get_mined_tiles();
    mined.sort_by_key(|p| p.y);
    assert_eq!(mined, vec![stone, wood]);
    assert_eq!(tm.process_respawns(250), vec![(stone, TileType::Stone)]);
    assert_eq!(tm.get_mined_tiles(), vec![wood]);
    assert_eq!(tm.process_respawns(1000), vec![(wood, TileType::Wood)]);
}

#[test]
fn grid_query_finds_players_in_nearby_cells() {
    let mut g = SpatialGrid::new();
    g.insert(1, (0, 0));
    g.insert(2, (3, -3));
    g.insert(3, (5, 0));
    let mut near = g.query_nearby((0, 0), 3);
    near.sort();
    assert_eq!(near, vec![1, 2]);
    let mut all = g.query_nearby((2, 0), 3);
    all.sort();
    assert_eq!(all, vec![1, 2, 3]);
    assert_eq!(g.query_nearby((0, 0), 0), vec![1]);
    assert!(g.query_nearby((100, 100), 4).is_empty());
}

#[test]
fn grid_query_with_negative_radius_is_empty() {
    let mut g = SpatialGrid::new();
    g.insert(1, (0, 0));
    assert!(g.query_nearby((0, 0), -1).is_empty());
}

#[test]
fn grid_remove_and_update() {
    let mut g = SpatialGrid::new();
    g.insert(1, (0, 0));
    g.insert(2, (0, 0));
    g.remove(1, (0, 0));
    assert_eq!(g.query_nearby((0, 0), 0), vec![2]);
    g.remove(2, (0, 0));
    assert!(g.query_nearby((0, 0), 0).is_empty());
    // Removing from the wrong cell changes nothing.
    g.insert(3, (1, 1));
    g.remove(3, (0, 0));
    assert_eq!(g.query_nearby((1, 1), 0), vec![3]);
    g.update(3, (1, 1), (9, 9));
    assert!(g.query_nearby((1, 1), 0).is_empty());
    assert_eq!(g.query_nearby((9, 9), 0), vec![3]);
    g.update(3, (9, 9), (9, 9));
    assert_eq!(g.query_nearby((9, 9), 0), vec![3]);
}

#[test]
fn grid_counts_a_player_once_per_cell_it_is_in() {
    let mut g = SpatialGrid::new();
    g.insert(7, (0, 0));
    g.insert(7, (0, 1));
    assert_eq!(g.query_nearby((0, 0), 1), vec![7, 7]);
}

#[test]
fn grid_clear_empties_all_cells() {
    let mut g = SpatialGrid::new();
    g.insert(1, (0, 0));
    g.insert(2, (-5, 5));
    g.clear();
    assert!(g.query_nearby((0, 0), 10).is_empty());
}

#[test]
fn grid_works_at_the_coordinate_limits() {
    let mut g = SpatialGrid::new();
    g.insert(1, (i32::MAX, i32::MIN));
    assert_eq!(g.query_nearby((i32::MAX - 1, i32::MIN + 1), 1), vec![1]);
}

#[test]
fn grid_insert_then_remove_restores() {
    let mut g = SpatialGrid::new();
    g.insert(1, (0, 0));
    g.insert(2, (3, 3));
    g.remove(2, (3, 3));
    assert!(g.query_nearby((3, 3), 0).is_empty());
    assert_eq!(g.query_nearby((0, 0), 5), vec![1]);
    g.insert(5, (0, 0));
    g.remove(5, (0, 0));
    assert_eq!(g.query_nearby((0, 0), 5), vec![1]);
}

#[test]
fn grid_cleared_then_insert_is_found_alone() {
    let mut g = SpatialGrid::new();
    g.insert(1, (0, 0));
    g.insert(2, (1, 1));
    g.clear();
    assert!(g.query_nearby((0, 0), 100).is_empty());
    g.insert(3, (4, -4));
    assert_eq!(g.query_nearby((4, -4), 0), vec![3]);
    assert!(g.query_nearby((0, 0), 0).is_empty());
}

#[test]
fn grid_query_scans_columns_then_rows() {
    let mut g = SpatialGrid::new();
    g.insert(1, (0, 1));
    g.insert(2, (1, 0));
    g.insert(3, (0, 0));
    g.insert(4, (-1, 1));
    assert_eq!(g.query_nearby((0, 0), 1), vec![4, 3, 1, 2]);
}
