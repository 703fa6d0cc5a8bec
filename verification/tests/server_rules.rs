use cells_server::gateway::Gateway;
use cells_server::instance::{MiningProgress, WorldInstance};
use cells_server::player::{MiningState, ServerPlayer};
use cells_server::session::{ClientRequest, Session, SessionAction};
use cells_server::tile::{TilePos, TileType};
use cells_server::transfer::{admit_transfer, resolve_transfer};
use cells_server::world::TransferError;
use cells_server::zone::{WorldId, ZoneType};

fn player(id: u64) -> ServerPlayer<()> {
    ServerPlayer::new(id, (), WorldId::new("cells_hub", 1))
}

fn instance(max: usize) -> WorldInstance<()> {
    WorldInstance::new(WorldId::new("kremwood_1", 1), max)
}

#[test]
fn new_player_defaults() {
    let p = player(9);
    assert_eq!(p.id, 9);
    assert_eq!(p.last_input_seq, 0);
    assert_eq!(p.cell, (0, 0));
    assert_eq!(p.zone, ZoneType::Safe);
    assert_eq!(p.combat_tag_until, None);
    assert!(p.mining.is_none());
    assert_eq!(p.world_id.to_display_string(), "cells_hub:1");
}

#[test]
fn combat_tag_lasts_until_its_end() {
    let mut p = player(1);
    assert!(!p.is_combat_tagged(0));
    p.set_combat_tag(100);
    assert!(p.is_combat_tagged(99));
    assert!(!p.is_combat_tagged(100));
    p.clear_combat_tag();
    assert!(!p.is_combat_tagged(0));
}

#[test]
fn entering_a_world_drops_mining() {
    let mut p = player(1);
    p.mining = Some(MiningState { pos: TilePos::new(1, 1), ticks_remaining: 3 });
    p.enter_world(WorldId::new("kremwood_1", 2));
    assert!(p.mining.is_none());
    assert_eq!(p.world_id.to_display_string(), "kremwood_1:2");
}

#[test]
fn instance_admits_up_to_capacity() {
    let mut inst = instance(2);
    assert_eq!(inst.player_count(), 0);
    assert!(!inst.is_full());
    let a = inst.add_player(player(1), (0, 0), 3).unwrap();
    assert!(a.nearby.is_empty());
    let b = inst.add_player(player(2), (1, 1), 3).unwrap();
    assert_eq!(b.nearby, vec![1]);
    assert!(inst.is_full());
    assert!(inst.add_player(player(3), (0, 0), 3).is_none());
    assert_eq!(inst.player_count(), 2);
    assert_eq!(inst.players[&2].cell, (1, 1));
}

#[test]
fn arrival_lists_mined_tiles() {
    let mut inst = instance(10);
    let p = TilePos::new(4, 4);
    inst.tiles.add_tile(p, TileType::Stone);
    inst.tiles.mine_tile(&p, 0);
    let a = inst.add_player(player(1), (0, 0), 3).unwrap();
    assert_eq!(a.mined, vec![p]);
}

#[test]
fn far_players_are_not_nearby() {
    let mut inst = instance(10);
    inst.add_player(player(1), (0, 0), 3).unwrap();
    let a = inst.add_player(player(2), (4, 0), 3).unwrap();
    assert!(a.nearby.is_empty());
}

#[test]
fn take_and_remove_player() {
    let mut inst = instance(10);
    inst.add_player(player(1), (0, 0), 3).unwrap();
    inst.add_player(player(2), (1, 0), 3).unwrap();
    let (taken, nearby) = inst.take_player(1, 3).unwrap();
    assert_eq!(taken.id, 1);
    assert_eq!(nearby, vec![2]);
    assert_eq!(inst.player_count(), 1);
    assert!(inst.take_player(1, 3).is_none());
    assert_eq!(inst.remove_player(2, 3), Some(vec![]));
    assert_eq!(inst.remove_player(2, 3), None);
    assert_eq!(inst.player_count(), 0);
    assert!(inst.spatial.query_nearby((0, 0), 5).is_empty());
}

#[test]
fn transfer_moves_player_between_instances() {
    let mut from = instance(10);
    let mut to = WorldInstance::<()>::new(WorldId::new("kremwood_1", 2), 10);
    from.add_player(player(5), (2, 2), 3).unwrap();
    let (mut p, _) = from.take_player(5, 3).unwrap();
    p.enter_world(to.id.duplicate());
    assert!(admit_transfer(&to).is_ok());
    to.add_player(p, (0, 0), 3).unwrap();
    assert!(!from.players.contains_key(&5));
    assert_eq!(to.players[&5].world_id.to_display_string(), "kremwood_1:2");
    assert_eq!(to.players[&5].cell, (0, 0));
}

#[test]
fn apply_input_moves_and_cancels_mining() {
    let mut inst = instance(10);
    let pos = TilePos::new(0, 0);
    inst.tiles.add_tile(pos, TileType::Stone);
    inst.add_player(player(1), (0, 0), 3).unwrap();
    inst.start_mining(1, pos);
    assert!(!inst.apply_input(1, 4, false, (0, 0)));
    assert_eq!(inst.players[&1].last_input_seq, 4);
    assert!(inst.players[&1].mining.is_some());
    assert!(inst.apply_input(1, 5, true, (1, 0)));
    assert!(inst.players[&1].mining.is_none());
    assert_eq!(inst.players[&1].cell, (1, 0));
    assert!(inst.spatial.query_nearby((0, 0), 0).is_empty());
    assert_eq!(inst.spatial.query_nearby((1, 0), 0), vec![1]);
    // Moving again while not mining cancels nothing.
    assert!(!inst.apply_input(1, 6, true, (1, 0)));
    // Unknown players are ignored.
    assert!(!inst.apply_input(99, 1, true, (0, 0)));
}

#[test]
fn start_mining_needs_a_mineable_tile() {
    let mut inst = instance(10);
    inst.add_player(player(1), (0, 0), 3).unwrap();
    let air = TilePos::new(1, 1);
    inst.tiles.add_tile(air, TileType::Air);
    inst.start_mining(1, air);
    assert!(inst.players[&1].mining.is_none());
    inst.start_mining(1, TilePos::new(2, 2));
    assert!(inst.players[&1].mining.is_none());
    let wood = TilePos::new(3, 3);
    inst.tiles.add_tile(wood, TileType::Wood);
    inst.start_mining(1, wood);
    assert_eq!(inst.players[&1].mining, Some(MiningState { pos: wood, ticks_remaining: 40 }));
    inst.stop_mining(1);
    assert!(inst.players[&1].mining.is_none());
}

#[test]
fn stone_is_mined_on_the_twentieth_tick_and_respawns() {
    let mut inst = instance(10);
    let pos = TilePos::new(5, 5);
    inst.tiles.add_tile(pos, TileType::Stone);
    inst.add_player(player(1), (0, 0), 3).unwrap();
    inst.start_mining(1, pos);
    for t in 1..20u32 {
        let report = inst.tick();
        assert_eq!(
            report.mining.progressed,
            vec![MiningProgress { player: 1, pos, ticks_remaining: 20 - t, total_ticks: 20 }]
        );
        assert!(report.mining.mined.is_empty());
    }
    let report = inst.tick();
    assert_eq!(inst.tick, 20);
    assert!(report.mining.progressed.is_empty());
    assert_eq!(report.mining.mined, vec![pos]);
    assert!(inst.players[&1].mining.is_none());
    assert!(!inst.tiles.is_tile_present(&pos));
    for _ in 21..220 {
        let report = inst.tick();
        assert!(report.respawned.is_empty());
    }
    let report = inst.tick();
    assert_eq!(inst.tick, 220);
    assert_eq!(report.respawned, vec![(pos, TileType::Stone)]);
    assert!(inst.tiles.is_tile_present(&pos));
}

#[test]
fn two_miners_finishing_together_mine_the_tile_once() {
    let mut inst = instance(10);
    let pos = TilePos::new(0, 0);
    inst.tiles.add_tile(pos, TileType::Stone);
    inst.add_player(player(1), (0, 0), 3).unwrap();
    inst.add_player(player(2), (0, 0), 3).unwrap();
    inst.start_mining(1, pos);
    inst.start_mining(2, pos);
    for _ in 1..20 {
        inst.tick();
    }
    let report = inst.tick();
    assert_eq!(report.mining.mined, vec![pos]);
    assert!(report.mining.cancelled.is_empty());
}

#[test]
fn mining_a_vanished_tile_is_cancelled() {
    let mut inst = instance(10);
    let a = TilePos::new(0, 0);
    inst.tiles.add_tile(a, TileType::Wood);
    inst.add_player(player(1), (0, 0), 3).unwrap();
    inst.start_mining(1, a);
    inst.tiles.mine_tile(&a, 0);
    let report = inst.tick();
    assert_eq!(report.mining.cancelled, vec![1]);
    assert!(inst.players[&1].mining.is_none());
}

#[test]
fn gateway_registers_and_finds_instances() {
    let mut g: Gateway<u32> = Gateway::new();
    assert_eq!(g.len(), 0);
    assert!(g.list_instances().is_empty());
    g.register_instance(WorldId::new("cells_hub", 1), 10);
    g.register_instance(WorldId::new("kremwood_1", 1), 20);
    g.register_instance(WorldId::new("kremwood_1", 2), 30);
    assert_eq!(g.len(), 3);
    assert_eq!(g.get_instance(&WorldId::new("kremwood_1", 2)), Some(&30));
    assert_eq!(g.get_instance(&WorldId::new("kremwood_1", 3)), None);
    assert_eq!(g.position_of(&WorldId::new("kremwood_1", 1)), Some(1));
    assert_eq!(*g.handle_at(0), 10);
    g.register_instance(WorldId::new("cells_hub", 1), 11);
    assert_eq!(g.len(), 3);
    assert_eq!(g.get_instance(&WorldId::new("cells_hub", 1)), Some(&11));
    let names: Vec<String> = g.list_instances().iter().map(|id| id.to_display_string()).collect();
    assert_eq!(names, vec!["cells_hub:1", "kremwood_1:1", "kremwood_1:2"]);
    let d: Gateway<u32> = Gateway::default();
    assert_eq!(d.len(), 0);
}

#[test]
fn gateway_picks_least_loaded_instance_of_a_world() {
    let mut g: Gateway<u32> = Gateway::new();
    g.register_instance(WorldId::new("cells_hub", 1), 0);
    g.register_instance(WorldId::new("kremwood_1", 1), 1);
    g.register_instance(WorldId::new("kremwood_1", 2), 2);
    assert_eq!(g.find_best_instance("kremwood_1", &vec![0, 5, 3]), Some(2));
    assert_eq!(g.find_best_instance("kremwood_1", &vec![0, 3, 3]), Some(1));
    assert_eq!(g.find_best_instance("kremwood_1", &vec![0, usize::MAX, 7]), Some(2));
    assert_eq!(g.find_best_instance("cells_hub", &vec![9, 0, 0]), Some(0));
    assert_eq!(g.find_best_instance("nowhere", &vec![0, 0, 0]), None);
}

#[test]
fn transfer_resolution() {
    let mut g: Gateway<u32> = Gateway::new();
    g.register_instance(WorldId::new("cells_hub", 1), 0);
    g.register_instance(WorldId::new("kremwood_1", 1), 1);
    g.register_instance(WorldId::new("kremwood_1", 2), 2);
    let loads = vec![0, 4, 1];
    match resolve_transfer(&g, true, &WorldId::new("kremwood_1", 1), &loads) {
        Err(TransferError::CombatTagged) => {}
        _ => panic!("a tagged player must be refused"),
    }
    assert_eq!(resolve_transfer(&g, false, &WorldId::new("kremwood_1", 1), &loads).ok(), Some(1));
    assert_eq!(resolve_transfer(&g, false, &WorldId::new("kremwood_1", 9), &loads).ok(), Some(2));
    match resolve_transfer(&g, false, &WorldId::new("deep_mines", 1), &loads) {
        Err(TransferError::WorldNotFound(name)) => assert_eq!(name, "deep_mines"),
        _ => panic!("an unknown world must be refused"),
    }
}

#[test]
fn full_instance_refuses_transfer() {
    let mut inst = instance(1);
    assert!(admit_transfer(&inst).is_ok());
    inst.add_player(player(1), (0, 0), 3).unwrap();
    match admit_transfer(&inst) {
        Err(TransferError::WorldFull) => {}
        _ => panic!("a full instance must refuse"),
    }
}

#[test]
fn player_combat_tag_in_instance() {
    let mut inst = instance(10);
    inst.add_player(player(1), (0, 0), 3).unwrap();
    assert!(!inst.is_player_combat_tagged(1, 5));
    let mut p = inst.take_player(1, 3).unwrap().0;
    p.set_combat_tag(10);
    inst.add_player(p, (0, 0), 3).unwrap();
    assert!(inst.is_player_combat_tagged(1, 5));
    assert!(!inst.is_player_combat_tagged(1, 10));
    assert!(!inst.is_player_combat_tagged(2, 5));
}

#[test]
fn session_rate_limits_movement() {
    let mut s = Session::new(1, 1_000, 8);
    match s.on_request(ClientRequest::MoveInput { sequence: 1, valid: true }, 1_004) {
        SessionAction::Ignore => {}
        _ => panic!("too soon"),
    }
    assert_eq!(s.last_input_time, 1_000);
    match s.on_request(ClientRequest::MoveInput { sequence: 2, valid: true }, 1_008) {
        SessionAction::ApplyInput { sequence } => assert_eq!(sequence, 2),
        _ => panic!("should apply"),
    }
    assert_eq!(s.last_input_time, 1_008);
    match s.on_request(ClientRequest::MoveInput { sequence: 3, valid: false }, 1_020) {
        SessionAction::Ignore => {}
        _ => panic!("invalid input"),
    }
    // An invalid input still counts for the rate limit.
    assert_eq!(s.last_input_time, 1_020);
    // A clock reading before the mark counts as no time elapsed.
    match s.on_request(ClientRequest::MoveInput { sequence: 4, valid: true }, 10) {
        SessionAction::Ignore => {}
        _ => panic!("no time elapsed"),
    }
}

#[test]
fn session_dispatches_other_requests() {
    let mut s = Session::new(1, 0, 8);
    let pos = TilePos::new(1, 2);
    match s.on_request(ClientRequest::StartMine { pos }, 1) {
        SessionAction::StartMine { pos: p } => assert_eq!(p, pos),
        _ => panic!(),
    }
    assert!(matches!(s.on_request(ClientRequest::StopMine, 1), SessionAction::StopMine));
    match s.on_request(ClientRequest::TransferRequest { target: WorldId::new("w", 3) }, 1) {
        SessionAction::Transfer { target } => assert_eq!(target.to_display_string(), "w:3"),
        _ => panic!(),
    }
    assert!(matches!(s.on_request(ClientRequest::Disconnect, 1), SessionAction::Disconnect));
    assert_eq!(s.last_input_time, 0);
}

#[test]
fn wood_is_mined_on_the_fortieth_tick() {
    let mut inst = instance(10);
    let pos = TilePos::new(-2, 3);
    inst.tiles.add_tile(pos, TileType::Wood);
    inst.add_player(player(1), (0, 0), 3).unwrap();
    inst.start_mining(1, pos);
    for _ in 1..40 {
        assert!(inst.tick().mining.mined.is_empty());
    }
    assert_eq!(inst.tick().mining.mined, vec![pos]);
    assert_eq!(inst.tiles.get_mined_tiles(), vec![pos]);
}

#[test]
fn snapshot_groups_list_nearby_players_per_player() {
    let mut inst = instance(10);
    inst.add_player(player(1), (0, 0), 3).unwrap();
    inst.add_player(player(2), (2, 0), 3).unwrap();
    inst.add_player(player(3), (9, 9), 3).unwrap();
    let mut groups = inst.snapshot_groups(3);
    groups.sort_by_key(|g| g.0);
    for g in groups.iter_mut() {
        g.1.sort();
    }
    assert_eq!(groups, vec![(1, vec![1, 2]), (2, vec![1, 2]), (3, vec![3])]);
    // Ids left behind in the grid without a player are not included.
    inst.spatial.insert(42, (0, 0));
    let g1 = inst.snapshot_groups(0).into_iter().find(|g| g.0 == 1).unwrap();
    assert_eq!(g1.1, vec![1]);
}

#[test]
fn mined_positions_stay_registered() {
    let mut inst = instance(10);
    let p = TilePos::new(1, 1);
    inst.tiles.add_tile(p, TileType::Stone);
    assert_eq!(inst.tiles.mine_tile(&p, 0), Some(200));
    for q in inst.tiles.get_mined_tiles() {
        assert!(inst.tiles.get_tile(&q).is_none());
        assert!(!inst.tiles.is_tile_present(&q));
    }
    // An unregistered position cannot be mined.
    assert_eq!(inst.tiles.mine_tile(&TilePos::new(2, 2), 0), None);
    assert_eq!(inst.tiles.get_mined_tiles(), vec![p]);
}

#[test]
fn full_instance_refuses_any_spawn_cell() {
    let mut inst = instance(0);
    assert!(inst.is_full());
    assert!(inst.add_player(player(1), (i32::MAX, i32::MIN), 3).is_none());
    assert_eq!(inst.player_count(), 0);
}
