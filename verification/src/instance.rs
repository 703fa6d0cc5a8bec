use std::collections::HashMap;
use vstd::prelude::*;
use crate::grid::map_keys;
use crate::player::{MiningState, ServerPlayer};
use crate::spatial::{SpatialGrid, near, near_count, scan_order, square_fits};
use crate::tile::{TilePos, TileType, mine_ticks_of, respawn_ticks_of};
use crate::tiles::{TileManager, due_respawn, still_mined};
use crate::zone::WorldId;

verus! {

broadcast use vstd::std_specs::hash::group_hash_axioms, vstd::seq_lib::group_seq_properties;

/// One world instance: its players, their spatial grid, its tile layer and
/// its tick counter. `C` is the network side of each player.
pub struct WorldInstance<C> {
    pub id: WorldId,
    pub tick: u64,
    pub players: HashMap<u64, ServerPlayer<C>>,
    pub spatial: SpatialGrid,
    pub tiles: TileManager,
    /// Most players the instance admits.
    pub max_players: usize,
}

/// What a joining player needs to be told: the players near its spawn cell
/// (taken before it was placed) and the tiles that are mined at the moment.
pub struct Arrival {
    pub nearby: Vec<u64>,
    pub mined: Vec<TilePos>,
}

/// What one tick of mining did to one player.
pub enum MiningStep {
    /// The player was not mining.
    Idle,
    /// The tile the player was mining is gone: mining stops.
    Cancelled,
    /// The player's last mining tick: the tile at the position is mined.
    Completed(TilePos),
    /// Mining goes on with this state.
    Progressed(MiningState),
}

/// Progress of a miner, for the update sent to it.
#[derive(Debug, Clone, Copy, PartialEq, Eq, Structural)]
pub struct MiningProgress {
    pub player: u64,
    pub pos: TilePos,
    pub ticks_remaining: u32,
    pub total_ticks: u32,
}

/// Outcome of one tick of mining.
pub struct MiningReport {
    /// Miners that go on, with their progress.
    pub progressed: Vec<MiningProgress>,
    /// Miners whose tile was gone.
    pub cancelled: Vec<u64>,
    /// Tiles mined this tick, each once.
    pub mined: Vec<TilePos>,
}

/// Outcome of one server tick.
pub struct TickReport {
    pub mining: MiningReport,
    pub respawned: Vec<(TilePos, TileType)>,
}

/// The mining step of a player whose mining state is `m`, on the tile layer
/// `tiles`.
pub open spec fn step_of(tiles: TileManager, m: Option<MiningState>) -> MiningStep {
    match m {
        None => MiningStep::Idle,
        Some(s) => if tiles.tile_at(s.pos) is None {
            MiningStep::Cancelled
        } else if s.ticks_remaining <= 1 {
            MiningStep::Completed(s.pos)
        } else {
            MiningStep::Progressed(MiningState { pos: s.pos, ticks_remaining: (s.ticks_remaining - 1) as u32 })
        },
    }
}

/// The mining state that a step leaves behind.
pub open spec fn mining_after(step: MiningStep) -> Option<MiningState> {
    match step {
        MiningStep::Progressed(s) => Some(s),
        _ => None,
    }
}

/// `p` with mining state `m`.
pub open spec fn with_mining<C>(p: ServerPlayer<C>, m: Option<MiningState>) -> ServerPlayer<C> {
    ServerPlayer { mining: m, ..p }
}

/// `p` after one tick of mining on `tiles`.
pub open spec fn stepped<C>(tiles: TileManager, p: ServerPlayer<C>) -> ServerPlayer<C> {
    with_mining(p, mining_after(step_of(tiles, p.mining)))
}

/// Ticks a tile of the layer takes to mine, as shown in progress updates
/// (1 where the tile cannot be mined).
pub open spec fn total_ticks(tiles: TileManager, pos: TilePos) -> u32 {
    match tiles.tile_at(pos) {
        Some(t) => match mine_ticks_of(t) {
            Some(n) => n,
            None => 1,
        },
        None => 1,
    }
}

/// Whether some player's mining of `pos` completes in this tick.
pub open spec fn completes_at<C>(
    players: Map<u64, ServerPlayer<C>>,
    tiles: TileManager,
    pos: TilePos,
) -> bool {
    exists|id: u64|
        players.contains_key(id) && #[trigger] step_of(tiles, players[id].mining)
            == MiningStep::Completed(pos)
}

/// The respawn ticks of the tile layer after the completions of this tick at
/// tick `now`.
pub open spec fn mined_after<C>(
    players: Map<u64, ServerPlayer<C>>,
    tiles: TileManager,
    now: u64,
) -> Map<TilePos, u64> {
    Map::new(
        |p: TilePos| tiles.mined().contains_key(p) || completes_at(players, tiles, p),
        |p: TilePos|
            if completes_at(players, tiles, p) {
                (now + respawn_ticks_of(tiles.tile_at(p)->0)) as u64
            } else {
                tiles.mined()[p]
            },
    )
}

/// Whether no completion in this tick overflows its respawn tick.
pub open spec fn respawns_fit<C>(players: Map<u64, ServerPlayer<C>>, tiles: TileManager, now: u64) -> bool {
    forall|id: u64|
        #![trigger players[id]]
        players.contains_key(id) ==> match step_of(tiles, players[id].mining) {
            MiningStep::Completed(pos) => now + respawn_ticks_of(tiles.tile_at(pos)->0) <= u64::MAX,
            _ => true,
        }
}

/// The report of one tick of mining from `players` on `tiles`.
pub open spec fn mining_reported<C>(
    players: Map<u64, ServerPlayer<C>>,
    tiles: TileManager,
    report: MiningReport,
) -> bool {
    &&& report.cancelled@.no_duplicates()
    &&& forall|id: u64|
        #[trigger] report.cancelled@.contains(id) <==> (players.contains_key(id) && step_of(
            tiles,
            players[id].mining,
        ) is Cancelled)
    &&& report.progressed@.no_duplicates()
    &&& forall|e: MiningProgress|
        #[trigger] report.progressed@.contains(e) <==> (players.contains_key(e.player) && step_of(
            tiles,
            players[e.player].mining,
        ) == MiningStep::Progressed(MiningState { pos: e.pos, ticks_remaining: e.ticks_remaining })
            && e.total_ticks == total_ticks(tiles, e.pos))
    &&& report.mined@.no_duplicates()
    &&& forall|p: TilePos| #[trigger] report.mined@.contains(p) <==> completes_at(players, tiles, p)
}

/// A tile mined in a tick at tick `now` was visible before, and is filed
/// to respawn exactly its type's respawn duration after `now`; every other
/// mined tile keeps its respawn tick, and no tile that was not mined or
/// completed becomes mined.
pub proof fn lemma_completed_tiles_respawn_later<C>(
    players: Map<u64, ServerPlayer<C>>,
    tiles: TileManager,
    now: u64,
    report: MiningReport,
    p: TilePos,
)
    requires
        mining_reported(players, tiles, report),
        respawns_fit(players, tiles, now),
    ensures
        report.mined@.contains(p) ==> {
            &&& tiles.tile_at(p) is Some
            &&& mined_after(players, tiles, now).contains_key(p)
            &&& mined_after(players, tiles, now)[p] == now + respawn_ticks_of(tiles.tile_at(p)->0)
        },
        !report.mined@.contains(p) && tiles.mined().contains_key(p) ==> {
            &&& mined_after(players, tiles, now).contains_key(p)
            &&& mined_after(players, tiles, now)[p] == tiles.mined()[p]
        },
        !report.mined@.contains(p) && !tiles.mined().contains_key(p) ==> !mined_after(
            players,
            tiles,
            now,
        ).contains_key(p),
{
}

/// A progress update reports as total the mining duration of the tile being
/// mined: for every tile whose type can be mined in `n` ticks, the total is
/// `n`, so a miner that started that tile at `n` ticks sees its progress run
/// from `1 / n` up.
pub proof fn lemma_progress_total_is_duration(tiles: TileManager, pos: TilePos, t: TileType, n: u32)
    requires
        tiles.tile_at(pos) == Some(t),
        mine_ticks_of(t) == Some(n),
    ensures
        total_ticks(tiles, pos) == n,
{
}

/// Every progress entry of a mining report carries, as total, the mining
/// duration of the tile at its position (1 for a tile that cannot be mined),
/// and one tick fewer than the miner had.
pub proof fn lemma_reported_progress<C>(
    players: Map<u64, ServerPlayer<C>>,
    tiles: TileManager,
    report: MiningReport,
    e: MiningProgress,
)
    requires
        mining_reported(players, tiles, report),
        report.progressed@.contains(e),
    ensures
        tiles.tile_at(e.pos) is Some,
        mine_ticks_of(tiles.tile_at(e.pos)->0) matches Some(n) ==> e.total_ticks == n,
        mine_ticks_of(tiles.tile_at(e.pos)->0) is None ==> e.total_ticks == 1,
        players.contains_key(e.player),
        (players[e.player].mining matches Some(m) && m.pos == e.pos && m.ticks_remaining == e.ticks_remaining + 1
            && m.ticks_remaining > 1),
{
}

/// The mining state left after `n` ticks of mining on an unchanged tile
/// layer.
pub open spec fn mining_after_ticks(tiles: TileManager, m: Option<MiningState>, n: nat) -> Option<MiningState>
    decreases n,
{
    if n == 0 {
        m
    } else {
        mining_after_ticks(tiles, mining_after(step_of(tiles, m)), (n - 1) as nat)
    }
}

/// Mining a tile takes exactly as many ticks as its type says: started on a
/// tile of type `t` that stays in place, mining progresses for
/// `mine_ticks_of(t) - 1` ticks and completes on the next one.
pub proof fn lemma_mining_takes_mine_ticks(tiles: TileManager, pos: TilePos)
    requires
        tiles.tile_at(pos) is Some,
        mine_ticks_of(tiles.tile_at(pos)->0) is Some,
    ensures
        ({
            let n = mine_ticks_of(tiles.tile_at(pos)->0)->0;
            let start = Some(MiningState { pos, ticks_remaining: n });
            &&& forall|k: nat|
                k + 1 < n ==> #[trigger] step_of(tiles, mining_after_ticks(tiles, start, k))
                    is Progressed
            &&& step_of(tiles, mining_after_ticks(tiles, start, (n - 1) as nat)) == MiningStep::Completed(pos)
        }),
{
    let n = mine_ticks_of(tiles.tile_at(pos)->0)->0;
    let start = Some(MiningState { pos, ticks_remaining: n });
    assert forall|k: nat| k < n implies #[trigger] mining_after_ticks(tiles, start, k) == Some(
        MiningState { pos, ticks_remaining: (n - k) as u32 },
    ) by {
        lemma_mining_countdown(tiles, pos, n, k);
    }
}

proof fn lemma_mining_countdown(tiles: TileManager, pos: TilePos, n: u32, k: nat)
    requires
        tiles.tile_at(pos) is Some,
        k < n,
    ensures
        mining_after_ticks(tiles, Some(MiningState { pos, ticks_remaining: n }), k) == Some(
            MiningState { pos, ticks_remaining: (n - k) as u32 },
        ),
    decreases k,
{
    if k > 0 {
        let next = Some(MiningState { pos, ticks_remaining: (n - 1) as u32 });
        assert(mining_after(step_of(tiles, Some(MiningState { pos, ticks_remaining: n }))) == next);
        lemma_mining_countdown(tiles, pos, (n - 1) as u32, (k - 1) as nat);
    }
}

impl<C> WorldInstance<C> {
    /// Most players the instance admits.
    pub open spec fn capacity(&self) -> usize {
        self.max_players
    }

    /// The instance's invariant: the spatial grid and the tile layer are well
    /// formed, the roster
    /// holds no more players than the capacity, each player is filed under
    /// its own id, and each player stands in the grid at its cell.
    pub open spec fn wf(&self) -> bool {
        &&& self.spatial.wf()
        &&& self.tiles.wf()
        &&& self.players@.len() <= self.capacity()
        &&& forall|id: u64| #[trigger] self.players@.contains_key(id) ==> self.players@[id].id == id
        &&& forall|id: u64|
            #[trigger] self.players@.contains_key(id) ==> self.spatial.members(
                self.players@[id].cell,
            ).contains(id)
    }

    pub fn new(id: WorldId, max_players: usize) -> (inst: Self)
        ensures
            inst.wf(),
            inst.id@ == id@,
            inst.tick == 0,
            inst.players@ == Map::<u64, ServerPlayer<C>>::empty(),
            inst.spatial.cells() == Map::<(i32, i32), Set<u64>>::empty(),
            inst.tiles.originals() == Map::<TilePos, TileType>::empty(),
            inst.tiles.mined() == Map::<TilePos, u64>::empty(),
            inst.capacity() == max_players,
    {
        WorldInstance {
            id,
            tick: 0,
            players: HashMap::new(),
            spatial: SpatialGrid::new(),
            tiles: TileManager::new(),
            max_players,
        }
    }

    pub fn player_count(&self) -> (n: usize)
        ensures
            n == self.players@.len(),
    {
        self.players.len()
    }

    pub fn is_full(&self) -> (full: bool)
        ensures
            full == (self.players@.len() >= self.capacity()),
    {
        self.players.len() >= self.max_players
    }

    /// Admits `player` at `spawn_cell` unless the instance is full. On
    /// admission, hands back the players near the spawn cell (before the
    /// newcomer was placed) and the mined tiles, for the network layer to
    /// announce the newcomer and to brief it.
    pub fn add_player(&mut self, player: ServerPlayer<C>, spawn_cell: (i32, i32), cell_radius: i32) -> (arrival: Option<Arrival>)
        requires
            old(self).wf(),
            old(self).players@.len() < old(self).capacity() ==> square_fits(spawn_cell, cell_radius),
        ensures
            final(self).wf(),
            final(self).id == old(self).id,
            final(self).tick == old(self).tick,
            final(self).tiles == old(self).tiles,
            final(self).max_players == old(self).max_players,
            old(self).players@.len() >= old(self).capacity() ==> {
                &&& arrival is None
                &&& final(self).players@ == old(self).players@
                &&& final(self).spatial == old(self).spatial
            },
            old(self).players@.len() < old(self).capacity() ==> {
                &&& arrival is Some
                &&& final(self).players@ == old(self).players@.insert(
                    player.id,
                    ServerPlayer { cell: spawn_cell, ..player },
                )
                &&& final(self).spatial.cells() == old(self).spatial.cells().insert(
                    spawn_cell,
                    old(self).spatial.members(spawn_cell).insert(player.id),
                )
                &&& forall|id: u64|
                    arrival->0.nearby@.contains(id) <==> near(
                        old(self).spatial.occupancy(),
                        id,
                        spawn_cell,
                        cell_radius,
                    )
                &&& forall|id: u64|
                    #[trigger] arrival->0.nearby@.to_multiset().count(id) == near_count(
                        old(self).spatial.occupancy(),
                        id,
                        spawn_cell,
                        cell_radius,
                    )
                &&& arrival->0.nearby@ == scan_order(old(self).spatial.ordering(), spawn_cell, cell_radius)
                &&& arrival->0.mined@.no_duplicates()
                &&& forall|p: TilePos|
                    arrival->0.mined@.contains(p) <==> old(self).tiles.mined().contains_key(p)
            },
    {
        if self.is_full() {
            return None;
        }
        let id = player.id;
        let nearby = self.spatial.query_nearby(spawn_cell, cell_radius);
        self.spatial.insert(id, spawn_cell);
        let mut player = player;
        player.cell = spawn_cell;
        self.players.insert(id, player);
        let mined = self.tiles.get_mined_tiles();
        proof {
            assert forall|k: u64| #[trigger] self.players@.contains_key(k) implies self.spatial.members(
                self.players@[k].cell,
            ).contains(k) by {
                if k != id {
                    assert(old(self).players@.contains_key(k));
                }
            }
            assert(self.players@.len() <= self.capacity()) by {
                if old(self).players@.contains_key(id) {
                    assert(self.players@.dom() =~= old(self).players@.dom());
                } else {
                    assert(self.players@.dom() =~= old(self).players@.dom().insert(id));
                }
            }
        }
        Some(Arrival { nearby, mined })
    }

    /// Removes a player and returns it (for transfers), together with the
    /// players near the cell it left, who are to be told it is gone.
    pub fn take_player(&mut self, id: u64, cell_radius: i32) -> (taken: Option<(ServerPlayer<C>, Vec<u64>)>)
        requires
            old(self).wf(),
            old(self).players@.contains_key(id) ==> square_fits(old(self).players@[id].cell, cell_radius),
        ensures
            final(self).wf(),
            final(self).id == old(self).id,
            final(self).tick == old(self).tick,
            final(self).tiles == old(self).tiles,
            final(self).max_players == old(self).max_players,
            !old(self).players@.contains_key(id) ==> {
                &&& taken is None
                &&& final(self).players@ == old(self).players@
                &&& final(self).spatial == old(self).spatial
            },
            old(self).players@.contains_key(id) ==> {
                let p = old(self).players@[id];
                &&& taken is Some
                &&& (taken->0).0 == p
                &&& final(self).players@ == old(self).players@.remove(id)
                &&& forall|c: (i32, i32)|
                    #[trigger] final(self).spatial.members(c) == if c == p.cell {
                        old(self).spatial.members(c).remove(id)
                    } else {
                        old(self).spatial.members(c)
                    }
                &&& forall|other: u64|
                    (taken->0).1@.contains(other) <==> near(
                        final(self).spatial.occupancy(),
                        other,
                        p.cell,
                        cell_radius,
                    )
                &&& (taken->0).1@ == scan_order(final(self).spatial.ordering(), p.cell, cell_radius)
                &&& forall|other: u64|
                    #[trigger] (taken->0).1@.to_multiset().count(other) == near_count(
                        final(self).spatial.occupancy(),
                        other,
                        p.cell,
                        cell_radius,
                    )
            },
    {
        match self.players.remove(&id) {
            None => None,
            Some(player) => {
                let cell = player.cell;
                self.spatial.remove(id, cell);
                let nearby = self.spatial.query_nearby(cell, cell_radius);
                proof {
                    assert forall|c: (i32, i32)|
                        #[trigger] self.spatial.members(c) == if c == cell {
                            old(self).spatial.members(c).remove(id)
                        } else {
                            old(self).spatial.members(c)
                        } by {
                        if c == cell && old(self).spatial.members(c).remove(id).is_empty() {
                            assert(self.spatial.members(c) =~= old(self).spatial.members(c).remove(id));
                        }
                    }
                    assert forall|k: u64| #[trigger] self.players@.contains_key(k) implies self.spatial.members(
                        self.players@[k].cell,
                    ).contains(k) by {
                        assert(old(self).players@.contains_key(k));
                        assert(self.spatial.members(self.players@[k].cell) == if self.players@[k].cell == cell {
                            old(self).spatial.members(self.players@[k].cell).remove(id)
                        } else {
                            old(self).spatial.members(self.players@[k].cell)
                        });
                    }
                    assert(self.players@.dom() =~= old(self).players@.dom().remove(id));
                }
                Some((player, nearby))
            },
        }
    }

    /// Removes a player; hands back the players near the cell it left, who
    /// are to be told it is gone (`None` if there was no such player).
    pub fn remove_player(&mut self, id: u64, cell_radius: i32) -> (nearby: Option<Vec<u64>>)
        requires
            old(self).wf(),
            old(self).players@.contains_key(id) ==> square_fits(old(self).players@[id].cell, cell_radius),
        ensures
            final(self).wf(),
            final(self).id == old(self).id,
            final(self).tick == old(self).tick,
            final(self).tiles == old(self).tiles,
            final(self).max_players == old(self).max_players,
            !old(self).players@.contains_key(id) ==> {
                &&& nearby is None
                &&& final(self).players@ == old(self).players@
                &&& final(self).spatial == old(self).spatial
            },
            old(self).players@.contains_key(id) ==> {
                let p = old(self).players@[id];
                &&& nearby is Some
                &&& final(self).players@ == old(self).players@.remove(id)
                &&& forall|c: (i32, i32)|
                    #[trigger] final(self).spatial.members(c) == if c == p.cell {
                        old(self).spatial.members(c).remove(id)
                    } else {
                        old(self).spatial.members(c)
                    }
                &&& forall|other: u64|
                    nearby->0@.contains(other) <==> near(
                        final(self).spatial.occupancy(),
                        other,
                        p.cell,
                        cell_radius,
                    )
                &&& nearby->0@ == scan_order(final(self).spatial.ordering(), p.cell, cell_radius)
                &&& forall|other: u64|
                    #[trigger] nearby->0@.to_multiset().count(other) == near_count(
                        final(self).spatial.occupancy(),
                        other,
                        p.cell,
                        cell_radius,
                    )
            },
    {
        match self.take_player(id, cell_radius) {
            Some((_player, nearby)) => Some(nearby),
            None => None,
        }
    }

    /// Applies the outcome of a movement input to a player: records its
    /// sequence number, moves it to `new_cell` in the grid, and stops its
    /// mining if the input `moved` it. Returns whether mining was stopped
    /// (the player is then told so).
    pub fn apply_input(&mut self, player_id: u64, sequence: u32, moved: bool, new_cell: (i32, i32)) -> (cancelled: bool)
        requires
            old(self).wf(),
        ensures
            final(self).wf(),
            final(self).id == old(self).id,
            final(self).tick == old(self).tick,
            final(self).tiles == old(self).tiles,
            final(self).max_players == old(self).max_players,
            !old(self).players@.contains_key(player_id) ==> {
                &&& !cancelled
                &&& final(self).players@ == old(self).players@
                &&& final(self).spatial == old(self).spatial
            },
            old(self).players@.contains_key(player_id) ==> {
                let p = old(self).players@[player_id];
                &&& cancelled == (p.mining is Some && moved)
                &&& final(self).players@ == old(self).players@.insert(
                    player_id,
                    ServerPlayer {
                        last_input_seq: sequence,
                        cell: new_cell,
                        mining: if cancelled { None } else { p.mining },
                        ..p
                    },
                )
                &&& p.cell == new_cell ==> final(self).spatial == old(self).spatial
                &&& p.cell != new_cell ==> forall|c: (i32, i32)|
                    #[trigger] final(self).spatial.members(c) == if c == new_cell {
                        old(self).spatial.members(c).insert(player_id)
                    } else if c == p.cell {
                        old(self).spatial.members(c).remove(player_id)
                    } else {
                        old(self).spatial.members(c)
                    }
            },
    {
        match self.players.remove(&player_id) {
            None => false,
            Some(mut player) => {
                let old_cell = player.cell;
                player.last_input_seq = sequence;
                let cancelled = player.mining.is_some() && moved;
                if cancelled {
                    player.mining = None;
                }
                player.cell = new_cell;
                if old_cell.0 != new_cell.0 || old_cell.1 != new_cell.1 {
                    self.spatial.update(player_id, old_cell, new_cell);
                }
                self.players.insert(player_id, player);
                proof {
                    assert(self.players@.dom() =~= old(self).players@.dom());
                    assert forall|k: u64| #[trigger] self.players@.contains_key(k) implies self.spatial.members(
                        self.players@[k].cell,
                    ).contains(k) by {
                        if k != player_id {
                            assert(old(self).players@.contains_key(k));
                            let kc = self.players@[k].cell;
                            assert(old(self).spatial.members(kc).contains(k));
                            if old_cell != new_cell {
                                assert(self.spatial.members(kc) == if kc == new_cell {
                                    old(self).spatial.members(kc).insert(player_id)
                                } else if kc == old_cell {
                                    old(self).spatial.members(kc).remove(player_id)
                                } else {
                                    old(self).spatial.members(kc)
                                });
                            }
                        } else if old_cell != new_cell {
                            assert(self.spatial.members(new_cell) == old(self).spatial.members(new_cell).insert(player_id));
                        }
                    }
                }
                cancelled
            },
        }
    }

    /// Starts `player_id` mining the tile at `pos`, if that tile is there and
    /// can be mined.
    pub fn start_mining(&mut self, player_id: u64, pos: TilePos)
        requires
            old(self).wf(),
        ensures
            final(self).wf(),
            final(self).id == old(self).id,
            final(self).tick == old(self).tick,
            final(self).tiles == old(self).tiles,
            final(self).spatial == old(self).spatial,
            final(self).max_players == old(self).max_players,
            final(self).players@ == (match old(self).tiles.tile_at(pos) {
                Some(t) => match mine_ticks_of(t) {
                    Some(n) => if old(self).players@.contains_key(player_id) {
                        old(self).players@.insert(
                            player_id,
                            with_mining(
                                old(self).players@[player_id],
                                Some(MiningState { pos, ticks_remaining: n }),
                            ),
                        )
                    } else {
                        old(self).players@
                    },
                    None => old(self).players@,
                },
                None => old(self).players@,
            }),
    {
        let mine_ticks = match self.tiles.mine_ticks(&pos) {
            Some(t) => t,
            None => return,
        };
        match self.players.remove(&player_id) {
            None => {},
            Some(mut player) => {
                player.mining = Some(MiningState { pos, ticks_remaining: mine_ticks });
                self.players.insert(player_id, player);
                proof {
                    assert(self.players@.dom() =~= old(self).players@.dom());
                    assert forall|k: u64| #[trigger] self.players@.contains_key(k) implies self.spatial.members(
                        self.players@[k].cell,
                    ).contains(k) by {
                        assert(old(self).players@.contains_key(k));
                    }
                }
            },
        }
    }

    /// Advances every miner by one tick: a miner whose tile is gone stops, a
    /// miner on its last tick stops and the tile is mined, any other miner
    /// goes on with one tick fewer.
    fn step_miners(&mut self) -> (res: (Vec<MiningProgress>, Vec<u64>, Vec<(u64, TilePos)>))
        requires
            old(self).wf(),
        ensures
            final(self).wf(),
            final(self).id == old(self).id,
            final(self).tick == old(self).tick,
            final(self).tiles == old(self).tiles,
            final(self).spatial == old(self).spatial,
            final(self).max_players == old(self).max_players,
            final(self).players@.dom() == old(self).players@.dom(),
            forall|id: u64|
                #[trigger] old(self).players@.contains_key(id) ==> final(self).players@[id]
                    == stepped(old(self).tiles, old(self).players@[id]),
            res.1@.no_duplicates(),
            forall|id: u64|
                #[trigger] res.1@.contains(id) <==> (old(self).players@.contains_key(id) && step_of(
                    old(self).tiles,
                    old(self).players@[id].mining,
                ) is Cancelled),
            res.0@.no_duplicates(),
            forall|e: MiningProgress|
                #[trigger] res.0@.contains(e) <==> (old(self).players@.contains_key(e.player)
                    && step_of(old(self).tiles, old(self).players@[e.player].mining)
                    == MiningStep::Progressed(MiningState { pos: e.pos, ticks_remaining: e.ticks_remaining })
                    && e.total_ticks == total_ticks(old(self).tiles, e.pos)),
            forall|e: (u64, TilePos)|
                #[trigger] res.2@.contains(e) <==> (old(self).players@.contains_key(e.0) && step_of(
                    old(self).tiles,
                    old(self).players@[e.0].mining,
                ) == MiningStep::Completed(e.1)),
    {
        let keys = map_keys(&self.players);
        let ghost old_players = self.players@;
        let ghost tiles = self.tiles;
        let mut progressed: Vec<MiningProgress> = Vec::new();
        let mut cancelled: Vec<u64> = Vec::new();
        let mut completed: Vec<(u64, TilePos)> = Vec::new();
        for i in 0..keys.len()
            invariant
                keys@.no_duplicates(),
                keys@.to_set() == old_players.dom(),
                old_players == old(self).players@,
                tiles == old(self).tiles,
                self.tiles == old(self).tiles,
                self.spatial == old(self).spatial,
                self.id == old(self).id,
                self.tick == old(self).tick,
                self.max_players == old(self).max_players,
                self.players@.dom() == old_players.dom(),
                forall|id: u64|
                    #![trigger self.players@[id]]
                    old_players.contains_key(id) ==> self.players@[id] == if keys@.take(i as int).contains(id) {
                        stepped(tiles, old_players[id])
                    } else {
                        old_players[id]
                    },
                cancelled@.no_duplicates(),
                forall|id: u64|
                    #[trigger] cancelled@.contains(id) <==> (keys@.take(i as int).contains(id)
                        && step_of(tiles, old_players[id].mining) is Cancelled),
                progressed@.no_duplicates(),
                forall|e: MiningProgress|
                    #[trigger] progressed@.contains(e) <==> (keys@.take(i as int).contains(e.player)
                        && step_of(tiles, old_players[e.player].mining)
                        == MiningStep::Progressed(MiningState { pos: e.pos, ticks_remaining: e.ticks_remaining })
                        && e.total_ticks == total_ticks(tiles, e.pos)),
                forall|e: (u64, TilePos)|
                    #[trigger] completed@.contains(e) <==> (keys@.take(i as int).contains(e.0)
                        && step_of(tiles, old_players[e.0].mining) == MiningStep::Completed(e.1)),
        {
            let pid = keys[i];
            assert(keys@.take(i + 1) == keys@.take(i as int).push(pid));
            assert(!keys@.take(i as int).contains(pid)) by {
                if keys@.take(i as int).contains(pid) {
                    let j = choose|j: int| 0 <= j < i && keys@.take(i as int)[j] == pid;
                    assert(keys@[j] == keys@[i as int]);
                }
            }
            assert(old_players.contains_key(pid)) by {
                assert(keys@.to_set().contains(pid));
            }
            let ghost players_before = self.players@;
            let mut player = match self.players.remove(&pid) {
                Some(p) => p,
                None => {
                    assert(false);
                    return (progressed, cancelled, completed);
                },
            };
            assert(player == old_players[pid]);
            let ghost c0 = cancelled@;
            let ghost p0 = progressed@;
            let ghost d0 = completed@;
            match player.mining {
                None => {},
                Some(mining) => {
                    if !self.tiles.is_tile_present(&mining.pos) {
                        cancelled.push(pid);
                        player.mining = None;
                        assert(!c0.contains(pid));
                    } else if mining.ticks_remaining <= 1 {
                        completed.push((pid, mining.pos));
                        player.mining = None;
                    } else {
                        let remaining = mining.ticks_remaining - 1;
                        let total = match self.tiles.mine_ticks(&mining.pos) {
                            Some(n) => n,
                            None => 1,
                        };
                        let entry = MiningProgress {
                            player: pid,
                            pos: mining.pos,
                            ticks_remaining: remaining,
                            total_ticks: total,
                        };
                        assert(!p0.contains(entry));
                        progressed.push(entry);
                        player.mining = Some(MiningState { pos: mining.pos, ticks_remaining: remaining });
                        assert forall|e: MiningProgress| p0.contains(e) implies e.player != pid by {}
                    }
                },
            }
            self.players.insert(pid, player);
        }
        assert(keys@.take(keys.len() as int) == keys@);
        assert forall|id: u64| old_players.contains_key(id) implies #[trigger] keys@.contains(id) by {
            assert(keys@.to_set().contains(id));
        }
        assert(self.players@.dom() =~= old_players.dom());
        assert forall|k: u64| #[trigger] self.players@.contains_key(k) implies self.spatial.members(
            self.players@[k].cell,
        ).contains(k) by {
            assert(old_players.contains_key(k));
        }
        (progressed, cancelled, completed)
    }

    /// Mines, at the current tick, the tiles whose mining completed; each
    /// tile once, however many miners finished it.
    fn complete_mining(&mut self, completed: &Vec<(u64, TilePos)>) -> (mined: Vec<TilePos>)
        requires
            old(self).tiles.wf(),
            forall|j: int|
                0 <= j < completed@.len() ==> #[trigger] old(self).tiles.tile_at(completed@[j].1) is Some,
            forall|j: int|
                0 <= j < completed@.len() ==> old(self).tick + respawn_ticks_of(
                    #[trigger] old(self).tiles.tile_at(completed@[j].1)->0,
                ) <= u64::MAX,
        ensures
            final(self).id == old(self).id,
            final(self).tick == old(self).tick,
            final(self).players == old(self).players,
            final(self).spatial == old(self).spatial,
            final(self).max_players == old(self).max_players,
            final(self).tiles.originals() == old(self).tiles.originals(),
            final(self).tiles.wf(),
            forall|p: TilePos|
                #[trigger] final(self).tiles.mined().contains_key(p) <==> (old(self).tiles.mined().contains_key(p)
                    || exists|j: int| 0 <= j < completed@.len() && completed@[j].1 == p),
            forall|p: TilePos|
                #[trigger] final(self).tiles.mined().contains_key(p) ==> final(self).tiles.mined()[p] == if exists|j: int|
                    0 <= j < completed@.len() && completed@[j].1 == p {
                    (old(self).tick + respawn_ticks_of(old(self).tiles.tile_at(p)->0)) as u64
                } else {
                    old(self).tiles.mined()[p]
                },
            mined@.no_duplicates(),
            forall|p: TilePos|
                #[trigger] mined@.contains(p) <==> exists|j: int| 0 <= j < completed@.len() && completed@[j].1 == p,
    {
        let ghost tiles0 = self.tiles;
        let ghost poss = completed@.map_values(|e: (u64, TilePos)| e.1);
        let mut mined: Vec<TilePos> = Vec::new();
        for i in 0..completed.len()
            invariant
                poss == completed@.map_values(|e: (u64, TilePos)| e.1),
                tiles0 == old(self).tiles,
                forall|j: int| 0 <= j < completed@.len() ==> #[trigger] tiles0.tile_at(completed@[j].1) is Some,
                forall|j: int|
                    0 <= j < completed@.len() ==> old(self).tick + respawn_ticks_of(
                        #[trigger] tiles0.tile_at(completed@[j].1)->0,
                    ) <= u64::MAX,
                self.id == old(self).id,
                self.tick == old(self).tick,
                self.players == old(self).players,
                self.spatial == old(self).spatial,
                self.max_players == old(self).max_players,
                self.tiles.originals() == tiles0.originals(),
                self.tiles.wf(),
                forall|p: TilePos|
                    #[trigger] self.tiles.mined().contains_key(p) <==> (tiles0.mined().contains_key(p)
                        || poss.take(i as int).contains(p)),
                forall|p: TilePos|
                    #[trigger] self.tiles.mined().contains_key(p) ==> self.tiles.mined()[p] == if poss.take(
                        i as int,
                    ).contains(p) {
                        (old(self).tick + respawn_ticks_of(tiles0.tile_at(p)->0)) as u64
                    } else {
                        tiles0.mined()[p]
                    },
                mined@.no_duplicates(),
                forall|p: TilePos| #[trigger] mined@.contains(p) <==> poss.take(i as int).contains(p),
        {
            let pos = completed[i].1;
            assert(poss[i as int] == pos);
            assert(poss.take(i + 1) == poss.take(i as int).push(pos));
            assert(tiles0.tile_at(completed@[i as int].1) is Some);
            let ghost before = mined@;
            let ghost was_done = poss.take(i as int).contains(pos);
            let r = self.tiles.mine_tile(&pos, self.tick);
            if r.is_some() {
                assert(!was_done);
                assert(!before.contains(pos));
                mined.push(pos);
            } else {
                assert(was_done);
            }
        }
        assert(poss.take(completed.len() as int) == poss);
        assert forall|p: TilePos|
            poss.contains(p) <==> exists|j: int| 0 <= j < completed@.len() && completed@[j].1 == p by {
            if poss.contains(p) {
                let j = choose|j: int| 0 <= j < poss.len() && poss[j] == p;
                assert(completed@[j].1 == p);
            }
            if exists|j: int| 0 <= j < completed@.len() && completed@[j].1 == p {
                let j = choose|j: int| 0 <= j < completed@.len() && completed@[j].1 == p;
                assert(poss[j] == p);
            }
        }
        mined
    }

    /// Processes mining ticks for all active miners.
    fn process_mining(&mut self) -> (report: MiningReport)
        requires
            old(self).wf(),
            respawns_fit(old(self).players@, old(self).tiles, old(self).tick),
        ensures
            final(self).wf(),
            final(self).id == old(self).id,
            final(self).tick == old(self).tick,
            final(self).spatial == old(self).spatial,
            final(self).max_players == old(self).max_players,
            final(self).players@.dom() == old(self).players@.dom(),
            forall|id: u64|
                #[trigger] old(self).players@.contains_key(id) ==> final(self).players@[id]
                    == stepped(old(self).tiles, old(self).players@[id]),
            final(self).tiles.originals() == old(self).tiles.originals(),
            final(self).tiles.mined() == mined_after(old(self).players@, old(self).tiles, old(self).tick),
            mining_reported(old(self).players@, old(self).tiles, report),
    {
        let ghost players0 = self.players@;
        let ghost tiles0 = self.tiles;
        let (progressed, cancelled, completed) = self.step_miners();
        assert forall|j: int| 0 <= j < completed@.len() implies #[trigger] self.tiles.tile_at(
            completed@[j].1,
        ) is Some && self.tick + respawn_ticks_of(self.tiles.tile_at(completed@[j].1)->0) <= u64::MAX by {
            assert(completed@.contains(completed@[j]));
        }
        let mined = self.complete_mining(&completed);
        proof {
            assert forall|p: TilePos|
                completes_at(players0, tiles0, p) <==> exists|j: int|
                    0 <= j < completed@.len() && completed@[j].1 == p by {
                if completes_at(players0, tiles0, p) {
                    let id = choose|id: u64|
                        players0.contains_key(id) && #[trigger] step_of(tiles0, players0[id].mining)
                            == MiningStep::Completed(p);
                    assert(completed@.contains((id, p)));
                }
                if exists|j: int| 0 <= j < completed@.len() && completed@[j].1 == p {
                    let j = choose|j: int| 0 <= j < completed@.len() && completed@[j].1 == p;
                    assert(completed@.contains(completed@[j]));
                }
            }
            assert(self.tiles.mined() =~= mined_after(players0, tiles0, self.tick));
        }
        MiningReport { progressed, cancelled, mined }
    }

    /// Processes tile respawns at the current tick.
    fn process_respawns(&mut self) -> (respawned: Vec<(TilePos, TileType)>)
        ensures
            final(self).id == old(self).id,
            final(self).tick == old(self).tick,
            final(self).players == old(self).players,
            final(self).spatial == old(self).spatial,
            final(self).max_players == old(self).max_players,
            final(self).tiles.originals() == old(self).tiles.originals(),
            final(self).tiles.mined() == still_mined(old(self).tiles.mined(), old(self).tick),
            old(self).tiles.wf() ==> final(self).tiles.wf(),
            respawned@.no_duplicates(),
            forall|e: (TilePos, TileType)|
                respawned@.contains(e) <==> due_respawn(
                    old(self).tiles.originals(),
                    old(self).tiles.mined(),
                    old(self).tick,
                    e,
                ),
    {
        self.tiles.process_respawns(self.tick)
    }

    /// Runs one server tick: advances the tick counter, then mining, then
    /// tile respawns. Hands back what the network layer announces.
    pub fn tick(&mut self) -> (report: TickReport)
        requires
            old(self).wf(),
            old(self).tick < u64::MAX,
            respawns_fit(old(self).players@, old(self).tiles, (old(self).tick + 1) as u64),
        ensures
            final(self).wf(),
            final(self).tick == old(self).tick + 1,
            final(self).id == old(self).id,
            final(self).spatial == old(self).spatial,
            final(self).max_players == old(self).max_players,
            final(self).players@.dom() == old(self).players@.dom(),
            forall|id: u64|
                #[trigger] old(self).players@.contains_key(id) ==> final(self).players@[id]
                    == stepped(old(self).tiles, old(self).players@[id]),
            mining_reported(old(self).players@, old(self).tiles, report.mining),
            final(self).tiles.originals() == old(self).tiles.originals(),
            final(self).tiles.mined() == still_mined(
                mined_after(old(self).players@, old(self).tiles, final(self).tick),
                final(self).tick,
            ),
            report.respawned@.no_duplicates(),
            forall|e: (TilePos, TileType)|
                report.respawned@.contains(e) <==> due_respawn(
                    old(self).tiles.originals(),
                    mined_after(old(self).players@, old(self).tiles, final(self).tick),
                    final(self).tick,
                    e,
                ),
    {
        self.tick = self.tick + 1;
        let mining = self.process_mining();
        let respawned = self.process_respawns();
        TickReport { mining, respawned }
    }

    /// For every player, the players to include in its snapshot: those in
    /// the instance that stand within `cell_radius` cells of its cell, each
    /// once per cell of the square that holds it.
    pub fn snapshot_groups(&self, cell_radius: i32) -> (groups: Vec<(u64, Vec<u64>)>)
        requires
            self.wf(),
            forall|id: u64|
                #[trigger] self.players@.contains_key(id) ==> square_fits(self.players@[id].cell, cell_radius),
        ensures
            groups@.map_values(|g: (u64, Vec<u64>)| g.0).no_duplicates(),
            forall|id: u64|
                self.players@.contains_key(id) <==> exists|i: int| 0 <= i < groups@.len() && #[trigger] groups@[i].0 == id,
            forall|i: int, v: u64|
                0 <= i < groups@.len() ==> #[trigger] groups@[i].1@.to_multiset().count(v) == if self.players@.contains_key(v) {
                    near_count(self.spatial.occupancy(), v, self.players@[groups@[i].0].cell, cell_radius)
                } else {
                    0
                },
            forall|i: int|
                0 <= i < groups@.len() ==> #[trigger] groups@[i].1@ == scan_order(
                    self.spatial.ordering(),
                    self.players@[groups@[i].0].cell,
                    cell_radius,
                ).filter(|v: u64| self.players@.contains_key(v)),
    {
        broadcast use vstd::seq_lib::group_to_multiset_ensures;
        let keys = map_keys(&self.players);
        let mut groups: Vec<(u64, Vec<u64>)> = Vec::new();
        for i in 0..keys.len()
            invariant
                self.wf(),
                forall|id: u64|
                    #[trigger] self.players@.contains_key(id) ==> square_fits(self.players@[id].cell, cell_radius),
                keys@.no_duplicates(),
                keys@.to_set() == self.players@.dom(),
                groups@.map_values(|g: (u64, Vec<u64>)| g.0) == keys@.take(i as int),
                forall|j: int, v: u64|
                    0 <= j < groups@.len() ==> #[trigger] groups@[j].1@.to_multiset().count(v) == if self.players@.contains_key(v) {
                        near_count(self.spatial.occupancy(), v, self.players@[groups@[j].0].cell, cell_radius)
                    } else {
                        0
                    },
                forall|j: int|
                    0 <= j < groups@.len() ==> #[trigger] groups@[j].1@ == scan_order(
                        self.spatial.ordering(),
                        self.players@[groups@[j].0].cell,
                        cell_radius,
                    ).filter(|v: u64| self.players@.contains_key(v)),
        {
            let pid = keys[i];
            assert(self.players@.contains_key(pid)) by {
                assert(keys@.to_set().contains(pid));
            }
            let cell = match self.players.get(&pid) {
                Some(p) => p.cell,
                None => {
                    assert(false);
                    (0, 0)
                },
            };
            let ids = self.spatial.query_nearby(cell, cell_radius);
            let mut present: Vec<u64> = Vec::new();
            let ghost pred = |v: u64| self.players@.contains_key(v);
            assert(ids@.take(0) =~= Seq::<u64>::empty());
            for j in 0..ids.len()
                invariant
                    forall|v: u64|
                        #[trigger] present@.to_multiset().count(v) == if self.players@.contains_key(v) {
                            ids@.take(j as int).to_multiset().count(v)
                        } else {
                            0
                        },
                    pred == (|v: u64| self.players@.contains_key(v)),
                    present@ == ids@.take(j as int).filter(pred),
            {
                let v = ids[j];
                assert(ids@.take(j + 1) == ids@.take(j as int).push(v));
                proof {
                    ids@.take(j as int).lemma_filter_push(v, pred);
                }
                if self.players.contains_key(&v) {
                    present.push(v);
                }
            }
            assert(ids@.take(ids.len() as int) == ids@);
            assert(present@ == ids@.filter(pred));
            let ghost before = groups@;
            groups.push((pid, present));
            assert(keys@.take(i + 1) == keys@.take(i as int).push(pid));
            assert(groups@.map_values(|g: (u64, Vec<u64>)| g.0) =~= before.map_values(|g: (u64, Vec<u64>)| g.0).push(pid));
        }
        assert(keys@.take(keys.len() as int) == keys@);
        let ghost firsts = groups@.map_values(|g: (u64, Vec<u64>)| g.0);
        assert forall|id: u64|
            self.players@.contains_key(id) <==> exists|i: int| 0 <= i < groups@.len() && #[trigger] groups@[i].0 == id by {
            if self.players@.contains_key(id) {
                assert(keys@.to_set().contains(id));
                let i = choose|i: int| 0 <= i < keys@.len() && keys@[i] == id;
                assert(firsts[i] == id);
                assert(groups@[i].0 == id);
            }
            if exists|i: int| 0 <= i < groups@.len() && #[trigger] groups@[i].0 == id {
                let i = choose|i: int| 0 <= i < groups@.len() && #[trigger] groups@[i].0 == id;
                assert(firsts[i] == id);
                assert(keys@.contains(id));
                assert(keys@.to_set().contains(id));
            }
        }
        groups
    }

    /// Stops `player_id` mining.
    pub fn stop_mining(&mut self, player_id: u64)
        requires
            old(self).wf(),
        ensures
            final(self).wf(),
            final(self).id == old(self).id,
            final(self).tick == old(self).tick,
            final(self).tiles == old(self).tiles,
            final(self).spatial == old(self).spatial,
            final(self).max_players == old(self).max_players,
            final(self).players@ == if old(self).players@.contains_key(player_id) {
                old(self).players@.insert(player_id, with_mining(old(self).players@[player_id], None))
            } else {
                old(self).players@
            },
    {
        match self.players.remove(&player_id) {
            None => {},
            Some(mut player) => {
                player.mining = None;
                self.players.insert(player_id, player);
                proof {
                    assert(self.players@.dom() =~= old(self).players@.dom());
                    assert forall|k: u64| #[trigger] self.players@.contains_key(k) implies self.spatial.members(
                        self.players@[k].cell,
                    ).contains(k) by {
                        assert(old(self).players@.contains_key(k));
                    }
                }
            },
        }
    }
}

} // verus!
