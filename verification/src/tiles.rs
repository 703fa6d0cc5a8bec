use std::collections::HashMap;
use vstd::prelude::*;
use crate::grid::map_keys;
use crate::tile::{TilePos, TileType, lemma_pos_code_bijective, respawn_ticks_of, mine_ticks_of};

verus! {

broadcast use vstd::std_specs::hash::group_hash_axioms, vstd::seq_lib::group_seq_properties;

/// Manages the mining tile layer for a world instance.
pub struct TileManager {
    /// Original tile definitions, filed under `TilePos::code`.
    original_tiles: HashMap<u64, TileType>,
    /// Currently mined tiles and the server tick at which each respawns.
    mined_tiles: HashMap<u64, u64>,
}

/// Reads a map filed under position codes as a map over positions.
pub open spec fn by_position<V>(m: Map<u64, V>) -> Map<TilePos, V> {
    Map::new(|p: TilePos| m.contains_key(p.code()), |p: TilePos| m[p.code()])
}

/// The tile at `pos` as the layer shows it: the original tile, unless it is
/// currently mined.
pub open spec fn visible_tile(
    originals: Map<TilePos, TileType>,
    mined: Map<TilePos, u64>,
    pos: TilePos,
) -> Option<TileType> {
    if mined.contains_key(pos) || !originals.contains_key(pos) {
        None
    } else {
        Some(originals[pos])
    }
}

/// What `process_respawns` hands back for a layer in the state
/// `(originals, mined)` at tick `now`: each mined position whose respawn tick
/// has come and that has an original tile, with that tile.
pub open spec fn due_respawn(
    originals: Map<TilePos, TileType>,
    mined: Map<TilePos, u64>,
    now: u64,
    entry: (TilePos, TileType),
) -> bool {
    &&& mined.contains_key(entry.0)
    &&& mined[entry.0] <= now
    &&& originals.contains_key(entry.0)
    &&& originals[entry.0] == entry.1
}

/// The mined positions that are still waiting for their respawn tick at `now`.
pub open spec fn still_mined(mined: Map<TilePos, u64>, now: u64) -> Map<TilePos, u64> {
    mined.restrict(mined.dom().filter(|p: TilePos| mined[p] > now))
}

/// A tile that is mined disappears, stays away while its respawn tick has
/// not come, and is back with its original type once it has.
pub proof fn lemma_mined_tile_respawns(
    originals: Map<TilePos, TileType>,
    mined: Map<TilePos, u64>,
    pos: TilePos,
    now: u64,
    later: u64,
)
    requires
        visible_tile(originals, mined, pos) is Some,
        now + respawn_ticks_of(visible_tile(originals, mined, pos)->0) <= u64::MAX,
    ensures
        ({
            let t = visible_tile(originals, mined, pos)->0;
            let respawn = (now + respawn_ticks_of(t)) as u64;
            let after = mined.insert(pos, respawn);
            &&& visible_tile(originals, after, pos) is None
            &&& later < respawn ==> visible_tile(originals, still_mined(after, later), pos) is None
            &&& later >= respawn ==> visible_tile(originals, still_mined(after, later), pos) == Some(t)
            &&& later >= respawn ==> due_respawn(originals, after, later, (pos, t))
        }),
{
}

/// Registering a tile makes it visible unless its position is mined.
pub proof fn lemma_added_tile_visible(
    originals: Map<TilePos, TileType>,
    mined: Map<TilePos, u64>,
    pos: TilePos,
    t: TileType,
)
    ensures
        !mined.contains_key(pos) ==> visible_tile(originals.insert(pos, t), mined, pos) == Some(t),
        mined.contains_key(pos) ==> visible_tile(originals.insert(pos, t), mined, pos) is None,
{
}

impl TileManager {
    /// The registered tiles by position.
    pub closed spec fn originals(&self) -> Map<TilePos, TileType> {
        by_position(self.original_tiles@)
    }

    /// The mined positions and their respawn ticks.
    pub closed spec fn mined(&self) -> Map<TilePos, u64> {
        by_position(self.mined_tiles@)
    }

    /// Every mined position is a registered one.
    pub open spec fn wf(&self) -> bool {
        forall|p: TilePos| #[trigger] self.mined().contains_key(p) ==> self.originals().contains_key(p)
    }

    /// The tile at `pos` as the layer shows it now.
    pub open spec fn tile_at(&self, pos: TilePos) -> Option<TileType> {
        visible_tile(self.originals(), self.mined(), pos)
    }

    pub fn new() -> (tm: Self)
        ensures
            tm.originals() == Map::<TilePos, TileType>::empty(),
            tm.mined() == Map::<TilePos, u64>::empty(),
            tm.wf(),
    {
        let tm = TileManager { original_tiles: HashMap::new(), mined_tiles: HashMap::new() };
        assert(tm.originals() =~= Map::<TilePos, TileType>::empty());
        assert(tm.mined() =~= Map::<TilePos, u64>::empty());
        tm
    }

    /// Register a mineable tile
    pub fn add_tile(&mut self, pos: TilePos, tile_type: TileType)
        ensures
            final(self).originals() == old(self).originals().insert(pos, tile_type),
            final(self).mined() == old(self).mined(),
            old(self).wf() ==> final(self).wf(),
    {
        proof {
            lemma_pos_code_bijective();
        }
        let k = pos.to_code();
        self.original_tiles.insert(k, tile_type);
        assert(self.originals() =~= old(self).originals().insert(pos, tile_type));
    }

    /// Check if a tile exists and is not currently mined
    pub fn is_tile_present(&self, pos: &TilePos) -> (present: bool)
        ensures
            present == (self.originals().contains_key(*pos) && !self.mined().contains_key(*pos)),
            present == self.tile_at(*pos) is Some,
    {
        let k = pos.to_code();
        self.original_tiles.contains_key(&k) && !self.mined_tiles.contains_key(&k)
    }

    /// Get the tile type at a position
    pub fn get_tile(&self, pos: &TilePos) -> (tile: Option<TileType>)
        ensures
            tile == self.tile_at(*pos),
    {
        let k = pos.to_code();
        if self.mined_tiles.contains_key(&k) {
            None
        } else {
            match self.original_tiles.get(&k) {
                Some(t) => Some(*t),
                None => None,
            }
        }
    }

    /// Get the mine duration in ticks for a tile.
    pub fn mine_ticks(&self, pos: &TilePos) -> (ticks: Option<u32>)
        ensures
            ticks == (match self.tile_at(*pos) {
                Some(t) => mine_ticks_of(t),
                None => None,
            }),
    {
        match self.get_tile(pos) {
            Some(t) => t.mine_ticks(),
            None => None,
        }
    }

    /// Mark a tile as mined. Returns the respawn tick if successful.
    pub fn mine_tile(&mut self, pos: &TilePos, current_tick: u64) -> (respawn: Option<u64>)
        requires
            old(self).tile_at(*pos) matches Some(t) ==> current_tick + respawn_ticks_of(t)
                <= u64::MAX,
        ensures
            final(self).originals() == old(self).originals(),
            old(self).wf() ==> final(self).wf(),
            match old(self).tile_at(*pos) {
                Some(t) => {
                    &&& respawn == Some((current_tick + respawn_ticks_of(t)) as u64)
                    &&& final(self).mined() == old(self).mined().insert(*pos, respawn->0)
                },
                None => {
                    &&& respawn is None
                    &&& final(self).mined() == old(self).mined()
                },
            },
    {
        proof {
            lemma_pos_code_bijective();
        }
        match self.get_tile(pos) {
            Some(tile_type) => {
                let respawn_tick = current_tick + tile_type.respawn_ticks();
                let k = pos.to_code();
                self.mined_tiles.insert(k, respawn_tick);
                assert(self.mined() =~= old(self).mined().insert(*pos, respawn_tick));
                Some(respawn_tick)
            },
            None => None,
        }
    }

    /// Process respawns: every mined tile whose respawn tick has come is
    /// restored, and the restored tiles that have an original definition are
    /// handed back with their type.
    pub fn process_respawns(&mut self, current_tick: u64) -> (respawned: Vec<(TilePos, TileType)>)
        ensures
            final(self).originals() == old(self).originals(),
            final(self).mined() == still_mined(old(self).mined(), current_tick),
            old(self).wf() ==> final(self).wf(),
            respawned@.no_duplicates(),
            forall|e: (TilePos, TileType)|
                respawned@.contains(e) <==> due_respawn(
                    old(self).originals(),
                    old(self).mined(),
                    current_tick,
                    e,
                ),
    {
        proof {
            lemma_pos_code_bijective();
        }
        let keys = map_keys(&self.mined_tiles);
        let ghost old_mined = self.mined_tiles@;
        let mut respawned: Vec<(TilePos, TileType)> = Vec::new();
        for i in 0..keys.len()
            invariant
                keys@.no_duplicates(),
                keys@.to_set() == old_mined.dom(),
                self.original_tiles@ == old(self).original_tiles@,
                old_mined == old(self).mined_tiles@,
                forall|k: u64|
                    #![trigger self.mined_tiles@.contains_key(k)]
                    self.mined_tiles@.contains_key(k) <==> (old_mined.contains_key(k) && !(
                    keys@.take(i as int).contains(k) && old_mined[k] <= current_tick)),
                forall|k: u64|
                    #![trigger self.mined_tiles@[k]]
                    self.mined_tiles@.contains_key(k) ==> self.mined_tiles@[k] == old_mined[k],
                respawned@.no_duplicates(),
                forall|e: (TilePos, TileType)|
                    #![trigger respawned@.contains(e)]
                    respawned@.contains(e) <==> {
                        &&& keys@.take(i as int).contains(e.0.code())
                        &&& old_mined[e.0.code()] <= current_tick
                        &&& self.original_tiles@.contains_key(e.0.code())
                        &&& self.original_tiles@[e.0.code()] == e.1
                    },
        {
            let k = keys[i];
            assert(keys@.take(i + 1) == keys@.take(i as int).push(k));
            assert(!keys@.take(i as int).contains(k)) by {
                if keys@.take(i as int).contains(k) {
                    let j = choose|j: int| 0 <= j < i && keys@.take(i as int)[j] == k;
                    assert(keys@[j] == keys@[i as int]);
                }
            }
            assert(old_mined.contains_key(k)) by {
                assert(keys@.to_set().contains(k));
            }
            let respawn_tick: u64 = match self.mined_tiles.get(&k) {
                Some(r) => *r,
                None => 0,
            };
            if current_tick >= respawn_tick {
                self.mined_tiles.remove(&k);
                match self.original_tiles.get(&k) {
                    Some(t) => {
                        let pos = TilePos::from_code(k);
                        let ghost before = respawned@;
                        respawned.push((pos, *t));
                        assert forall|e: (TilePos, TileType)|
                            #![trigger respawned@.contains(e)]
                            respawned@.contains(e) <==> {
                                &&& keys@.take(i + 1).contains(e.0.code())
                                &&& old_mined[e.0.code()] <= current_tick
                                &&& self.original_tiles@.contains_key(e.0.code())
                                &&& self.original_tiles@[e.0.code()] == e.1
                            } by {
                            if respawned@.contains(e) && !before.contains(e) {
                                assert(e == (pos, *t));
                            }
                            if e.0.code() == k && keys@.take(i + 1).contains(e.0.code())
                                && self.original_tiles@.contains_key(e.0.code())
                                && self.original_tiles@[e.0.code()] == e.1 {
                                assert(e.0 == pos);
                                assert(respawned@.last() == e);
                            }
                        }
                        assert(respawned@.no_duplicates()) by {
                            assert(!before.contains((pos, *t)));
                        }
                    },
                    None => {
                    },
                }
            }
        }
        assert(keys@.take(keys.len() as int) == keys@);
        assert forall|k: u64| old_mined.contains_key(k) implies #[trigger] keys@.contains(k) by {
            assert(keys@.to_set().contains(k));
        }
        assert(self.mined() =~= still_mined(old(self).mined(), current_tick));
        respawned
    }

    /// Get all currently mined tile positions (for players entering the area).
    pub fn get_mined_tiles(&self) -> (positions: Vec<TilePos>)
        ensures
            positions@.no_duplicates(),
            forall|p: TilePos| positions@.contains(p) <==> self.mined().contains_key(p),
            forall|p: TilePos| #[trigger] positions@.contains(p) ==> self.tile_at(p) is None,
            self.wf() ==> forall|p: TilePos|
                #[trigger] positions@.contains(p) ==> self.originals().contains_key(p),
    {
        proof {
            lemma_pos_code_bijective();
        }
        let keys = map_keys(&self.mined_tiles);
        let mut positions: Vec<TilePos> = Vec::new();
        for i in 0..keys.len()
            invariant
                keys@.no_duplicates(),
                keys@.to_set() == self.mined_tiles@.dom(),
                positions@ == keys@.take(i as int).map_values(|k: u64| TilePos::of_code(k)),
        {
            positions.push(TilePos::from_code(keys[i]));
            assert(keys@.take(i + 1) == keys@.take(i as int).push(keys@[i as int]));
        }
        assert(keys@.take(keys.len() as int) == keys@);
        assert forall|a: int, b: int| 0 <= a < b < positions@.len() implies positions@[a]
            != positions@[b] by {
            assert(keys@[a] != keys@[b]);
        }
        assert forall|p: TilePos| positions@.contains(p) <==> self.mined().contains_key(p) by {
            if self.mined().contains_key(p) {
                assert(keys@.to_set().contains(p.code()));
                let j = choose|j: int| 0 <= j < keys@.len() && keys@[j] == p.code();
                assert(positions@[j] == p);
            }
            if positions@.contains(p) {
                let j = choose|j: int| 0 <= j < positions@.len() && positions@[j] == p;
                assert(keys@.to_set().contains(keys@[j]));
            }
        }
        positions
    }
}

} // verus!
