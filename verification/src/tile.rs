use vstd::prelude::*;
use crate::grid::{grid_code, code_x, code_y, encode_coords, decode_coords, lemma_code_roundtrip, lemma_code_onto};

verus! {

/// A tile position on the grid.
#[derive(Debug, Clone, Copy, PartialEq, Eq, Hash, Structural)]
pub struct TilePos {
    pub x: i32,
    pub y: i32,
}

impl TilePos {
    pub fn new(x: i32, y: i32) -> (pos: Self)
        ensures
            pos.x == x,
            pos.y == y,
    {
        TilePos { x, y }
    }

    /// The `u64` code under which the tile layer files this position.
    pub open spec fn code(self) -> u64 {
        grid_code(self.x, self.y)
    }

    /// The position filed under the code `k`.
    pub open spec fn of_code(k: u64) -> TilePos {
        TilePos { x: code_x(k), y: code_y(k) }
    }

    /// Computes `self.code()`.
    pub fn to_code(&self) -> (k: u64)
        ensures
            k == self.code(),
    {
        encode_coords(self.x, self.y)
    }

    /// Computes `TilePos::of_code(k)`.
    pub fn from_code(k: u64) -> (pos: TilePos)
        ensures
            pos == TilePos::of_code(k),
            pos.code() == k,
    {
        let (x, y) = decode_coords(k);
        TilePos { x, y }
    }
}

/// Codes and positions are in one-to-one correspondence.
pub proof fn lemma_pos_code_bijective()
    ensures
        forall|p: TilePos| #[trigger] TilePos::of_code(p.code()) == p,
        forall|k: u64| (#[trigger] TilePos::of_code(k)).code() == k,
        forall|p: TilePos, q: TilePos| #[trigger] p.code() == #[trigger] q.code() ==> p == q,
{
    assert forall|p: TilePos| #[trigger] TilePos::of_code(p.code()) == p by {
        lemma_code_roundtrip(p.x, p.y);
    }
    assert forall|k: u64| (#[trigger] TilePos::of_code(k)).code() == k by {
        lemma_code_onto(k);
    }
    assert forall|p: TilePos, q: TilePos| #[trigger] p.code() == #[trigger] q.code() implies p == q by {
        lemma_code_roundtrip(p.x, p.y);
        lemma_code_roundtrip(q.x, q.y);
    }
}

/// Tile types that can exist in the mining layer.
#[derive(Debug, Clone, Copy, PartialEq, Eq, Structural)]
pub enum TileType {
    Stone,
    Wood,
    Air,
}

/// Ticks before a mined tile of kind `t` respawns.
pub open spec fn respawn_ticks_of(t: TileType) -> u64 {
    match t {
        TileType::Stone => 200,
        TileType::Wood => 400,
        TileType::Air => 0,
    }
}

/// Ticks it takes to mine a tile of kind `t`; `None` where it cannot be mined.
pub open spec fn mine_ticks_of(t: TileType) -> Option<u32> {
    match t {
        TileType::Stone => Some(20u32),
        TileType::Wood => Some(40u32),
        TileType::Air => None,
    }
}

/// The respawn and mining durations of each tile type: Stone respawns after
/// 200 ticks (10 seconds at 20 Hz) and takes 20 to mine, Wood respawns after
/// 400 and takes 40, Air respawns at once and cannot be mined.
pub proof fn lemma_tile_durations()
    ensures
        respawn_ticks_of(TileType::Stone) == 200,
        respawn_ticks_of(TileType::Wood) == 400,
        respawn_ticks_of(TileType::Air) == 0,
        mine_ticks_of(TileType::Stone) == Some(20u32),
        mine_ticks_of(TileType::Wood) == Some(40u32),
        mine_ticks_of(TileType::Air) is None,
{
}

impl TileType {
    /// How long (in ticks) before a mined tile respawns.
    pub fn respawn_ticks(&self) -> (ticks: u64)
        ensures
            ticks == respawn_ticks_of(*self),
    {
        match self {
            TileType::Stone => 200,
            TileType::Wood => 400,
            TileType::Air => 0,
        }
    }

    /// How many ticks to mine this tile.
    pub fn mine_ticks(&self) -> (ticks: Option<u32>)
        ensures
            ticks == mine_ticks_of(*self),
    {
        match self {
            TileType::Stone => Some(20),
            TileType::Wood => Some(40),
            TileType::Air => None,
        }
    }
}

} // verus!
