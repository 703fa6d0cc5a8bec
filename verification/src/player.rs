use vstd::prelude::*;
use crate::tile::TilePos;
use crate::zone::{WorldId, ZoneType};

verus! {

/// A mining action in progress.
#[derive(Debug, Clone, Copy, PartialEq, Eq, Structural)]
pub struct MiningState {
    pub pos: TilePos,
    pub ticks_remaining: u32,
}

/// Server-side player: the state the server's rules read and change
/// (identity, input sequence, spatial cell, world, zone, combat tag, mining),
/// together with the player's link `C`, which the network layer owns (the
/// outbound channel and the player's exact position).
pub struct ServerPlayer<C> {
    /// The player's id.
    pub id: u64,
    /// Sequence number of the last movement input applied.
    pub last_input_seq: u32,
    /// The spatial-grid cell of the player's position.
    pub cell: (i32, i32),
    /// Which world instance this player is in.
    pub world_id: WorldId,
    /// Current zone type the player is standing in.
    pub zone: ZoneType,
    /// Combat tag: the clock reading until which the player cannot transfer
    /// or safely disconnect.
    pub combat_tag_until: Option<u64>,
    /// Active mining state.
    pub mining: Option<MiningState>,
    /// The network side of the player.
    pub link: C,
}

/// Whether a combat tag that lasts until `until` is still active at `now`.
pub open spec fn tagged_at(until: Option<u64>, now: u64) -> bool {
    match until {
        Some(u) => now < u,
        None => false,
    }
}

/// A combat tag is active at every clock reading before its end and at none
/// from its end on; without a tag a player is never tagged. Of two readings,
/// the later is tagged only if the earlier is.
pub proof fn lemma_tag_active_until_end(until: u64, now: u64, later: u64)
    ensures
        now < until ==> tagged_at(Some(until), now),
        now >= until ==> !tagged_at(Some(until), now),
        !tagged_at(None, now),
        now <= later && tagged_at(Some(until), later) ==> tagged_at(Some(until), now),
{
}

impl<C> ServerPlayer<C> {
    /// A fresh player at the origin (cell `(0, 0)`), in a safe zone, neither
    /// tagged nor mining.
    pub fn new(id: u64, link: C, world_id: WorldId) -> (p: Self)
        ensures
            p.id == id,
            p.last_input_seq == 0,
            p.cell == (0i32, 0i32),
            p.world_id@ == world_id@,
            p.zone == ZoneType::Safe,
            p.combat_tag_until is None,
            p.mining is None,
            p.link == link,
    {
        ServerPlayer {
            id,
            last_input_seq: 0,
            cell: (0, 0),
            world_id,
            zone: ZoneType::Safe,
            combat_tag_until: None,
            mining: None,
            link,
        }
    }

    /// Whether the player is combat tagged at clock reading `now`.
    pub fn is_combat_tagged(&self, now: u64) -> (tagged: bool)
        ensures
            tagged == tagged_at(self.combat_tag_until, now),
    {
        match self.combat_tag_until {
            Some(until) => now < until,
            None => false,
        }
    }

    /// Tag the player for combat until clock reading `until`.
    pub fn set_combat_tag(&mut self, until: u64)
        ensures
            *final(self) == (ServerPlayer { combat_tag_until: Some(until), ..*old(self) }),
    {
        self.combat_tag_until = Some(until);
    }

    /// Moves the player over to the world instance `world_id`: mining does
    /// not carry over.
    pub fn enter_world(&mut self, world_id: WorldId)
        ensures
            *final(self) == (ServerPlayer { world_id, mining: None, ..*old(self) }),
    {
        self.world_id = world_id;
        self.mining = None;
    }

    /// Lift the combat tag.
    pub fn clear_combat_tag(&mut self)
        ensures
            *final(self) == (ServerPlayer { combat_tag_until: None, ..*old(self) }),
    {
        self.combat_tag_until = None;
    }
}

} // verus!
