use vstd::prelude::*;
use crate::gateway::{Gateway, best_for};
use crate::instance::WorldInstance;
use crate::player::{ServerPlayer, tagged_at};
use crate::world::TransferError;
use crate::zone::{WorldId, WorldIdView};

verus! {

/// Where a transfer request leads, as far as the gateway can tell: the
/// position of the target instance, or why there is none.
pub open spec fn transfer_target(
    ids: Seq<WorldIdView>,
    loads: Seq<usize>,
    combat_tagged: bool,
    target: WorldIdView,
    outcome: Result<usize, TransferError>,
) -> bool {
    if combat_tagged {
        outcome matches Err(TransferError::CombatTagged)
    } else if ids.contains(target) {
        outcome == Ok::<usize, TransferError>(ids.index_of(target) as usize)
    } else if exists|j: int| 0 <= j < ids.len() && ids[j].world_name == target.world_name {
        outcome matches Ok(i) && best_for(ids, loads, target.world_name, i as int)
    } else {
        outcome matches Err(TransferError::WorldNotFound(name)) && name@ == target.world_name
    }
}

/// A combat-tagged player is refused, whatever the target and whether or not
/// it is registered; an untagged player asking for a registered instance is
/// sent to exactly that instance.
pub proof fn lemma_tagged_player_refused(
    ids: Seq<WorldIdView>,
    loads: Seq<usize>,
    tagged: bool,
    target: WorldIdView,
    outcome: Result<usize, TransferError>,
)
    requires
        transfer_target(ids, loads, tagged, target, outcome),
        ids.len() <= usize::MAX,
    ensures
        tagged ==> outcome matches Err(TransferError::CombatTagged),
        !tagged && ids.contains(target) ==> (outcome matches Ok(i) && 0 <= i < ids.len() && ids[i as int] == target),
        !tagged ==> !(outcome matches Err(TransferError::CombatTagged)),
{
    if !tagged && ids.contains(target) {
        let i = ids.index_of(target);
        assert(ids[i] == target);
    }
}

/// Picks the instance a player is to be transferred to: none while the
/// player is combat tagged; otherwise the instance registered under
/// `target`, or failing that the least loaded instance of the same world
/// (`loads[i]` being the load of the instance at position `i`).
pub fn resolve_transfer<H>(
    gateway: &Gateway<H>,
    combat_tagged: bool,
    target: &WorldId,
    loads: &Vec<usize>,
) -> (outcome: Result<usize, TransferError>)
    requires
        gateway.wf(),
        loads@.len() == gateway.ids().len(),
    ensures
        transfer_target(gateway.ids(), loads@, combat_tagged, target@, outcome),
{
    if combat_tagged {
        return Err(TransferError::CombatTagged);
    }
    match gateway.position_of(target) {
        Some(i) => Ok(i),
        None => match gateway.find_best_instance(target.world_name.as_str(), loads) {
            Some(i) => Ok(i),
            None => Err(TransferError::WorldNotFound(target.world_name.clone())),
        },
    }
}

/// Whether the target instance can take one more player.
pub fn admit_transfer<C>(target: &WorldInstance<C>) -> (admitted: Result<(), TransferError>)
    ensures
        target.players@.len() >= target.capacity() ==> admitted matches Err(TransferError::WorldFull),
        target.players@.len() < target.capacity() ==> admitted is Ok,
{
    if target.is_full() {
        Err(TransferError::WorldFull)
    } else {
        Ok(())
    }
}

/// A transfer moves a player: once it has been taken out of instance `a`
/// and, after entering the target world, admitted to instance `b` at
/// `spawn_cell`, it is in `b` and no longer in `a`, with everything but its
/// world, cell and mining kept.
pub proof fn lemma_transfer_moves_player<C>(
    a0: WorldInstance<C>,
    a1: WorldInstance<C>,
    b0: WorldInstance<C>,
    b1: WorldInstance<C>,
    id: u64,
    taken: ServerPlayer<C>,
    world_id: WorldId,
    spawn_cell: (i32, i32),
)
    requires
        a0.wf(),
        a0.players@.contains_key(id),
        taken == a0.players@[id],
        a1.players@ == a0.players@.remove(id),
        b0.players@.len() < b0.capacity(),
        b1.players@ == b0.players@.insert(
            taken.id,
            ServerPlayer { cell: spawn_cell, ..ServerPlayer { world_id, mining: None, ..taken } },
        ),
    ensures
        !a1.players@.contains_key(id),
        b1.players@.contains_key(id),
        b1.players@[id] == (ServerPlayer { world_id, mining: None, cell: spawn_cell, ..a0.players@[id] }),
{
}

impl<C> WorldInstance<C> {
    /// Whether `player_id` is in this instance and combat tagged at clock
    /// reading `now`.
    pub fn is_player_combat_tagged(&self, player_id: u64, now: u64) -> (tagged: bool)
        ensures
            tagged == (self.players@.contains_key(player_id) && tagged_at(
                self.players@[player_id].combat_tag_until,
                now,
            )),
    {
        match self.players.get(&player_id) {
            Some(p) => p.is_combat_tagged(now),
            None => false,
        }
    }
}

} // verus!
