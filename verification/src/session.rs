use vstd::prelude::*;
use crate::tile::TilePos;
use crate::zone::WorldId;

verus! {

/// A client's request, as the session rules see it. For a movement input,
/// `valid` says whether its direction and time step are within bounds.
pub enum ClientRequest {
    MoveInput { sequence: u32, valid: bool },
    StartMine { pos: TilePos },
    StopMine,
    TransferRequest { target: WorldId },
    Disconnect,
}

/// What the server does about a request.
pub enum SessionAction {
    /// Drop the request.
    Ignore,
    /// Apply the movement input with this sequence number.
    ApplyInput { sequence: u32 },
    StartMine { pos: TilePos },
    StopMine,
    /// Try to transfer the player to `target`.
    Transfer { target: WorldId },
    /// Close the connection.
    Disconnect,
}

/// Per-connection state: when the last movement input was accepted (a
/// monotonic clock reading) and how far apart inputs must be.
pub struct Session {
    pub player_id: u64,
    pub last_input_time: u64,
    pub min_input_interval: u64,
}

/// Time from `earlier` to `later`, zero if `later` comes first.
pub open spec fn elapsed(later: u64, earlier: u64) -> u64 {
    if later >= earlier {
        (later - earlier) as u64
    } else {
        0
    }
}

/// `elapsed` is the time between two clock readings: a reading `d` past
/// `earlier` is `d` after it, and one before `earlier` counts as no time.
pub proof fn lemma_elapsed_is_difference(later: u64, earlier: u64)
    ensures
        later >= earlier ==> elapsed(later, earlier) + earlier == later,
        later < earlier ==> elapsed(later, earlier) == 0,
        elapsed(later, earlier) <= later,
{
}

/// A movement input that comes at least `min_input_interval` after the last
/// accepted one is accepted: the session's mark moves to its time, and it is
/// applied if valid. One that comes sooner (by the clock, later than the
/// mark) is dropped and leaves the mark.
pub proof fn lemma_input_accepted_after_interval(last: u64, interval: u64, now: u64)
    ensures
        now >= last && now - last >= interval ==> elapsed(now, last) >= interval,
        now >= last && now - last < interval ==> elapsed(now, last) < interval,
        now < last && interval > 0 ==> elapsed(now, last) < interval,
{
}

impl Session {
    pub fn new(player_id: u64, now: u64, min_input_interval: u64) -> (s: Self)
        ensures
            s.player_id == player_id,
            s.last_input_time == now,
            s.min_input_interval == min_input_interval,
    {
        Session { player_id, last_input_time: now, min_input_interval }
    }

    /// Decides what to do about `request`, received at clock reading `now`.
    /// A movement input that comes sooner than `min_input_interval` after
    /// the last accepted one is dropped without being counted; one that is
    /// accepted resets the interval, and is applied only if it is valid.
    pub fn on_request(&mut self, request: ClientRequest, now: u64) -> (action: SessionAction)
        ensures
            final(self).player_id == old(self).player_id,
            final(self).min_input_interval == old(self).min_input_interval,
            match request {
                ClientRequest::MoveInput { sequence, valid } => {
                    if elapsed(now, old(self).last_input_time) < old(self).min_input_interval {
                        &&& action is Ignore
                        &&& final(self).last_input_time == old(self).last_input_time
                    } else {
                        &&& final(self).last_input_time == now
                        &&& if valid {
                            action == SessionAction::ApplyInput { sequence }
                        } else {
                            action is Ignore
                        }
                    }
                },
                ClientRequest::StartMine { pos } => {
                    &&& action == SessionAction::StartMine { pos }
                    &&& final(self).last_input_time == old(self).last_input_time
                },
                ClientRequest::StopMine => {
                    &&& action is StopMine
                    &&& final(self).last_input_time == old(self).last_input_time
                },
                ClientRequest::TransferRequest { target } => {
                    &&& action matches SessionAction::Transfer { target: t } && t@ == target@
                    &&& final(self).last_input_time == old(self).last_input_time
                },
                ClientRequest::Disconnect => {
                    &&& action is Disconnect
                    &&& final(self).last_input_time == old(self).last_input_time
                },
            },
    {
        match request {
            ClientRequest::MoveInput { sequence, valid } => {
                let since: u64 = if now >= self.last_input_time {
                    now - self.last_input_time
                } else {
                    0
                };
                if since < self.min_input_interval {
                    return SessionAction::Ignore;
                }
                self.last_input_time = now;
                if !valid {
                    return SessionAction::Ignore;
                }
                SessionAction::ApplyInput { sequence }
            },
            ClientRequest::StartMine { pos } => SessionAction::StartMine { pos },
            ClientRequest::StopMine => SessionAction::StopMine,
            ClientRequest::TransferRequest { target } => SessionAction::Transfer { target },
            ClientRequest::Disconnect => SessionAction::Disconnect,
        }
    }
}

} // verus!
