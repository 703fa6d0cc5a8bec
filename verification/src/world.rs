use vstd::prelude::*;

verus! {

/// Why a transfer between world instances was refused.
#[derive(Debug)]
pub enum TransferError {
    CombatTagged,
    WorldNotFound(String),
    WorldFull,
}

impl Clone for TransferError {
    fn clone(&self) -> (copy: Self)
        ensures
            copy == *self,
    {
        match self {
            TransferError::CombatTagged => TransferError::CombatTagged,
            TransferError::WorldNotFound(name) => TransferError::WorldNotFound(name.clone()),
            TransferError::WorldFull => TransferError::WorldFull,
        }
    }
}

} // verus!
