//! Pause-flag gate: a bitmask of paused capabilities that every mutating
//! entry point consults before acting.

use vstd::prelude::*;
use vstd::string::StringSliceAdditionalSpecFns;

verus! {

/// Bitmask of paused capabilities, one bit per capability.
pub type PausedMask = u8;

/// No capability is paused.
pub const UNPAUSE_ALL: PausedMask = 0;

/// Deposits are paused.
pub const PAUSE_DEPOSIT: PausedMask = 1;

/// Withdrawals are paused.
pub const PAUSE_WITHDRAW: PausedMask = 2;

/// Message carried by [`PausedError`].
pub const ERR_PAUSED: &'static str = "ERR_PAUSED";

/// Whether `mask` holds at least one bit of `flag`.
pub open spec fn mask_contains(mask: PausedMask, flag: PausedMask) -> bool {
    (mask & flag) != 0
}

/// A capability is paused for a caller when its bit is set and the caller
/// is not the owner: the owner can always act.
pub open spec fn paused_for(mask: PausedMask, flag: PausedMask, is_owner: bool) -> bool {
    mask_contains(mask, flag) && !is_owner
}

/// The capability that was asked for is paused.
#[derive(Debug, Clone, Copy, PartialEq, Eq, Structural)]
pub struct PausedError;

impl PausedError {
    /// The error's message as bytes.
    pub fn as_ref(&self) -> (bytes: &'static [u8])
        ensures
            bytes@ == ERR_PAUSED.spec_bytes(),
    {
        ERR_PAUSED.as_bytes()
    }
}

pub trait AdminControlled {
    /// The mask as the contracts see it.
    spec fn paused_flags(&self) -> PausedMask;

    /// Return the current mask of paused capabilities.
    fn get_paused_flags(&self) -> (mask: PausedMask)
        ensures
            mask == self.paused_flags(),
    ;

    /// Replace the mask of paused capabilities. Restricting this call to the
    /// owner is the caller's duty.
    fn set_paused_flags(&mut self, paused: PausedMask)
        ensures
            final(self).paused_flags() == paused,
    ;

    /// Whether `flag` is paused for this caller.
    fn is_paused(&self, flag: PausedMask, is_owner: bool) -> (paused: bool)
        ensures
            paused == paused_for(self.paused_flags(), flag, is_owner),
    {
        (self.get_paused_flags() & flag) != 0 && !is_owner
    }

    /// `Err(PausedError)` exactly when `flag` is paused for this caller.
    fn assert_not_paused(&self, flag: PausedMask, is_owner: bool) -> (res: Result<(), PausedError>)
        ensures
            res.is_err() == paused_for(self.paused_flags(), flag, is_owner),
    {
        if self.is_paused(flag, is_owner) {
            Err(PausedError)
        } else {
            Ok(())
        }
    }
}

} // verus!
