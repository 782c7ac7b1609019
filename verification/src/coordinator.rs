//! The scan coordinator's per-detector channel: detector sub-scans
//! run off the interactive thread and hand their result back through
//! a slot of capacity one.  A new scan may be dispatched only while
//! no scan of the same detector is outstanding and no earlier result
//! waits undrained; the control loop polls and drains results as they
//! arrive, so it never blocks.

use vstd::prelude::*;
use crate::removal::RemovalSet;

verus! {

/// One detector's dispatch state: a working flag and a result slot
/// of capacity one.
pub struct DetectorChannel {
    /// A sub-scan was dispatched and has not delivered yet.
    pub working: bool,
    /// The delivered result, until the control loop drains it.
    pub slot: Option<RemovalSet>,
}

impl DetectorChannel {
    /// The channel invariant: while a scan is outstanding the slot is
    /// free, so delivery can never find it full.
    pub open spec fn inv(&self) -> bool {
        self.working ==> self.slot is None
    }

    /// A fresh idle channel.
    pub fn new() -> (c: DetectorChannel)
        ensures
            !c.working,
            c.slot is None,
            c.inv(),
    {
        DetectorChannel { working: false, slot: None }
    }

    /// May a new sub-scan be dispatched right now?
    pub fn can_dispatch(&self) -> (r: bool)
        ensures
            r == (!self.working && self.slot is None),
    {
        !self.working && matches!(self.slot, None)
    }

    /// Dispatch a sub-scan if the detector is free: refused while one
    /// is outstanding or an earlier result is undrained.
    pub fn try_dispatch(&mut self) -> (ok: bool)
        requires
            old(self).inv(),
        ensures
            ok == (!old(self).working && old(self).slot is None),
            ok ==> final(self).working && final(self).slot is None,
            !ok ==> *final(self) == *old(self),
            final(self).inv(),
    {
        if !self.working && matches!(self.slot, None) {
            self.working = true;
            true
        } else {
            false
        }
    }

    /// The detector task delivers its owned result: the scan is no
    /// longer outstanding and the result waits in the slot.
    pub fn complete(&mut self, result: RemovalSet)
        requires
            old(self).inv(),
            old(self).working,
        ensures
            !final(self).working,
            match final(self).slot {
                Some(r) => r.models() == result.models(),
                None => false,
            },
            final(self).inv(),
    {
        self.working = false;
        self.slot = Some(result);
    }

    /// The control loop polls: an undrained result is taken out, an
    /// empty slot yields nothing.
    pub fn drain(&mut self) -> (r: Option<RemovalSet>)
        requires
            old(self).inv(),
        ensures
            match old(self).slot {
                Some(res) => r matches Some(taken) && taken.models() == res.models(),
                None => r is None,
            },
            final(self).slot is None,
            final(self).working == old(self).working,
            final(self).inv(),
    {
        self.slot.take()
    }
}

} // verus!
