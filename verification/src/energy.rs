//! The deterministic execution budget. Every guest instruction and host call
//! charges energy; once the budget underflows it is zeroed and every later
//! charge fails.

use vstd::prelude::*;

verus! {

/// Cost, in energy units, of allocating one page of linear memory.
pub const MEMORY_COST_FACTOR: u32 = 100;

/// The error returned by every charging operation once the budget is
/// exhausted.
#[derive(Clone, Copy, Debug, PartialEq, Eq, Structural)]
pub struct OutOfEnergy;

/// Remaining execution budget of the current invocation.
#[derive(Clone, Copy, Debug)]
pub struct Energy {
    /// Energy left to use.
    pub energy: u64,
}

impl Energy {
    /// Charge `amount` units of execution cost. The remaining budget never
    /// increases; on underflow it is zeroed and the charge fails.
    pub fn tick_energy(&mut self, amount: u64) -> (r: Result<(), OutOfEnergy>)
        ensures
            final(self).energy <= old(self).energy,
            r is Ok <==> amount <= old(self).energy,
            r is Ok ==> final(self).energy == old(self).energy - amount,
            r is Err ==> final(self).energy == 0,
    {
        if self.energy >= amount {
            self.energy = self.energy - amount;
            Ok(())
        } else {
            self.energy = 0;
            Err(OutOfEnergy)
        }
    }

    /// Charge for additional stack usage, with the same accounting as
    /// `tick_energy`.
    pub fn charge_stack(&mut self, amount: u64) -> (r: Result<(), OutOfEnergy>)
        ensures
            final(self).energy <= old(self).energy,
            r is Ok <==> amount <= old(self).energy,
            r is Ok ==> final(self).energy == old(self).energy - amount,
            r is Err ==> final(self).energy == 0,
    {
        if self.energy >= amount {
            self.energy = self.energy - amount;
            Ok(())
        } else {
            self.energy = 0;
            Err(OutOfEnergy)
        }
    }

    /// Charge for allocating `num_pages` pages of linear memory, at
    /// `MEMORY_COST_FACTOR` units per page.
    pub fn charge_memory_alloc(&mut self, num_pages: u32) -> (r: Result<(), OutOfEnergy>)
        ensures
            final(self).energy <= old(self).energy,
            r is Ok <==> num_pages * MEMORY_COST_FACTOR <= old(self).energy,
            r is Ok ==> final(self).energy == old(self).energy - num_pages * MEMORY_COST_FACTOR,
            r is Err ==> final(self).energy == 0,
    {
        proof {
            assert((num_pages as u64) * (MEMORY_COST_FACTOR as u64) <= 0xffff_ffffu64 * 100)
                by (nonlinear_arith)
                requires
                    num_pages as u64 <= 0xffff_ffffu64,
            ;
        }
        let to_charge: u64 = (num_pages as u64) * (MEMORY_COST_FACTOR as u64);
        if self.energy >= to_charge {
            self.energy = self.energy - to_charge;
            Ok(())
        } else {
            self.energy = 0;
            Err(OutOfEnergy)
        }
    }
}

} // verus!
