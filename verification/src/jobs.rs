//! Admission control for background transcription jobs: a fixed-size
//! budget that bounds how many jobs run at once, so outbound API calls
//! and whole-file buffers cannot grow without limit.

use vstd::prelude::*;

verus! {

/// A bounded budget of concurrently running jobs.
#[derive(PartialEq, Eq, Structural, Clone, Copy, Debug)]
pub struct JobBudget {
    pub in_flight: u32,
    pub cap: u32,
}

impl JobBudget {
    /// Never more jobs in flight than the budget's capacity.
    pub open spec fn inv(self) -> bool {
        self.in_flight <= self.cap
    }

    /// A fresh budget of `cap` concurrent jobs, none running.
    pub fn new(cap: u32) -> (b: JobBudget)
        ensures
            b.inv(),
            b.cap == cap,
            b.in_flight == 0,
    {
        JobBudget { in_flight: 0, cap }
    }

    /// Admits one job when the budget allows it: exactly then does the
    /// count rise, and it never passes the capacity.
    pub fn try_acquire(&mut self) -> (ok: bool)
        requires
            old(self).inv(),
        ensures
            final(self).inv(),
            final(self).cap == old(self).cap,
            ok <==> old(self).in_flight < old(self).cap,
            ok ==> final(self).in_flight == old(self).in_flight + 1,
            !ok ==> final(self).in_flight == old(self).in_flight,
    {
        if self.in_flight < self.cap {
            self.in_flight = self.in_flight + 1;
            true
        } else {
            false
        }
    }

    /// Returns one job's slot to the budget; releasing with nothing in
    /// flight is a harmless no-op.
    pub fn release(&mut self)
        requires
            old(self).inv(),
        ensures
            final(self).inv(),
            final(self).cap == old(self).cap,
            final(self).in_flight == if old(self).in_flight > 0 {
                (old(self).in_flight - 1) as u32
            } else {
                0u32
            },
    {
        if self.in_flight > 0 {
            self.in_flight = self.in_flight - 1;
        }
    }
}

} // verus!
