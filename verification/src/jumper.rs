//! Starting the kernel.

use vstd::prelude::*;

verus! {

/// Starts a Cortex-M kernel. Has no state: what to start is an address.
pub struct CortexMJumper {}

impl CortexMJumper {
    pub fn new() -> (jumper: CortexMJumper)
        ensures
            jumper == (CortexMJumper {  }),
    {
        CortexMJumper {  }
    }
}

} // verus!
