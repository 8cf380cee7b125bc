//! The simulated hardware configuration: how many registers and how many
//! backing-store cells the machine has.

use vstd::prelude::*;

verus! {

/// The hardware configuration of the simulated machine.
#[derive(Debug, Clone, Copy)]
pub struct InterpreterOptions {
    /// Number of registers the code generator may use.
    pub num_registers: u8,
    /// Number of cells in the backing store.
    pub num_cachelines: usize,
}

impl Default for InterpreterOptions {
    /// The default machine: six registers and sixteen backing-store cells.
    fn default() -> (r: Self)
        ensures
            r.num_registers == 6,
            r.num_cachelines == 16,
    {
        Self { num_registers: 6, num_cachelines: 16 }
    }
}

} // verus!
