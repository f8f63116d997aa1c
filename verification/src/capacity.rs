//! What the container runtime says of the host it runs on.

use vstd::prelude::*;

verus! {

/// An error that ends the whole run: without a runtime and its capacity no
/// benchmark can be planned.
#[derive(Clone, Copy, Debug, PartialEq, Eq, Structural)]
pub enum FatalError {
    /// The runtime could not be reached.
    ConnectionError,
    /// The runtime did not say how many cores or how much memory it has.
    CapacityUnavailableError,
}

/// The cores and the memory of the host, both positive.
#[derive(Clone, Copy, Debug, PartialEq, Eq, Structural)]
pub struct HostCapacity {
    pub total_cores: u64,
    pub total_memory_bytes: u64,
}

impl HostCapacity {
    /// Both figures are positive.
    pub open spec fn wf(&self) -> bool {
        self.total_cores >= 1 && self.total_memory_bytes >= 1
    }
}

/// Whether the two figures, as the runtime reported them, make a capacity.
pub open spec fn reported(ncpu: Option<i64>, mem_total: Option<i64>) -> bool {
    ncpu is Some && mem_total is Some && ncpu->0 >= 1 && mem_total->0 >= 1
}

/// Reads the capacity out of the runtime's answer. A figure that is missing,
/// zero or negative leaves the capacity unknown.
pub fn host_capacity(ncpu: Option<i64>, mem_total: Option<i64>) -> (capacity: Result<
    HostCapacity,
    FatalError,
>)
    ensures
        reported(ncpu, mem_total) ==> capacity == Ok::<HostCapacity, FatalError>(
            HostCapacity {
                total_cores: ncpu->0 as u64,
                total_memory_bytes: mem_total->0 as u64,
            },
        ),
        !reported(ncpu, mem_total) ==> capacity == Err::<HostCapacity, FatalError>(
            FatalError::CapacityUnavailableError,
        ),
        capacity is Ok ==> capacity->Ok_0.wf(),
{
    match (ncpu, mem_total) {
        (Some(cores), Some(memory)) => {
            if cores >= 1 && memory >= 1 {
                Ok(HostCapacity { total_cores: cores as u64, total_memory_bytes: memory as u64 })
            } else {
                Err(FatalError::CapacityUnavailableError)
            }
        },
        _ => Err(FatalError::CapacityUnavailableError),
    }
}

} // verus!
