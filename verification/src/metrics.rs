//! What the metrics exporter shows of the runtime state.

use crate::io_engine::IoStats;
use crate::state::AppState;
use vstd::prelude::*;

verus! {

/// Gauges sampled from runtime state. Gauges are signed: counts beyond their
/// range wrap around.
#[derive(Debug, Clone, Copy, PartialEq, Eq, Structural)]
pub struct Sample {
    pub workers_live: i64,
    pub leases_active: i64,
    pub io_cache_hits: i64,
    pub io_cache_misses: i64,
    pub io_backend_read_bytes: i64,
    pub io_served_bytes: i64,
}

/// Samples the gauges.
pub fn sample_state(state: &AppState) -> (out: Sample)
    requires
        state.wf(),
    ensures
        out == (Sample {
            workers_live: state@.coordinator.membership.workers.len() as i64,
            leases_active: state@.coordinator.leases.leases.len() as i64,
            io_cache_hits: state@.io.hits as i64,
            io_cache_misses: state@.io.misses as i64,
            io_backend_read_bytes: state@.io.backend_bytes as i64,
            io_served_bytes: state@.io.served_bytes as i64,
        }),
{
    let io: IoStats = state.io.stats();
    Sample {
        workers_live: state.coordinator.membership.live_count() as i64,
        leases_active: state.coordinator.leases.active_lease_count() as i64,
        io_cache_hits: io.cache_hits as i64,
        io_cache_misses: io.cache_misses as i64,
        io_backend_read_bytes: io.bytes_read_backend as i64,
        io_served_bytes: io.bytes_served as i64,
    }
}

} // verus!
