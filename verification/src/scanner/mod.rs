//! The scanner: from raw listeners to what is shown, and back to what may be stopped.
pub mod fingerprint;
pub mod pipeline;
pub mod pressure;
pub mod refresh;
pub mod renew;
pub mod server;
pub mod snapshot;
pub mod state;
pub mod stop;
pub mod titles;
pub mod turn;
pub mod usage;

pub use crate::domain::model::Health;
pub use pressure::{
    cpu_elevated_tenths_percent, Pressure, PressureHistory, CPU_ELEVATED_FLOOR_TENTHS_PERCENT,
    CPU_ELEVATED_SHARE_TENTHS_PER_CPU, CPU_SUSTAIN_FOR, MEMORY_ELEVATED_BYTES, MEMORY_SUSTAIN_FOR,
};
pub use server::{
    health_from_liveness_result, self_pids, server_id, what_this_stops, ScannedServer,
};
pub use fingerprint::fingerprint;
pub use titles::{forget_title, invalidate_all_titles, title_cache_lookup, title_for};
pub use usage::apply_usage;
pub use snapshot::{health_wire, resource_samples_from, snapshot_from};
pub use stop::{
    eligible_for_bulk_stop, find_current_holder, refuse_force_stop_without_prior_failure,
    refuse_if_identity_changed, refuse_if_watch_only, FailedPoliteStop, FailedPoliteStops,
    FORCE_STOP_AUTHORIZATION_TTL,
};
pub use pipeline::{classify_and_probe, ClassifyDeps, ProbeDeps};
pub use refresh::servers_differ;
pub use state::{scan_once, PanelState, ScanOutcome, ScannerState};
