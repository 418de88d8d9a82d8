//! One turn of the scan loop: what is made of a scan that succeeded or failed, what is
//! told to the user interface, and how long the loop sleeps; and a scan that the user
//! asks for in between. The loop itself, with its lock and its sleep, is left to the
//! application.
use crate::domain::classify;
use crate::domain::model::SelfPids;
use crate::domain::project;
use crate::ipc::{ResourceSampleEntry, ResourceSamples, Snapshot, SnapshotView};
use crate::platform::{PortBinding, ProcessSource, RawListener, RawListenerView};
use crate::scanner::pipeline;
use crate::scanner::pipeline::{ClassifyDeps, ProbeDeps};
use crate::scanner::server::server_views;
use crate::scanner::snapshot;
use crate::scanner::state::{
    cadence, same_otherwise, scan_leads_to, scan_of_leads_to, scan_once, PanelState, ScanOutcome,
    Scanned, ScannerState,
};
use crate::time;
use crate::time::Timestamp;
use vstd::prelude::*;

verus! {

/// What a scan amounts to after the one before. A scan that failed is told of once, when
/// it first fails, and so is a scan that succeeds after one that failed: in both cases
/// what is on the screen has become wrong.
pub open spec fn turn_outcome(failed_before: bool, result: Result<ScanOutcome, String>) -> ScanOutcome {
    match result {
        Ok(o) => ScanOutcome { structural: o.structural || failed_before, resources: o.resources },
        Err(_) => ScanOutcome { structural: !failed_before, resources: false },
    }
}

/// Take a scan's result into the state. The Servers that the last good scan found stay
/// where a scan fails: to clear them would claim that nothing is running.
pub fn absorb_scan(state: &mut ScannerState, result: &Result<ScanOutcome, String>) -> (r: ScanOutcome)
    ensures
        r == turn_outcome(old(state).scan_failed, *result),
        *final(state) == (ScannerState { scan_failed: result is Err, ..*old(state) }),
{
    match result {
        Ok(outcome) => {
            let recovered = state.scan_failed;
            state.scan_failed = false;
            ScanOutcome {
                structural: outcome.structural || recovered,
                resources: outcome.resources,
            }
        },
        Err(_) => {
            let newly_failed = !state.scan_failed;
            state.scan_failed = true;
            ScanOutcome { structural: newly_failed, resources: false }
        },
    }
}

/// What is to be done after a turn. The two things that the user interface is told travel
/// apart: a turn can call for either, for both, or for none.
pub struct Turn {
    /// Everything, to be drawn anew.
    pub changed: Option<Snapshot>,
    /// The latest figures, to be put into the rows that are drawn.
    pub resources: Option<ResourceSamples>,
    /// Seconds until the next one.
    pub sleep: u64,
}

/// One turn of the loop, given what its scan came to.
pub fn finish_turn(state: &mut ScannerState, result: &Result<ScanOutcome, String>, now: Timestamp) -> (r:
    Turn)
    ensures
        *final(state) == (ScannerState { scan_failed: result is Err, ..*old(state) }),
        r.sleep == cadence(old(state).panel, old(state).panel_closed_at, now),
        match r.changed {
            Some(s) => turn_outcome(old(state).scan_failed, *result).structural && s@ == (
            SnapshotView {
                scan_failed: result is Err,
                ..snapshot::shown(server_views(old(state).servers@), old(state).keeplist@, now)
            }),
            None => !turn_outcome(old(state).scan_failed, *result).structural,
        },
        match r.resources {
            Some(s) => turn_outcome(old(state).scan_failed, *result).resources
                && s.samples@.map_values(|e: ResourceSampleEntry| e@) == snapshot::figures(
                server_views(old(state).servers@),
            ) && s.scanned_at@ == time::iso8601(now),
            None => !turn_outcome(old(state).scan_failed, *result).resources,
        },
{
    let outcome = absorb_scan(state, result);
    let changed = if outcome.structural {
        Some(state.snapshot(now))
    } else {
        None
    };
    let resources = if outcome.resources {
        Some(snapshot::resource_samples_from(&state.servers, now))
    } else {
        None
    };
    Turn { changed, resources, sleep: state.current_cadence(now) }
}

// ---------------------------------------------------------------------------------
// A scan that was asked for.
// ---------------------------------------------------------------------------------

/// What comes of a scan that the user asked for.
pub struct Refreshed {
    /// What is answered.
    pub answer: Result<Snapshot, String>,
    /// What everyone else is told, where scans began to fail or ceased to.
    pub told: Option<Snapshot>,
}

/// What is shown of a state, where its latest scan failed or did not.
pub open spec fn shown_of(state: ScannerState, failed: bool, now: Timestamp) -> SnapshotView {
    SnapshotView {
        scan_failed: failed,
        ..snapshot::shown(server_views(state.servers@), state.keeplist@, now)
    }
}

/// Whether `r` is what comes of a scan that was asked for: what it found, or why it
/// failed; and, for everyone, where failing begins or ends.
pub open spec fn answers_refresh(
    state: ScannerState,
    result: Result<ScanOutcome, String>,
    now: Timestamp,
    r: Refreshed,
) -> bool {
    &&& match result {
        Ok(_) => r.answer is Ok && r.answer->Ok_0@ == shown_of(state, false, now),
        Err(e) => r.answer == Err::<Snapshot, String>(e),
    }
    &&& match r.told {
        Some(s) => state.scan_failed != (result is Err) && s@ == shown_of(
            state,
            result is Err,
            now,
        ),
        None => state.scan_failed == (result is Err),
    }
}

/// Take the result of a scan that was asked for into the state, and answer it.
pub fn finish_refresh(state: &mut ScannerState, result: Result<ScanOutcome, String>, now: Timestamp) -> (r:
    Refreshed)
    ensures
        *final(state) == (ScannerState { scan_failed: result is Err, ..*old(state) }),
        answers_refresh(*old(state), result, now, r),
{
    let failed_before = state.scan_failed;
    let _ = absorb_scan(state, &result);
    let told = if failed_before != state.scan_failed {
        Some(state.snapshot(now))
    } else {
        None
    };
    let answer = match result {
        Ok(_) => Ok(state.snapshot(now)),
        Err(e) => Err(e),
    };
    Refreshed { answer, told }
}

/// Whether a scan that was asked for leads from one state to the other: everything was
/// scanned anew, which led to `scanned`, and its result was taken in and answered.
pub open spec fn refresh_now_leads_to<
    S: ProcessSource,
    O: Fn(&str) -> Option<String>,
    F: Fn(&str) -> bool,
    L: Fn(&Vec<Vec<PortBinding>>) -> Vec<(usize, bool)>,
    B: Fn(&Vec<(usize, PortBinding)>) -> Vec<(usize, Option<String>)>,
    T: Fn(&PortBinding) -> Option<String>,
    C: Fn() -> Timestamp,
>(
    before: ScannerState,
    source: &S,
    self_pids: SelfPids,
    deps: ClassifyDeps<O, F>,
    probes: ProbeDeps<L, B, T>,
    clock: C,
    listed: Result<Vec<RawListener>, String>,
    now: Timestamp,
    scanned: ScannerState,
    result: Result<ScanOutcome, String>,
    shown_at: Timestamp,
    after: ScannerState,
    r: Refreshed,
) -> bool {
    &&& same_otherwise(scanned, before)
    &&& scan_of_leads_to(
        before,
        source,
        self_pids,
        deps,
        probes,
        true,
        clock,
        listed,
        now,
        scanned,
        result,
    )
    &&& call_ensures(clock, (), shown_at)
    &&& after == (ScannerState { scan_failed: result is Err, ..scanned })
    &&& answers_refresh(scanned, result, shown_at, r)
}

/// Scan everything anew because the user asks for it, titles and all, and answer what is
/// there. Whether the latest scan failed is kept, whoever asked for it.
pub fn refresh_now<
    S: ProcessSource,
    O: Fn(&str) -> Option<String>,
    F: Fn(&str) -> bool,
    L: Fn(&Vec<Vec<PortBinding>>) -> Vec<(usize, bool)>,
    B: Fn(&Vec<(usize, PortBinding)>) -> Vec<(usize, Option<String>)>,
    T: Fn(&PortBinding) -> Option<String>,
    C: Fn() -> Timestamp,
>(
    state: &mut ScannerState,
    source: &S,
    self_pids: SelfPids,
    deps: &ClassifyDeps<O, F>,
    probes: &ProbeDeps<L, B, T>,
    clock: &C,
) -> (r: Refreshed)
    requires
        classify::nameable(deps.owning_app),
        project::askable(deps.path_exists),
        pipeline::probeable(*probes),
        call_requires(*clock, ()),
    ensures
        exists|
            listed: Result<Vec<RawListener>, String>,
            now: Timestamp,
            scanned: ScannerState,
            result: Result<ScanOutcome, String>,
            shown_at: Timestamp,
        | #[trigger]
            refresh_now_leads_to(
                *old(state),
                source,
                self_pids,
                *deps,
                *probes,
                *clock,
                listed,
                now,
                scanned,
                result,
                shown_at,
                *final(state),
                r,
            ),
{
    let result = scan_once(state, source, self_pids, deps, probes, true, clock);
    let ghost scanned = *state;
    let ghost outcome = result;
    let shown_at = clock();
    let r = finish_refresh(state, result, shown_at);
    proof {
        let (listed, now) = choose|
            listed: Result<Vec<RawListener>, String>,
            now: Timestamp,
        | #[trigger]
            scan_of_leads_to(
                *old(state),
                source,
                self_pids,
                *deps,
                *probes,
                true,
                *clock,
                listed,
                now,
                scanned,
                outcome,
            );
        assert(refresh_now_leads_to(
            *old(state),
            source,
            self_pids,
            *deps,
            *probes,
            *clock,
            listed,
            now,
            scanned,
            outcome,
            shown_at,
            *state,
            r,
        ));
    }
    r
}

// ---------------------------------------------------------------------------------
// What the loop keeps.
// ---------------------------------------------------------------------------------

/// However often scans fail in a row, that is told once; while they fail no figures are
/// told; and the first good scan after that is told of, whatever it found.
pub proof fn lemma_failure_is_told_once(e1: String, e2: String, o: ScanOutcome)
    ensures
        turn_outcome(false, Err(e1)).structural,
        !turn_outcome(true, Err(e2)).structural,
        !turn_outcome(false, Err(e1)).resources && !turn_outcome(true, Err(e2)).resources,
        turn_outcome(true, Ok(o)).structural,
        turn_outcome(false, Ok(o)) == o,
{
}

/// Scans are three, fifteen or sixty seconds apart: three exactly while the panel is
/// open, and sixty only once it has been closed for five minutes.
pub proof fn lemma_cadence(panel: PanelState, closed_at: Option<Timestamp>, now: Timestamp)
    ensures
        ({
            let c = cadence(panel, closed_at, now);
            &&& c == 3 || c == 15 || c == 60
            &&& c == 3 <==> panel == PanelState::Open
            &&& c == 60 ==> closed_at is Some && now.ns() - closed_at->0.ns() >= 300
                * 1_000_000_000
        }),
{
}

/// Every scan that succeeds has fresh figures, and they are told, whether or not the list
/// is drawn anew.
pub proof fn lemma_good_scans_tell_figures<
    O: Fn(&str) -> Option<String>,
    F: Fn(&str) -> bool,
    L: Fn(&Vec<Vec<PortBinding>>) -> Vec<(usize, bool)>,
    B: Fn(&Vec<(usize, PortBinding)>) -> Vec<(usize, Option<String>)>,
    T: Fn(&PortBinding) -> Option<String>,
>(
    before: Scanned,
    listeners: Seq<RawListenerView>,
    self_pids: SelfPids,
    deps: ClassifyDeps<O, F>,
    probes: ProbeDeps<L, B, T>,
    force_full: bool,
    threshold: u32,
    now: Timestamp,
    after: Scanned,
    outcome: ScanOutcome,
    failed_before: bool,
)
    requires
        scan_leads_to(
            before,
            listeners,
            self_pids,
            deps,
            probes,
            force_full,
            threshold,
            now,
            after,
            outcome,
        ),
    ensures
        turn_outcome(failed_before, Ok(outcome)).resources,
{
}

/// A good scan that found no structural change, after another good one, redraws nothing:
/// what it tells are the figures, where it has any.
pub proof fn lemma_figures_alone(o: ScanOutcome)
    requires
        !o.structural,
    ensures
        !turn_outcome(false, Ok(o)).structural,
        turn_outcome(false, Ok(o)).resources == o.resources,
{
}

} // verus!
