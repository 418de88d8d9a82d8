//! The scanner's state, one scan of it, and the rhythm of scans.
use crate::domain::classify;
use crate::domain::model::SelfPids;
use crate::domain::project;
use crate::ipc::{Snapshot, SnapshotView};
use crate::keeplist::Keeplist;
use crate::platform::{listener_views, PortBinding, ProcessSource, RawListener, RawListenerView};
use crate::probe::TitleCache;
use crate::scanner::fingerprint;
use crate::scanner::pipeline;
use crate::scanner::pipeline::{binding_lists, ClassifyDeps, Judged, ProbeDeps};
use crate::scanner::pressure;
use crate::scanner::pressure::{PressureHistory, TrackedPressure};
use crate::scanner::refresh;
use crate::scanner::refresh::Refresh;
use crate::scanner::renew;
use crate::scanner::server::{distinct_ids, server_views, ScannedServer, ScannedView};
use crate::scanner::snapshot;
use crate::scanner::stop::FailedPoliteStops;
use crate::scanner::titles;
use crate::scanner::titles::Titles;
use crate::scanner::usage;
use crate::scanner::usage::Runs;
use crate::time::Timestamp;
use vstd::prelude::*;

verus! {

/// Seconds between scans while the panel is open.
pub const PANEL_OPEN_ENUMERATE: u64 = 3;

/// Seconds between scans while the panel is closed.
pub const PANEL_CLOSED_ENUMERATE: u64 = 15;

/// Seconds between scans while the machine counts as idle.
pub const IDLE_ENUMERATE: u64 = 60;

/// After how many seconds with the panel closed the machine counts as idle. Nothing
/// tells whether it really is; a panel that has been closed for five minutes stands for
/// it.
pub const IDLE_AFTER_PANEL_CLOSED: u64 = 300;

#[derive(Debug, Clone, Copy, PartialEq, Eq, Structural)]
pub enum PanelState {
    Open,
    Closed,
}

/// Everything that lasts from scan to scan.
pub struct ScannerState {
    pub servers: Vec<ScannedServer>,
    pub last_fingerprint: Option<u64>,
    pub panel: PanelState,
    /// When the panel was last closed.
    pub panel_closed_at: Option<Timestamp>,
    pub title_cache: TitleCache,
    pub pressure_history: PressureHistory,
    pub keeplist: Keeplist,
    pub app_data_dir: String,
    /// The polite stops that failed. This alone is what allows a forced one: that a
    /// port is held tells nothing, since a healthy Server holds its port too.
    pub failed_polite_stops: FailedPoliteStops,
    /// Whether the latest scan failed, so that `servers` is what the last good one
    /// found.
    pub scan_failed: bool,
}

/// The seconds until the next scan.
pub open spec fn cadence(panel: PanelState, closed_at: Option<Timestamp>, now: Timestamp) -> u64 {
    match panel {
        PanelState::Open => PANEL_OPEN_ENUMERATE,
        PanelState::Closed => match closed_at {
            Some(t) => if now.ns() - t.ns() >= IDLE_AFTER_PANEL_CLOSED * 1_000_000_000 {
                IDLE_ENUMERATE
            } else {
                PANEL_CLOSED_ENUMERATE
            },
            None => PANEL_CLOSED_ENUMERATE,
        },
    }
}

impl ScannerState {
    /// The state at the start: nothing scanned, the panel closed.
    pub fn new(app_data_dir: String, keeplist: Keeplist, logical_cpus: u32, now: Timestamp) -> (r:
        ScannerState)
        ensures
            server_views(r.servers@) == Seq::<ScannedView>::empty(),
            r.last_fingerprint is None,
            r.panel == PanelState::Closed,
            r.panel_closed_at == Some(now),
            r.title_cache@ == Titles::empty(),
            r.pressure_history@ == Runs::empty(),
            r.pressure_history.threshold() == pressure::cpu_threshold(logical_cpus),
            r.keeplist@ == keeplist@,
            r.app_data_dir@ == app_data_dir@,
            r.failed_polite_stops@.dom() == Set::<Seq<char>>::empty(),
            !r.scan_failed,
    {
        let servers: Vec<ScannedServer> = Vec::new();
        proof {
            assert(server_views(servers@) =~= Seq::<ScannedView>::empty());
        }
        ScannerState {
            servers,
            last_fingerprint: None,
            panel: PanelState::Closed,
            panel_closed_at: Some(now),
            title_cache: TitleCache::new(),
            pressure_history: PressureHistory::for_logical_cpus(logical_cpus),
            keeplist,
            app_data_dir,
            failed_polite_stops: FailedPoliteStops::new(),
            scan_failed: false,
        }
    }

    /// The seconds until the next scan.
    pub fn current_cadence(&self, now: Timestamp) -> (r: u64)
        ensures
            r == cadence(self.panel, self.panel_closed_at, now),
    {
        match self.panel {
            PanelState::Open => PANEL_OPEN_ENUMERATE,
            PanelState::Closed => {
                let idle = match self.panel_closed_at {
                    Some(t) => now.at_least_after(t, IDLE_AFTER_PANEL_CLOSED),
                    None => false,
                };
                if idle {
                    IDLE_ENUMERATE
                } else {
                    PANEL_CLOSED_ENUMERATE
                }
            },
        }
    }

    /// What is shown now: the Servers, and whether the latest scan failed.
    pub fn snapshot(&self, now: Timestamp) -> (r: Snapshot)
        ensures
            r@ == (SnapshotView {
                scan_failed: self.scan_failed,
                ..snapshot::shown(server_views(self.servers@), self.keeplist@, now)
            }),
    {
        let mut r = snapshot::snapshot_from(&self.servers, &self.keeplist, now);
        r.scan_failed = self.scan_failed;
        r
    }

    /// The panel was opened.
    pub fn panel_opened(&mut self)
        ensures
            *final(self) == (ScannerState { panel: PanelState::Open, ..*old(self) }),
    {
        self.panel = PanelState::Open;
    }

    /// The panel was closed.
    pub fn panel_closed(&mut self, now: Timestamp)
        ensures
            *final(self) == (ScannerState {
                panel: PanelState::Closed,
                panel_closed_at: Some(now),
                ..*old(self)
            }),
    {
        self.panel = PanelState::Closed;
        self.panel_closed_at = Some(now);
    }
}

/// What one scan found worth telling. The two travel apart: one redraws the list and is
/// rare, the other only puts figures into it and comes with every scan.
#[derive(Debug, Clone, Copy, PartialEq, Eq, Structural)]
pub struct ScanOutcome {
    /// The Servers, or the health, Kind or pressure of one, changed.
    pub structural: bool,
    /// Fresh figures are there.
    pub resources: bool,
}

impl Default for ScanOutcome {
    fn default() -> (r: ScanOutcome)
        ensures
            !r.structural,
            !r.resources,
    {
        ScanOutcome { structural: false, resources: false }
    }
}

// ---------------------------------------------------------------------------------
// One scan.
// ---------------------------------------------------------------------------------

/// What a scan may change of the state.
#[verifier::ext_equal]
pub struct Scanned {
    pub servers: Seq<ScannedView>,
    pub fingerprint: Option<u64>,
    pub titles: Titles,
    pub runs: Runs,
}

/// What a scan may change of the state.
pub open spec fn scanned(s: ScannerState) -> Scanned {
    Scanned {
        servers: server_views(s.servers@),
        fingerprint: s.last_fingerprint,
        titles: s.title_cache@,
        runs: s.pressure_history@,
    }
}

/// Whether two states agree on all that a scan leaves alone.
pub open spec fn same_otherwise(a: ScannerState, b: ScannerState) -> bool {
    &&& a.panel == b.panel
    &&& a.panel_closed_at == b.panel_closed_at
    &&& a.pressure_history.threshold() == b.pressure_history.threshold()
    &&& a.keeplist == b.keeplist
    &&& a.app_data_dir == b.app_data_dir
    &&& a.failed_polite_stops == b.failed_polite_stops
    &&& a.scan_failed == b.scan_failed
}

/// The hash of listeners.
pub open spec fn fingerprint_of(listeners: Seq<RawListenerView>) -> u64 {
    fingerprint::digest(fingerprint::structure_words(listeners))
}

/// Whether a scan that finds these listeners finds nothing changed.
pub open spec fn unchanged(s: Scanned, listeners: Seq<RawListenerView>, force_full: bool) -> bool {
    !force_full && s.fingerprint == Some(fingerprint_of(listeners))
}

/// Whether `answers` is what `liveness` may say when asked about these Servers.
pub open spec fn may_answer_for<L: Fn(&Vec<Vec<PortBinding>>) -> Vec<(usize, bool)>>(
    liveness: L,
    servers: Seq<ScannedView>,
    answers: Seq<(usize, bool)>,
) -> bool {
    exists|q: Vec<Vec<PortBinding>>, a: Vec<(usize, bool)>| #[trigger]
        call_ensures(liveness, (&q,), a) && binding_lists(q@) == refresh::server_ports(servers)
            && a@ == answers
}

/// Where a scan that finds nothing changed starts from, once it has taken over the
/// latest readings.
pub open spec fn refresh_start(s: Scanned, listeners: Seq<RawListenerView>) -> Refresh {
    Refresh {
        servers: refresh::reread_all(s.servers, listeners),
        titles: refresh::titles_kept(s.servers, listeners, s.titles),
    }
}

/// The state after a scan, once the Servers have got the pressure of their readings.
pub open spec fn with_usage(
    s: Scanned,
    servers: Seq<ScannedView>,
    titles: Titles,
    fingerprint: Option<u64>,
    threshold: u32,
    now: Timestamp,
) -> Scanned {
    let runs = usage::live_runs(s.runs, servers);
    Scanned {
        servers: usage::pressed(runs, servers, threshold, now),
        fingerprint,
        titles,
        runs: usage::runs_after(runs, servers, threshold, now),
    }
}

/// Whether a scan that finds nothing changed leads from one state to the other, with
/// these answers of the network.
pub open spec fn refresh_scan_leads_to<
    L: Fn(&Vec<Vec<PortBinding>>) -> Vec<(usize, bool)>,
    B: Fn(&Vec<(usize, PortBinding)>) -> Vec<(usize, Option<String>)>,
    T: Fn(&PortBinding) -> Option<String>,
>(
    before: Scanned,
    listeners: Seq<RawListenerView>,
    probes: ProbeDeps<L, B, T>,
    threshold: u32,
    now: Timestamp,
    answers: Seq<(usize, bool)>,
    found: Seq<Option<Seq<char>>>,
    after: Scanned,
    outcome: ScanOutcome,
) -> bool {
    let start = refresh_start(before, listeners);
    let end = refresh::refresh_all(start, answers, found);
    &&& may_answer_for(probes.liveness, start.servers, answers)
    &&& refresh::refresh_explained(probes.title, start, answers, found)
    &&& after == with_usage(before, end.servers, end.titles, before.fingerprint, threshold, now)
    &&& outcome == (ScanOutcome {
        structural: refresh::any_replaced(before.servers, listeners) || refresh::health_differs(
            start.servers,
            end.servers,
        ) || usage::pressure_differs(end.servers, after.servers),
        resources: true,
    })
}

/// What a scan does where the listeners have not changed.
pub fn refresh_scan<
    L: Fn(&Vec<Vec<PortBinding>>) -> Vec<(usize, bool)>,
    B: Fn(&Vec<(usize, PortBinding)>) -> Vec<(usize, Option<String>)>,
    T: Fn(&PortBinding) -> Option<String>,
>(
    state: &mut ScannerState,
    listeners: &Vec<RawListener>,
    probes: &ProbeDeps<L, B, T>,
    now: Timestamp,
) -> (r: ScanOutcome)
    requires
        pipeline::probeable(*probes),
    ensures
        same_otherwise(*final(state), *old(state)),
        exists|answers: Seq<(usize, bool)>, found: Seq<Option<Seq<char>>>| #[trigger]
            refresh_scan_leads_to(
                scanned(*old(state)),
                listener_views(listeners@),
                *probes,
                old(state).pressure_history.threshold(),
                now,
                answers,
                found,
                scanned(*final(state)),
                r,
            ),
{
    let ghost before = scanned(*state);
    let ghost threshold = state.pressure_history.threshold();
    let replaced = refresh::refresh_identity(
        &mut state.servers,
        listeners,
        &mut state.title_cache,
    );
    let ghost start = refresh_start(before, listener_views(listeners@));
    let input = refresh::refresh_input(&state.servers);
    let answers = (probes.liveness)(&input);
    proof {
        assert(may_answer_for(probes.liveness, start.servers, answers@));
    }
    let health_changed = refresh::apply_liveness(
        &mut state.servers,
        &answers,
        &mut state.title_cache,
        &probes.title,
    );
    let ghost end = Refresh { servers: server_views(state.servers@), titles: state.title_cache@ };
    let pressure_changed = usage::apply_usage(&mut state.servers, now, &mut state.pressure_history);
    let outcome = ScanOutcome {
        structural: replaced || health_changed || pressure_changed,
        resources: true,
    };
    proof {
        let found = choose|found: Seq<Option<Seq<char>>>| #[trigger]
            refresh::refresh_leads_to(probes.title, start, answers@, found, end);
        assert(refresh_scan_leads_to(
            before,
            listener_views(listeners@),
            *probes,
            threshold,
            now,
            answers@,
            found,
            scanned(*state),
            outcome,
        ));
    }
    outcome
}

/// Whether a scan that classifies everything anew leads from one state to the other,
/// with these answers of the network.
pub open spec fn full_scan_leads_to<
    O: Fn(&str) -> Option<String>,
    F: Fn(&str) -> bool,
    L: Fn(&Vec<Vec<PortBinding>>) -> Vec<(usize, bool)>,
    B: Fn(&Vec<(usize, PortBinding)>) -> Vec<(usize, Option<String>)>,
    T: Fn(&PortBinding) -> Option<String>,
>(
    before: Scanned,
    listeners: Seq<RawListenerView>,
    self_pids: SelfPids,
    deps: ClassifyDeps<O, F>,
    probes: ProbeDeps<L, B, T>,
    force_full: bool,
    threshold: u32,
    now: Timestamp,
    judged: Seq<Judged>,
    answers: Seq<(usize, bool)>,
    found: Seq<(usize, Option<Seq<char>>)>,
    servers: Seq<ScannedView>,
    after: Scanned,
    outcome: ScanOutcome,
) -> bool {
    let cache = if force_full {
        Titles::empty()
    } else {
        before.titles
    };
    &&& renew::renews(
        before.servers,
        listeners,
        self_pids,
        deps,
        probes,
        cache,
        judged,
        answers,
        found,
        servers,
        after.titles,
    )
    &&& after == with_usage(
        before,
        servers,
        after.titles,
        Some(fingerprint_of(listeners)),
        threshold,
        now,
    )
    &&& outcome == (ScanOutcome {
        structural: refresh::scans_differ(before.servers, after.servers) || force_full,
        resources: true,
    })
}

/// What a scan does where the listeners have changed, or where it is asked to look at
/// everything anew, which also asks every title again.
pub fn full_scan<
    O: Fn(&str) -> Option<String>,
    F: Fn(&str) -> bool,
    L: Fn(&Vec<Vec<PortBinding>>) -> Vec<(usize, bool)>,
    B: Fn(&Vec<(usize, PortBinding)>) -> Vec<(usize, Option<String>)>,
    T: Fn(&PortBinding) -> Option<String>,
>(
    state: &mut ScannerState,
    listeners: &Vec<RawListener>,
    self_pids: SelfPids,
    deps: &ClassifyDeps<O, F>,
    probes: &ProbeDeps<L, B, T>,
    force_full: bool,
    now: Timestamp,
) -> (r: ScanOutcome)
    requires
        classify::nameable(deps.owning_app),
        project::askable(deps.path_exists),
        pipeline::probeable(*probes),
    ensures
        same_otherwise(*final(state), *old(state)),
        exists|
            judged: Seq<Judged>,
            answers: Seq<(usize, bool)>,
            found: Seq<(usize, Option<Seq<char>>)>,
            servers: Seq<ScannedView>,
        | #[trigger]
            full_scan_leads_to(
                scanned(*old(state)),
                listener_views(listeners@),
                self_pids,
                *deps,
                *probes,
                force_full,
                old(state).pressure_history.threshold(),
                now,
                judged,
                answers,
                found,
                servers,
                scanned(*final(state)),
                r,
            ),
{
    let ghost before = scanned(*state);
    let ghost threshold = state.pressure_history.threshold();
    let fingerprint: u64 = fingerprint::fingerprint(listeners);
    if force_full {
        titles::invalidate_all_titles(&mut state.title_cache);
    }
    let ghost cache = state.title_cache@;
    let mut new_servers = renew::renew(
        &state.servers,
        listeners,
        self_pids,
        deps,
        probes,
        &mut state.title_cache,
    );
    let ghost servers = server_views(new_servers@);
    let ghost titles_after = state.title_cache@;
    let _ = usage::apply_usage(&mut new_servers, now, &mut state.pressure_history);
    let changed = refresh::servers_differ(&state.servers, &new_servers);
    state.servers = new_servers;
    state.last_fingerprint = Some(fingerprint);
    let outcome = ScanOutcome { structural: changed || force_full, resources: true };
    proof {
        let (judged, answers, found) = choose|
            judged: Seq<Judged>,
            answers: Seq<(usize, bool)>,
            found: Seq<(usize, Option<Seq<char>>)>,
        | #[trigger]
            renew::renews(
                before.servers,
                listener_views(listeners@),
                self_pids,
                *deps,
                *probes,
                cache,
                judged,
                answers,
                found,
                servers,
                titles_after,
            );
        assert(full_scan_leads_to(
            before,
            listener_views(listeners@),
            self_pids,
            *deps,
            *probes,
            force_full,
            threshold,
            now,
            judged,
            answers,
            found,
            servers,
            scanned(*state),
            outcome,
        ));
    }
    outcome
}

/// Whether a scan that found these listeners leads from one state to the other.
pub open spec fn scan_leads_to<
    O: Fn(&str) -> Option<String>,
    F: Fn(&str) -> bool,
    L: Fn(&Vec<Vec<PortBinding>>) -> Vec<(usize, bool)>,
    B: Fn(&Vec<(usize, PortBinding)>) -> Vec<(usize, Option<String>)>,
    T: Fn(&PortBinding) -> Option<String>,
>(
    before: Scanned,
    listeners: Seq<RawListenerView>,
    self_pids: SelfPids,
    deps: ClassifyDeps<O, F>,
    probes: ProbeDeps<L, B, T>,
    force_full: bool,
    threshold: u32,
    now: Timestamp,
    after: Scanned,
    outcome: ScanOutcome,
) -> bool {
    if unchanged(before, listeners, force_full) {
        exists|answers: Seq<(usize, bool)>, found: Seq<Option<Seq<char>>>| #[trigger]
            refresh_scan_leads_to(
                before,
                listeners,
                probes,
                threshold,
                now,
                answers,
                found,
                after,
                outcome,
            )
    } else {
        exists|
            judged: Seq<Judged>,
            answers: Seq<(usize, bool)>,
            found: Seq<(usize, Option<Seq<char>>)>,
            servers: Seq<ScannedView>,
        | #[trigger]
            full_scan_leads_to(
                before,
                listeners,
                self_pids,
                deps,
                probes,
                force_full,
                threshold,
                now,
                judged,
                answers,
                found,
                servers,
                after,
                outcome,
            )
    }
}

/// One scan, given what the platform listed.
///
/// Where nothing about the listeners has changed, deriving Projects and Kinds is
/// skipped; readings, health and titles are brought up to date either way. A listing
/// that failed changes nothing.
pub fn scan_listed<
    O: Fn(&str) -> Option<String>,
    F: Fn(&str) -> bool,
    L: Fn(&Vec<Vec<PortBinding>>) -> Vec<(usize, bool)>,
    B: Fn(&Vec<(usize, PortBinding)>) -> Vec<(usize, Option<String>)>,
    T: Fn(&PortBinding) -> Option<String>,
>(
    state: &mut ScannerState,
    listed: Result<Vec<RawListener>, String>,
    self_pids: SelfPids,
    deps: &ClassifyDeps<O, F>,
    probes: &ProbeDeps<L, B, T>,
    force_full: bool,
    now: Timestamp,
) -> (r: Result<ScanOutcome, String>)
    requires
        classify::nameable(deps.owning_app),
        project::askable(deps.path_exists),
        pipeline::probeable(*probes),
    ensures
        same_otherwise(*final(state), *old(state)),
        match listed {
            Ok(listeners) => r is Ok && scan_leads_to(
                scanned(*old(state)),
                listener_views(listeners@),
                self_pids,
                *deps,
                *probes,
                force_full,
                old(state).pressure_history.threshold(),
                now,
                scanned(*final(state)),
                r->Ok_0,
            ),
            Err(e) => r == Err::<ScanOutcome, String>(e) && *final(state) == *old(state),
        },
{
    let listeners = match listed {
        Ok(l) => l,
        Err(e) => return Err(e),
    };
    let fingerprint: u64 = fingerprint::fingerprint(&listeners);
    let known = match state.last_fingerprint {
        Some(f) => f == fingerprint,
        None => false,
    };
    if !force_full && known {
        Ok(refresh_scan(state, &listeners, probes, now))
    } else {
        Ok(full_scan(state, &listeners, self_pids, deps, probes, force_full, now))
    }
}

/// Whether one scan of `source` leads from one state to the other: it listed the
/// listeners, read the clock after that, and went on from there. A listing that failed
/// is handed on and changes nothing.
pub open spec fn scan_of_leads_to<
    S: ProcessSource,
    O: Fn(&str) -> Option<String>,
    F: Fn(&str) -> bool,
    L: Fn(&Vec<Vec<PortBinding>>) -> Vec<(usize, bool)>,
    B: Fn(&Vec<(usize, PortBinding)>) -> Vec<(usize, Option<String>)>,
    T: Fn(&PortBinding) -> Option<String>,
    C: Fn() -> Timestamp,
>(
    before: ScannerState,
    source: &S,
    self_pids: SelfPids,
    deps: ClassifyDeps<O, F>,
    probes: ProbeDeps<L, B, T>,
    force_full: bool,
    clock: C,
    listed: Result<Vec<RawListener>, String>,
    now: Timestamp,
    after: ScannerState,
    r: Result<ScanOutcome, String>,
) -> bool {
    &&& call_ensures(S::enumerate, (source,), listed)
    &&& match listed {
        Ok(listeners) => {
            &&& call_ensures(clock, (), now)
            &&& r is Ok
            &&& scan_leads_to(
                scanned(before),
                listener_views(listeners@),
                self_pids,
                deps,
                probes,
                force_full,
                before.pressure_history.threshold(),
                now,
                scanned(after),
                r->Ok_0,
            )
        },
        Err(e) => r == Err::<ScanOutcome, String>(e) && after == before,
    }
}

/// One scan: list the listeners, then bring the state up to date.
pub fn scan_once<
    S: ProcessSource,
    O: Fn(&str) -> Option<String>,
    F: Fn(&str) -> bool,
    L: Fn(&Vec<Vec<PortBinding>>) -> Vec<(usize, bool)>,
    B: Fn(&Vec<(usize, PortBinding)>) -> Vec<(usize, Option<String>)>,
    T: Fn(&PortBinding) -> Option<String>,
    C: Fn() -> Timestamp,
>(
    state: &mut ScannerState,
    source: &S,
    self_pids: SelfPids,
    deps: &ClassifyDeps<O, F>,
    probes: &ProbeDeps<L, B, T>,
    force_full: bool,
    clock: &C,
) -> (r: Result<ScanOutcome, String>)
    requires
        classify::nameable(deps.owning_app),
        project::askable(deps.path_exists),
        pipeline::probeable(*probes),
        call_requires(*clock, ()),
    ensures
        same_otherwise(*final(state), *old(state)),
        exists|listed: Result<Vec<RawListener>, String>, now: Timestamp| #[trigger]
            scan_of_leads_to(
                *old(state),
                source,
                self_pids,
                *deps,
                *probes,
                force_full,
                *clock,
                listed,
                now,
                *final(state),
                r,
            ),
{
    let listed = source.enumerate();
    let ghost found = listed;
    let listeners = match listed {
        Ok(listeners) => listeners,
        Err(e) => {
            let r: Result<ScanOutcome, String> = Err(e);
            proof {
                assert(scan_of_leads_to(
                    *old(state),
                    source,
                    self_pids,
                    *deps,
                    *probes,
                    force_full,
                    *clock,
                    found,
                    Timestamp { secs: 0, nanos: 0 },
                    *state,
                    r,
                ));
            }
            return r;
        },
    };
    let now = clock();
    let r = scan_listed(state, Ok(listeners), self_pids, deps, probes, force_full, now);
    proof {
        assert(scan_of_leads_to(
            *old(state),
            source,
            self_pids,
            *deps,
            *probes,
            force_full,
            *clock,
            found,
            now,
            *state,
            r,
        ));
    }
    r
}

// ---------------------------------------------------------------------------------
// What every scan keeps.
// ---------------------------------------------------------------------------------

/// Listeners that differ from those of the last scan in their readings alone are not
/// classified anew.
pub proof fn lemma_readings_alone_are_no_change(
    s: Scanned,
    before: Seq<RawListenerView>,
    listeners: Seq<RawListenerView>,
)
    requires
        s.fingerprint == Some(fingerprint_of(before)),
        before.map_values(|l: RawListenerView| fingerprint::without_readings(l))
            == listeners.map_values(|l: RawListenerView| fingerprint::without_readings(l)),
    ensures
        unchanged(s, listeners, false),
{
    fingerprint::lemma_fingerprint_ignores_readings(before, listeners);
}

/// Readings alone redraw nothing: a scan that finds the same listeners, each of them the
/// same process as before and answering as before, and no pressure changed, tells fresh
/// figures and no structural change.
pub proof fn lemma_readings_alone_redraw_nothing<
    L: Fn(&Vec<Vec<PortBinding>>) -> Vec<(usize, bool)>,
    B: Fn(&Vec<(usize, PortBinding)>) -> Vec<(usize, Option<String>)>,
    T: Fn(&PortBinding) -> Option<String>,
>(
    before: Scanned,
    listeners: Seq<RawListenerView>,
    probes: ProbeDeps<L, B, T>,
    threshold: u32,
    now: Timestamp,
    answers: Seq<(usize, bool)>,
    found: Seq<Option<Seq<char>>>,
    after: Scanned,
    outcome: ScanOutcome,
)
    requires
        refresh_scan_leads_to(
            before,
            listeners,
            probes,
            threshold,
            now,
            answers,
            found,
            after,
            outcome,
        ),
        !refresh::any_replaced(before.servers, listeners),
        forall|k: int|
            0 <= k < answers.len() && (#[trigger] answers[k]).0 < before.servers.len()
                ==> before.servers[answers[k].0 as int].health == refresh::answer_health(
                answers[k].1,
            ),
        forall|i: int|
            0 <= i < before.servers.len() ==> (#[trigger] after.servers[i]).pressure
                == before.servers[i].pressure,
    ensures
        !outcome.structural,
        outcome.resources,
{
    let start = refresh_start(before, listeners);
    let end = refresh::refresh_all(start, answers, found);
    assert forall|k: int|
        0 <= k < answers.len() && (#[trigger] answers[k]).0
            < start.servers.len() implies start.servers[answers[k].0 as int].health
        == refresh::answer_health(answers[k].1) by {
        assert(start.servers[answers[k].0 as int] == refresh::reread(
            before.servers[answers[k].0 as int],
            listeners,
        ));
    }
    refresh::lemma_steady_answers_change_nothing(start, answers, found);
    refresh::lemma_refresh_keeps_identity(start, answers, found);
    assert forall|i: int| 0 <= i < end.servers.len() implies (#[trigger] end.servers[i]).pressure
        == after.servers[i].pressure by {
        assert(start.servers[i] == refresh::reread(before.servers[i], listeners));
        assert((ScannedView {
            health: start.servers[i].health,
            title: start.servers[i].title,
            ..end.servers[i]
        }) == start.servers[i]);
    }
}

/// Small differences in the readings of a start time are never taken for another process:
/// where every reading is within the tolerance of the start time that its Server is known
/// by, all start times and all remembered titles stay as the answers are worked in, and
/// the list is redrawn only where a Server's health or pressure is another than before.
pub proof fn lemma_jitter_is_no_replacement<
    L: Fn(&Vec<Vec<PortBinding>>) -> Vec<(usize, bool)>,
    B: Fn(&Vec<(usize, PortBinding)>) -> Vec<(usize, Option<String>)>,
    T: Fn(&PortBinding) -> Option<String>,
>(
    before: Scanned,
    listeners: Seq<RawListenerView>,
    probes: ProbeDeps<L, B, T>,
    threshold: u32,
    now: Timestamp,
    answers: Seq<(usize, bool)>,
    found: Seq<Option<Seq<char>>>,
    after: Scanned,
    outcome: ScanOutcome,
)
    requires
        refresh_scan_leads_to(
            before,
            listeners,
            probes,
            threshold,
            now,
            answers,
            found,
            after,
            outcome,
        ),
        refresh::starts_agree(before.servers, listeners),
    ensures
        refresh_start(before, listeners).titles == before.titles,
        after.servers.len() == before.servers.len(),
        forall|i: int|
            0 <= i < before.servers.len() ==> (#[trigger] after.servers[i]).start_time
                == before.servers[i].start_time,
        forall|i: int|
            0 <= i < before.servers.len() ==> (#[trigger] refresh_start(
                before,
                listeners,
            ).servers[i]).title == before.servers[i].title,
        outcome.structural == (refresh::health_differs(before.servers, after.servers)
            || usage::pressure_differs(before.servers, after.servers)),
{
    let start = refresh_start(before, listeners);
    let end = refresh::refresh_all(start, answers, found);
    let runs = usage::live_runs(before.runs, end.servers);
    refresh::lemma_same_process_keeps_the_title(before.servers, listeners, before.titles);
    refresh::lemma_refresh_keeps_identity(start, answers, found);
    usage::lemma_pressed_keeps_the_rest(runs, end.servers, threshold, now);
    assert forall|i: int| 0 <= i < before.servers.len() implies (
    #[trigger] after.servers[i]).start_time == before.servers[i].start_time
        && after.servers[i].health == end.servers[i].health && end.servers[i].pressure
        == before.servers[i].pressure && start.servers[i].health == before.servers[i].health by {
        assert(start.servers[i] == refresh::reread(before.servers[i], listeners));
        assert((ScannedView {
            health: start.servers[i].health,
            title: start.servers[i].title,
            ..end.servers[i]
        }) == start.servers[i]);
        assert((ScannedView { pressure: end.servers[i].pressure, ..after.servers[i] })
            == end.servers[i]);
    }
    if refresh::health_differs(start.servers, end.servers) {
        let i = choose|i: int|
            0 <= i < start.servers.len() && (#[trigger] start.servers[i]).health
                != end.servers[i].health;
        assert(after.servers[i].health == end.servers[i].health);
        assert(before.servers[i].health != after.servers[i].health);
    }
    if refresh::health_differs(before.servers, after.servers) {
        let i = choose|i: int|
            0 <= i < before.servers.len() && (#[trigger] before.servers[i]).health
                != after.servers[i].health;
        assert(start.servers[i].health != end.servers[i].health);
    }
    if usage::pressure_differs(end.servers, after.servers) {
        let i = choose|i: int|
            0 <= i < end.servers.len() && (#[trigger] end.servers[i]).pressure
                != after.servers[i].pressure;
        assert(before.servers[i].pressure != after.servers[i].pressure);
    }
    if usage::pressure_differs(before.servers, after.servers) {
        let i = choose|i: int|
            0 <= i < before.servers.len() && (#[trigger] before.servers[i]).pressure
                != after.servers[i].pressure;
        assert(end.servers[i].pressure != after.servers[i].pressure);
    }
}

/// Whether every Server of a state has a title only where it is a development server that
/// answers.
pub open spec fn all_rightly_titled(s: Scanned) -> bool {
    forall|i: int| 0 <= i < s.servers.len() ==> pipeline::rightly_titled(#[trigger] s.servers[i])
}

/// Only development servers that answer ever have a title: a state in which that holds is
/// followed by one in which it holds, whatever the listing, the disk and the network
/// answer.
pub proof fn lemma_scans_title_rightly<
    O: Fn(&str) -> Option<String>,
    F: Fn(&str) -> bool,
    L: Fn(&Vec<Vec<PortBinding>>) -> Vec<(usize, bool)>,
    B: Fn(&Vec<(usize, PortBinding)>) -> Vec<(usize, Option<String>)>,
    T: Fn(&PortBinding) -> Option<String>,
>(
    before: Scanned,
    listeners: Seq<RawListenerView>,
    self_pids: SelfPids,
    deps: ClassifyDeps<O, F>,
    probes: ProbeDeps<L, B, T>,
    force_full: bool,
    threshold: u32,
    now: Timestamp,
    after: Scanned,
    outcome: ScanOutcome,
)
    requires
        all_rightly_titled(before),
        scan_leads_to(
            before,
            listeners,
            self_pids,
            deps,
            probes,
            force_full,
            threshold,
            now,
            after,
            outcome,
        ),
    ensures
        all_rightly_titled(after),
{
    let shown = if unchanged(before, listeners, force_full) {
        let (answers, found) = choose|answers: Seq<(usize, bool)>, found: Seq<Option<Seq<char>>>|
         #[trigger]
            refresh_scan_leads_to(
                before,
                listeners,
                probes,
                threshold,
                now,
                answers,
                found,
                after,
                outcome,
            );
        let start = refresh_start(before, listeners);
        assert forall|i: int| 0 <= i < start.servers.len() implies pipeline::rightly_titled(
            #[trigger] start.servers[i],
        ) by {
            assert(start.servers[i] == refresh::reread(before.servers[i], listeners));
        }
        refresh::lemma_refresh_titles_rightly(start, answers, found);
        refresh::lemma_refresh_keeps_identity(start, answers, found);
        refresh::refresh_all(start, answers, found).servers
    } else {
        let (judged, answers, found, servers) = choose|
            judged: Seq<Judged>,
            answers: Seq<(usize, bool)>,
            found: Seq<(usize, Option<Seq<char>>)>,
            servers: Seq<ScannedView>,
        | #[trigger]
            full_scan_leads_to(
                before,
                listeners,
                self_pids,
                deps,
                probes,
                force_full,
                threshold,
                now,
                judged,
                answers,
                found,
                servers,
                after,
                outcome,
            );
        let cache = if force_full {
            Titles::empty()
        } else {
            before.titles
        };
        let kept = refresh::titles_kept(before.servers, listeners, cache);
        let fresh = pipeline::probed(listeners, judged, answers, found, kept).0;
        pipeline::lemma_only_dev_servers_are_titled(listeners, judged, answers, found, kept);
        renew::lemma_anchoring_keeps_the_rest(before.servers, fresh);
        assert forall|i: int| 0 <= i < servers.len() implies pipeline::rightly_titled(
            #[trigger] servers[i],
        ) by {
            assert(pipeline::rightly_titled(fresh[i]));
            assert((ScannedView { start_time: fresh[i].start_time, ..servers[i] }) == fresh[i]);
        }
        servers
    };
    let runs = usage::live_runs(before.runs, shown);
    usage::lemma_pressed_keeps_the_rest(runs, shown, threshold, now);
    assert forall|i: int| 0 <= i < after.servers.len() implies pipeline::rightly_titled(
        #[trigger] after.servers[i],
    ) by {
        assert(pipeline::rightly_titled(shown[i]));
        assert((ScannedView { pressure: shown[i].pressure, ..after.servers[i] }) == shown[i]);
    }
}

/// Whether the runs tracked are those of the Servers, each of the process that its Server
/// is known to be.
pub open spec fn in_step(s: Scanned) -> bool {
    &&& distinct_ids(s.servers)
    &&& forall|i: int|
        0 <= i < s.servers.len() ==> s.runs.contains_key((#[trigger] s.servers[i]).id)
            && s.runs[s.servers[i].id].start_time == s.servers[i].start_time
    &&& forall|id: Seq<char>| #[trigger]
        s.runs.contains_key(id) ==> usage::ids(s.servers).contains(id)
}

/// Servers that are known by the start times that their runs are of, or are new, or have
/// a start time that is no longer that of their run, are in step with the runs after
/// their readings.
proof fn lemma_readings_keep_in_step(
    s: Scanned,
    servers: Seq<ScannedView>,
    titles: Titles,
    fingerprint: Option<u64>,
    threshold: u32,
    now: Timestamp,
)
    requires
        distinct_ids(servers),
        forall|i: int|
            0 <= i < servers.len() && s.runs.contains_key((#[trigger] servers[i]).id)
                && pressure::same_start(s.runs[servers[i].id].start_time, servers[i].start_time)
                ==> s.runs[servers[i].id].start_time == servers[i].start_time,
    ensures
        in_step(with_usage(s, servers, titles, fingerprint, threshold, now)),
{
    let runs = usage::live_runs(s.runs, servers);
    let after = with_usage(s, servers, titles, fingerprint, threshold, now);
    usage::lemma_pressed_keeps_the_rest(runs, servers, threshold, now);
    usage::lemma_each_server_has_its_own_run(runs, servers, threshold, now);
    assert forall|i: int| 0 <= i < after.servers.len() implies after.runs.contains_key(
        (#[trigger] after.servers[i]).id,
    ) && after.runs[after.servers[i].id].start_time == after.servers[i].start_time by {
        assert((ScannedView { pressure: servers[i].pressure, ..after.servers[i] }) == servers[i]);
        assert(usage::ids(servers)[i] == servers[i].id);
        assert(after.runs[servers[i].id] == usage::run_after(runs, servers[i], threshold, now));
    }
    assert(usage::ids(after.servers) =~= usage::ids(servers)) by {
        assert forall|i: int| 0 <= i < servers.len() implies usage::ids(after.servers)[i]
            == usage::ids(servers)[i] by {
            assert((ScannedView { pressure: servers[i].pressure, ..after.servers[i] })
                == servers[i]);
        }
    }
    assert forall|i: int, j: int| 0 <= i < j < after.servers.len() implies (
    #[trigger] after.servers[i]).id != (#[trigger] after.servers[j]).id by {
        assert(usage::ids(after.servers)[i] == usage::ids(servers)[i]);
        assert(usage::ids(after.servers)[j] == usage::ids(servers)[j]);
        assert(servers[i].id != servers[j].id);
    }
    assert forall|id: Seq<char>| #[trigger]
        after.runs.contains_key(id) implies usage::ids(after.servers).contains(id) by {
        if !usage::ids(servers).contains(id) {
            assert(usage::runs_after(runs, servers, threshold, now).contains_key(id)
                == runs.contains_key(id));
        }
    }
}

/// The Servers that a scan which finds nothing changed shows, before their pressure is
/// told.
proof fn lemma_refreshed(
    before: Scanned,
    listeners: Seq<RawListenerView>,
    answers: Seq<(usize, bool)>,
    found: Seq<Option<Seq<char>>>,
)
    ensures
        ({
            let end = refresh::refresh_all(refresh_start(before, listeners), answers, found);
            &&& end.servers.len() == before.servers.len()
            &&& forall|i: int|
                0 <= i < before.servers.len() ==> ({
                    let was = refresh::reread(before.servers[i], listeners);
                    &&& (#[trigger] end.servers[i]).id == was.id
                    &&& end.servers[i].start_time == was.start_time
                    &&& end.servers[i].usage == was.usage
                })
        }),
{
    let start = refresh_start(before, listeners);
    let end = refresh::refresh_all(start, answers, found);
    refresh::lemma_refresh_keeps_identity(start, answers, found);
    assert forall|i: int| 0 <= i < before.servers.len() implies ({
        let was = refresh::reread(before.servers[i], listeners);
        &&& (#[trigger] end.servers[i]).id == was.id
        &&& end.servers[i].start_time == was.start_time
        &&& end.servers[i].usage == was.usage
    }) by {
        assert(start.servers[i] == refresh::reread(before.servers[i], listeners));
        assert((ScannedView {
            health: start.servers[i].health,
            title: start.servers[i].title,
            ..end.servers[i]
        }) == start.servers[i]);
    }
}

/// Scans keep the runs in step with the Servers, where no process is listed twice.
pub proof fn lemma_scans_keep_in_step<
    O: Fn(&str) -> Option<String>,
    F: Fn(&str) -> bool,
    L: Fn(&Vec<Vec<PortBinding>>) -> Vec<(usize, bool)>,
    B: Fn(&Vec<(usize, PortBinding)>) -> Vec<(usize, Option<String>)>,
    T: Fn(&PortBinding) -> Option<String>,
>(
    before: Scanned,
    listeners: Seq<RawListenerView>,
    self_pids: SelfPids,
    deps: ClassifyDeps<O, F>,
    probes: ProbeDeps<L, B, T>,
    force_full: bool,
    threshold: u32,
    now: Timestamp,
    after: Scanned,
    outcome: ScanOutcome,
)
    requires
        in_step(before),
        pipeline::distinct_pids(listeners),
        scan_leads_to(
            before,
            listeners,
            self_pids,
            deps,
            probes,
            force_full,
            threshold,
            now,
            after,
            outcome,
        ),
    ensures
        in_step(after),
{
    if unchanged(before, listeners, force_full) {
        let (answers, found) = choose|answers: Seq<(usize, bool)>, found: Seq<Option<Seq<char>>>|
         #[trigger]
            refresh_scan_leads_to(
                before,
                listeners,
                probes,
                threshold,
                now,
                answers,
                found,
                after,
                outcome,
            );
        let end = refresh::refresh_all(refresh_start(before, listeners), answers, found);
        lemma_refreshed(before, listeners, answers, found);
        assert forall|i: int, j: int| 0 <= i < j < end.servers.len() implies (
        #[trigger] end.servers[i]).id != (#[trigger] end.servers[j]).id by {
            assert(before.servers[i].id != before.servers[j].id);
        }
        assert forall|i: int|
            0 <= i < end.servers.len() && before.runs.contains_key((#[trigger] end.servers[i]).id)
                && pressure::same_start(
                before.runs[end.servers[i].id].start_time,
                end.servers[i].start_time,
            ) implies before.runs[end.servers[i].id].start_time == end.servers[i].start_time by {
            assert(before.runs[before.servers[i].id].start_time == before.servers[i].start_time);
        }
        lemma_readings_keep_in_step(
            before,
            end.servers,
            end.titles,
            before.fingerprint,
            threshold,
            now,
        );
    } else {
        let (judged, answers, found, servers) = choose|
            judged: Seq<Judged>,
            answers: Seq<(usize, bool)>,
            found: Seq<(usize, Option<Seq<char>>)>,
            servers: Seq<ScannedView>,
        | #[trigger]
            full_scan_leads_to(
                before,
                listeners,
                self_pids,
                deps,
                probes,
                force_full,
                threshold,
                now,
                judged,
                answers,
                found,
                servers,
                after,
                outcome,
            );
        let cache = if force_full {
            Titles::empty()
        } else {
            before.titles
        };
        let kept = refresh::titles_kept(before.servers, listeners, cache);
        let fresh = pipeline::probed(listeners, judged, answers, found, kept).0;
        pipeline::lemma_scanned_ids_are_distinct(listeners, judged, answers, found, kept);
        renew::lemma_anchoring_keeps_the_rest(before.servers, fresh);
        assert forall|i: int| 0 <= i < servers.len() implies (#[trigger] servers[i]).id
            == fresh[i].id by {
            assert((ScannedView { start_time: fresh[i].start_time, ..servers[i] }) == fresh[i]);
        }
        assert forall|i: int, j: int| 0 <= i < j < servers.len() implies (
        #[trigger] servers[i]).id != (#[trigger] servers[j]).id by {
            assert(fresh[i].id != fresh[j].id);
        }
        assert forall|j: int|
            0 <= j < servers.len() && before.runs.contains_key((#[trigger] servers[j]).id)
                && pressure::same_start(
                before.runs[servers[j].id].start_time,
                servers[j].start_time,
            ) implies before.runs[servers[j].id].start_time == servers[j].start_time by {
            let id = servers[j].id;
            assert(usage::ids(before.servers).contains(id));
            let i = choose|i: int|
                0 <= i < usage::ids(before.servers).len() && usage::ids(before.servers)[i] == id;
            assert(before.servers[i].id == fresh[j].id);
            renew::lemma_renewal_keeps_the_start(before.servers, fresh, i, j);
            assert(before.runs[before.servers[i].id].start_time == before.servers[i].start_time);
        }
        lemma_readings_keep_in_step(
            before,
            servers,
            after.titles,
            Some(fingerprint_of(listeners)),
            threshold,
            now,
        );
    }
}

/// One and the same sign clears all that is kept of a process that is gone: where a scan
/// that finds nothing changed takes a Server's process for another, its run starts afresh
/// with that scan's reading; where it does not, the run goes on.
pub proof fn lemma_replacement_starts_afresh<
    L: Fn(&Vec<Vec<PortBinding>>) -> Vec<(usize, bool)>,
    B: Fn(&Vec<(usize, PortBinding)>) -> Vec<(usize, Option<String>)>,
    T: Fn(&PortBinding) -> Option<String>,
>(
    before: Scanned,
    listeners: Seq<RawListenerView>,
    probes: ProbeDeps<L, B, T>,
    threshold: u32,
    now: Timestamp,
    answers: Seq<(usize, bool)>,
    found: Seq<Option<Seq<char>>>,
    after: Scanned,
    outcome: ScanOutcome,
    i: int,
)
    requires
        in_step(before),
        refresh_scan_leads_to(
            before,
            listeners,
            probes,
            threshold,
            now,
            answers,
            found,
            after,
            outcome,
        ),
        0 <= i < before.servers.len(),
    ensures
        ({
            let s = before.servers[i];
            let read = refresh::reread(s, listeners);
            let run = if refresh::replaced(s, listeners) {
                TrackedPressure::fresh(read.start_time)
            } else {
                before.runs[s.id]
            };
            &&& after.runs.contains_key(s.id)
            &&& after.runs[s.id] == run.after(read.usage, threshold, now)
            &&& after.servers[i].pressure == after.runs[s.id].pressure(now)
        }),
{
    let end = refresh::refresh_all(refresh_start(before, listeners), answers, found);
    lemma_refreshed(before, listeners, answers, found);
    assert forall|a: int, b: int| 0 <= a < b < end.servers.len() implies (
    #[trigger] end.servers[a]).id != (#[trigger] end.servers[b]).id by {
        assert(before.servers[a].id != before.servers[b].id);
    }
    let runs = usage::live_runs(before.runs, end.servers);
    usage::lemma_each_server_has_its_own_run(runs, end.servers, threshold, now);
    let s = before.servers[i];
    assert(end.servers[i].id == s.id);
    assert(usage::ids(end.servers)[i] == s.id);
    assert(runs.contains_key(s.id) && runs[s.id] == before.runs[s.id]);
    assert(before.runs[s.id].start_time == s.start_time);
    assert(after.runs[end.servers[i].id] == usage::run_after(
        runs,
        end.servers[i],
        threshold,
        now,
    ));
}

} // verus!
