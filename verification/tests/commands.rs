//! Stopping, keeping, opening and the menu bar.

use std::cell::RefCell;

use portside::commands::{
    adopt_listing, advance_stop, after_launch, force_stop, launch_first, launch_for_project, launch_verdict,
    not_found_outcome, open_project, record_polite_stop_result, set_keep_running, stop_all_dev_servers, stop_message,
    stop_server, tray_title, watch_only_outcome, Editor, Launch, LaunchStatus, StopAction, StopEvent, StopFlow,
    StopStart, LAUNCH_EXIT_CHECK_MILLIS, LAUNCH_POLL_INTERVAL_MILLIS, POLITE_STOP_WAIT,
};
use portside::domain::model::{Kind, Project, ProjectAttribution, SelfPids};
use portside::ipc::{HealthWire, ProjectGroup, ResourceUsageWire, ServerWire, Snapshot, StopOutcome, StopResult};
use portside::keeplist::Keeplist;
use portside::platform::{AddressFamily, PortBinding, RawListener, Reachability, ResourceSample};
use portside::scanner::server::resolve;
use portside::scanner::stop::still_held;
use portside::scanner::{
    find_current_holder, fingerprint, ClassifyDeps, FailedPoliteStops, Health, Pressure, ProbeDeps, ScannedServer,
    ScannerState, FORCE_STOP_AUTHORIZATION_TTL,
};
use portside::time::Timestamp;

fn after(seconds: u64) -> Timestamp {
    Timestamp::new(1_760_000_000 + seconds as i64, 0)
}

fn now() -> Timestamp {
    after(0)
}

fn dev_server_wire(id: &str, health: HealthWire) -> ServerWire {
    ServerWire {
        id: id.to_string(),
        pid: 1,
        package: None,
        project_path: None,
        title: None,
        command: "npm run dev".into(),
        ports: vec![],
        uptime_seconds: 10,
        health,
        unattended: true,
        keep_running: false,
        usage: ResourceUsageWire::new(&ResourceSample::default(), Pressure::Normal),
    }
}

fn shown(groups: Vec<ProjectGroup>) -> Snapshot {
    Snapshot {
        projects: groups,
        watch_only: vec![],
        others: vec![],
        scanned_at: "2026-01-01T00:00:00Z".into(),
        scan_failed: false,
    }
}

#[test]
fn tray_title_shows_plain_count_when_all_responding() {
    let snapshot = shown(vec![ProjectGroup {
        project: "a".into(),
        servers: vec![dev_server_wire("1:100", HealthWire::Responding), dev_server_wire("2:200", HealthWire::Responding)],
    }]);
    assert_eq!(tray_title(&snapshot), "2");
}

#[test]
fn tray_title_marks_not_responding() {
    let snapshot = shown(vec![ProjectGroup {
        project: "a".into(),
        servers: vec![
            dev_server_wire("1:100", HealthWire::Responding),
            dev_server_wire("2:200", HealthWire::NotResponding),
        ],
    }]);
    assert_eq!(tray_title(&snapshot), "2!");
}

#[test]
fn tray_title_zero_when_nothing_running() {
    assert_eq!(tray_title(&shown(vec![])), "0");
}

/// A server that was not asked is not counted as silent, and every group counts.
#[test]
fn tray_title_counts_over_all_groups() {
    let group = |n: usize, health: HealthWire| ProjectGroup {
        project: "a".into(),
        servers: (0..n).map(|_| dev_server_wire("1:1", health)).collect(),
    };
    assert_eq!(tray_title(&shown(vec![group(7, HealthWire::Unknown), group(5, HealthWire::Responding)])), "12");
    assert_eq!(tray_title(&shown(vec![group(1, HealthWire::NotResponding), group(5, HealthWire::Unknown)])), "6!");
}

fn binding(port: u16) -> PortBinding {
    PortBinding { port, family: AddressFamily::V4, reachability: Reachability::LocalhostOnly }
}

fn scanned(id: &str, kind: Kind) -> ScannedServer {
    ScannedServer {
        id: id.to_string(),
        pid: 999,
        command: "npm run dev".into(),
        ports: vec![binding(3000)],
        start_time: now(),
        unattended: true,
        kind,
        attribution: ProjectAttribution::Known(Project { root: "/proj".into(), name: "proj".into() }, None),
        belongs_to: None,
        health: Health::Responding,
        title: None,
        usage: ResourceSample::default(),
        pressure: Pressure::Normal,
    }
}

fn listening(pid: u32, port: u16) -> RawListener {
    RawListener {
        pid,
        ppid: 1,
        command: "child".into(),
        exe_path: "/usr/local/bin/node".into(),
        cwd: None,
        ports: vec![binding(port)],
        start_time: now(),
        user: "dev".into(),
        usage: ResourceSample::default(),
    }
}

#[test]
fn resolve_finds_matching_id() {
    let servers = vec![scanned("1:3000", Kind::DevServer)];
    assert!(resolve(&servers, "1:3000").is_some());
}

#[test]
fn resolve_none_for_unknown_id() {
    let servers = vec![scanned("1:3000", Kind::DevServer)];
    assert!(resolve(&servers, "nonexistent").is_none());
}

fn empty_state() -> ScannerState {
    ScannerState::new("/tmp/portside".to_string(), Keeplist::default(), 10, now())
}

#[test]
fn record_polite_stop_result_still_running_stores_id_and_ports() {
    let mut state = empty_state();
    let target = scanned("999:3000", Kind::DevServer);

    record_polite_stop_result(&mut state.failed_polite_stops, "999:3000", &target, StopResult::StillRunning, now());

    let record = state.failed_polite_stops.get("999:3000").expect("a StillRunning result must record the id");
    assert_eq!(record.ports, target.ports);
    assert!(!record.is_expired(now()));
}

#[test]
fn stopped_result_clears_the_failed_polite_stop_record() {
    let mut state = empty_state();
    let target = scanned("999:3000", Kind::DevServer);
    record_polite_stop_result(&mut state.failed_polite_stops, "999:3000", &target, StopResult::StillRunning, now());
    record_polite_stop_result(&mut state.failed_polite_stops, "999:3000", &target, StopResult::Stopped, now());

    assert!(!state.failed_polite_stops.contains_key("999:3000"));
}

/// That a port is held says nothing of a stop that failed.
#[test]
fn port_still_held_alone_does_not_populate_failed_polite_stops() {
    let target = scanned("999:3000", Kind::DevServer);
    let listeners = vec![listening(12345, 3000)];
    let mut state = empty_state();
    let deps = ClassifyDeps { owning_app: |_: &str| None, path_exists: |_: &str| false };
    let probes = ProbeDeps {
        liveness: |_: &Vec<Vec<PortBinding>>| Vec::new(),
        titles: |_: &Vec<(usize, PortBinding)>| Vec::new(),
        title: |_: &PortBinding| None,
    };

    assert!(still_held(&listeners, &target.ports));
    adopt_listing(&mut state, &listeners, SelfPids { own: 1, dev_parent: None }, &deps, &probes);
    assert_eq!(state.servers.len(), 1);
    assert_eq!(state.servers[0].id, "12345:3000");
    assert_eq!(state.servers[0].health, Health::Unknown);
    assert_eq!(state.last_fingerprint, Some(fingerprint(&listeners)));
    assert!(
        !state.failed_polite_stops.contains_key("999:3000"),
        "checking port state must not, by itself, authorize force_stop"
    );
}

#[test]
fn find_current_holder_recovers_the_target_after_the_original_id_stops_resolving() {
    let original_target = scanned("100:3000", Kind::DevServer);
    let mut state = empty_state();
    record_polite_stop_result(
        &mut state.failed_polite_stops,
        "100:3000",
        &original_target,
        StopResult::StillRunning,
        now(),
    );

    let mut survivor = scanned("101:3000", Kind::DevServer);
    survivor.pid = 101;
    state.servers = vec![survivor];

    assert!(resolve(&state.servers, "100:3000").is_none(), "the original id must no longer resolve, by construction");

    let recorded = state.failed_polite_stops.get("100:3000").expect("must still be recorded");
    let found = find_current_holder(&state.servers, &recorded.ports)
        .expect("force_stop must be able to find the surviving child by port");
    assert_eq!(found.id, "101:3000");

    match force_stop(&mut state.failed_polite_stops, &state.servers, "100:3000", after(1)) {
        StopStart::Begin(flow) => {
            assert_eq!(flow.id, "100:3000");
            assert_eq!(flow.target.pid, 101);
        }
        StopStart::Answer(_) => panic!("a recorded failure must allow a forced stop of the survivor"),
    }
}

#[test]
fn each_editor_id_maps_to_its_own_command_chain() {
    assert_eq!(Editor::from_wire(Some("vscode")).chain(), Some(("code", "Visual Studio Code")));
    assert_eq!(Editor::from_wire(Some("cursor")).chain(), Some(("cursor", "Cursor")));
    assert_eq!(Editor::from_wire(Some("zed")).chain(), Some(("zed", "Zed")));
    assert_eq!(Editor::from_wire(Some("sublime")).chain(), Some(("subl", "Sublime Text")));
}

#[test]
fn absent_editor_uses_the_vscode_chain() {
    assert_eq!(Editor::from_wire(None), Editor::VsCode);
}

#[test]
fn unknown_editor_degrades_to_finder_and_never_becomes_a_command() {
    for hostile in ["rm", "; rm -rf /", "/bin/sh", "Code", "", "vscode "] {
        let resolved = Editor::from_wire(Some(hostile));
        assert_eq!(resolved, Editor::FinderOnly, "{hostile:?} must not resolve to an editor");
        assert_eq!(resolved.chain(), None, "{hostile:?} must contribute no command to run");
    }
}

#[test]
fn unknown_editor_is_not_treated_as_absent() {
    assert_ne!(Editor::from_wire(Some("notanedito")), Editor::from_wire(None));
}

/// The next program is tried only where the one before failed, and the answer is whether
/// one worked.
#[test]
fn launches_are_tried_until_one_works() {
    assert_eq!(after_launch(1, 3, true), Some(true));
    assert_eq!(after_launch(3, 3, true), Some(true));
    assert_eq!(after_launch(1, 3, false), None);
    assert_eq!(after_launch(2, 3, false), None);
    assert_eq!(after_launch(3, 3, false), Some(false));

    let launches = launch_for_project("/p", "editor", Editor::Zed);
    for (works, tried, answer) in [
        ([true, true, true], vec!["zed /p"], true),
        ([false, true, true], vec!["zed /p", "open -a Zed /p"], true),
        ([false, false, true], vec!["zed /p", "open -a Zed /p", "open /p"], true),
        ([false, false, false], vec!["zed /p", "open -a Zed /p", "open /p"], false),
    ] {
        let log: RefCell<Vec<String>> = RefCell::new(Vec::new());
        let start = |l: &Launch| {
            let mut log = log.borrow_mut();
            log.push(format!("{} {}", l.program, l.args.join(" ")));
            works[log.len() - 1]
        };
        assert_eq!(launch_first(&launches, &start), answer);
        assert_eq!(*log.borrow(), tried);
    }

    // Without an editor there is Finder alone, and without anything to open nothing runs.
    let only = launch_for_project("/p", "editor", Editor::FinderOnly);
    assert_eq!(only.len(), 1);
    assert!(launch_first(&only, &|l: &Launch| l.program == "open"));
    assert!(!launch_first(&Vec::new(), &|_: &Launch| true));
}

#[test]
fn stop_message_never_contains_raw_port_number() {
    let target = scanned("999:3000", Kind::DevServer);
    let msg = stop_message(&target, StopResult::Stopped);
    assert!(!msg.contains("3000"));
}

// ---- whole stops ----

fn begun(start: StopStart) -> StopFlow {
    match start {
        StopStart::Begin(flow) => flow,
        StopStart::Answer(outcome) => panic!("answered at once: {outcome:?}"),
    }
}

fn answered(start: StopStart) -> StopOutcome {
    match start {
        StopStart::Answer(outcome) => outcome,
        StopStart::Begin(_) => panic!("must be answered at once"),
    }
}

fn finished(action: StopAction) -> StopOutcome {
    match action {
        StopAction::Finish(outcome) => outcome,
        _ => panic!("must be finished"),
    }
}

/// Run a stop against two listings: the one before the signal and the one after.
fn run(
    flow: &mut StopFlow,
    failed: &mut FailedPoliteStops,
    before: Vec<RawListener>,
    later: Result<Vec<RawListener>, String>,
    at: Timestamp,
) -> (Vec<String>, StopOutcome) {
    let mut log: Vec<String> = Vec::new();
    let mut listings = vec![later, Ok(before)];
    let mut action = flow.pending();
    loop {
        let event = match action {
            StopAction::List => {
                log.push("list".to_string());
                StopEvent::Listed(listings.pop().expect("at most two listings"))
            }
            StopAction::RequestStop(pid) => {
                log.push(format!("term {pid}"));
                StopEvent::Signalled
            }
            StopAction::ForceStop(pid) => {
                log.push(format!("kill {pid}"));
                StopEvent::Signalled
            }
            StopAction::Wait(seconds) => {
                log.push(format!("wait {seconds}"));
                StopEvent::Waited
            }
            StopAction::Finish(outcome) => return (log, outcome),
            StopAction::Fail(e) => panic!("failed: {e}"),
            StopAction::Over => panic!("over without an answer"),
        };
        action = flow.advance(event, failed, at);
    }
}

#[test]
fn a_polite_stop_that_works() {
    let servers = vec![scanned("999:3000", Kind::DevServer)];
    let mut failed = FailedPoliteStops::new();
    let mut flow = begun(stop_server(&servers, "999:3000"));
    let (log, outcome) = run(&mut flow, &mut failed, vec![listening(999, 3000)], Ok(vec![]), after(3));
    assert_eq!(log, vec!["list", "term 999", "wait 3", "list"]);
    assert_eq!(outcome.result, StopResult::Stopped);
    assert_eq!(outcome.id, "999:3000");
    assert!(!failed.contains_key("999:3000"));
    assert!(matches!(flow.pending(), StopAction::Over));
    assert_eq!(POLITE_STOP_WAIT, 3);
}

/// The listing after the signal becomes the state; the one before it and a failed one do
/// not.
#[test]
fn the_last_listing_of_a_stop_becomes_the_state() {
    let deps = ClassifyDeps { owning_app: |_: &str| None, path_exists: |_: &str| false };
    let probes = ProbeDeps {
        liveness: |_: &Vec<Vec<PortBinding>>| Vec::new(),
        titles: |_: &Vec<(usize, PortBinding)>| Vec::new(),
        title: |_: &PortBinding| None,
    };
    let own = SelfPids { own: 1, dev_parent: None };
    let survivor = vec![listening(1000, 3000)];
    for later in [Ok(survivor.clone()), Err("lsof is unavailable".to_string())] {
        let mut state = empty_state();
        state.servers = vec![scanned("999:3000", Kind::DevServer)];
        let mut flow = begun(stop_server(&state.servers, "999:3000"));
        let mut tell = |state: &mut ScannerState, event: StopEvent| {
            advance_stop(state, &mut flow, event, own, &deps, &probes, after(3))
        };
        let fresh = vec![listening(999, 3000), listening(7, 7)];
        assert!(matches!(tell(&mut state, StopEvent::Listed(Ok(fresh))), StopAction::RequestStop(999)));
        assert_eq!(state.servers.len(), 1);
        assert_eq!(state.last_fingerprint, None);
        assert!(matches!(tell(&mut state, StopEvent::Signalled), StopAction::Wait(3)));
        assert!(matches!(tell(&mut state, StopEvent::Waited), StopAction::List));
        let listed = later.is_ok();
        let outcome = finished(tell(&mut state, StopEvent::Listed(later)));
        assert_eq!(outcome.result, StopResult::StillRunning);
        assert!(state.failed_polite_stops.contains_key("999:3000"));
        if listed {
            assert_eq!(state.servers[0].id, "1000:3000");
            assert_eq!(state.last_fingerprint, Some(fingerprint(&survivor)));
        } else {
            assert_eq!(state.servers[0].id, "999:3000");
            assert_eq!(state.last_fingerprint, None);
        }
    }
}

/// A stop that failed allows one by force, once.
#[test]
fn a_failed_stop_allows_one_forced_stop() {
    let servers = vec![scanned("999:3000", Kind::DevServer)];
    let mut failed = FailedPoliteStops::new();

    let refused = answered(force_stop(&mut failed, &servers, "999:3000", now()));
    assert_eq!(refused.result, StopResult::Refused);

    // A child that kept the port after its parent went is still a failure.
    let mut flow = begun(stop_server(&servers, "999:3000"));
    let (_, outcome) =
        run(&mut flow, &mut failed, vec![listening(999, 3000)], Ok(vec![listening(1000, 3000)]), after(3));
    assert_eq!(outcome.result, StopResult::StillRunning);
    assert!(outcome.message.ends_with(" It did not stop — you can Force Stop it."));
    assert!(failed.contains_key("999:3000"));

    let mut flow = begun(force_stop(&mut failed, &servers, "999:3000", after(10)));
    let (log, outcome) = run(&mut flow, &mut failed, vec![listening(999, 3000)], Ok(vec![]), after(13));
    assert_eq!(log, vec!["list", "kill 999", "wait 3", "list"]);
    assert_eq!(outcome.result, StopResult::Stopped);

    let refused = answered(force_stop(&mut failed, &servers, "999:3000", after(14)));
    assert_eq!(refused.result, StopResult::Refused);
}

/// A permission that is too old is refused and dropped.
#[test]
fn a_stale_failure_is_dropped() {
    let servers = vec![scanned("999:3000", Kind::DevServer)];
    let mut failed = FailedPoliteStops::new();
    record_polite_stop_result(&mut failed, "999:3000", &servers[0], StopResult::StillRunning, now());
    let late = after(FORCE_STOP_AUTHORIZATION_TTL + 1);
    assert_eq!(answered(force_stop(&mut failed, &servers, "999:3000", late)).result, StopResult::Refused);
    assert!(!failed.contains_key("999:3000"));
    assert_eq!(answered(force_stop(&mut failed, &servers, "999:3000", now())).result, StopResult::Refused);
}

/// Whatever changed since the last scan, nothing is signalled.
#[test]
fn a_changed_server_is_never_signalled() {
    let servers = vec![scanned("999:3000", Kind::DevServer)];
    let mut failed = FailedPoliteStops::new();
    let mut recycled = listening(999, 3000);
    recycled.start_time = after(45);
    for fresh in [vec![], vec![recycled], vec![listening(999, 3001)]] {
        let mut flow = begun(stop_server(&servers, "999:3000"));
        let outcome = finished(flow.advance(StopEvent::Listed(Ok(fresh)), &mut failed, now()));
        assert_eq!(outcome.result, StopResult::Refused);
        assert!(!failed.contains_key("999:3000"));
        assert!(matches!(flow.pending(), StopAction::Over));
    }
}

/// A listing that fails before the signal is an error; one after it proves nothing, so
/// the server counts as running.
#[test]
fn a_failed_listing_is_no_proof_of_a_stop() {
    let servers = vec![scanned("999:3000", Kind::DevServer)];
    let mut failed = FailedPoliteStops::new();

    let mut flow = begun(stop_server(&servers, "999:3000"));
    let outcome = finished(flow.advance(StopEvent::Listed(Err("lsof is unavailable".to_string())), &mut failed, now()));
    assert_eq!(outcome.result, StopResult::Refused);
    assert_eq!(outcome.message, "Couldn't check this Server just now — nothing was stopped.");
    assert!(!failed.contains_key("999:3000"));

    let mut flow = begun(stop_server(&servers, "999:3000"));
    let (_, outcome) =
        run(&mut flow, &mut failed, vec![listening(999, 3000)], Err("lsof is unavailable".to_string()), after(3));
    assert_eq!(outcome.result, StopResult::StillRunning);
    assert!(failed.contains_key("999:3000"));

    // By force, the listing before the signal fails the command and keeps the permission.
    let mut flow = begun(force_stop(&mut failed, &servers, "999:3000", after(3)));
    match flow.advance(StopEvent::Listed(Err("lsof is unavailable".to_string())), &mut failed, after(3)) {
        StopAction::Fail(e) => assert_eq!(e, "could not enumerate to verify force_stop target"),
        _ => panic!("nothing may be signalled"),
    }
    assert!(failed.contains_key("999:3000"));
}

/// An event that does not fit the phase changes nothing.
#[test]
fn a_stop_waits_for_the_event_it_needs() {
    let servers = vec![scanned("999:3000", Kind::DevServer)];
    let mut failed = FailedPoliteStops::new();
    let mut flow = begun(stop_server(&servers, "999:3000"));
    assert!(matches!(flow.advance(StopEvent::Signalled, &mut failed, now()), StopAction::List));
    assert!(matches!(flow.advance(StopEvent::Waited, &mut failed, now()), StopAction::List));
    let listed = StopEvent::Listed(Ok(vec![listening(999, 3000)]));
    assert!(matches!(flow.advance(listed, &mut failed, now()), StopAction::RequestStop(999)));
    assert!(matches!(flow.advance(StopEvent::Waited, &mut failed, now()), StopAction::RequestStop(999)));
}

#[test]
fn what_cannot_be_stopped_is_answered_at_once() {
    let servers = vec![scanned("1:1", Kind::YourOwnTool), scanned("2:2", Kind::PartOfMacOS), scanned("3:3", Kind::PartOfApp)];
    let gone = answered(stop_server(&servers, "9:9"));
    assert_eq!(gone, not_found_outcome("9:9"));
    assert_eq!(gone.message, "This Server is no longer listed — it may have already stopped.");
    for id in ["1:1", "2:2"] {
        let outcome = answered(stop_server(&servers, id));
        assert_eq!(outcome, watch_only_outcome(id));
        assert_eq!(outcome.message, "This Server is Watch Only and is never stopped through this tool.");
    }
    begun(stop_server(&servers, "3:3"));
}

/// A permission for one id does not reach what is never stopped.
#[test]
fn force_does_not_reach_watch_only() {
    let servers = vec![scanned("1:3000", Kind::YourOwnTool)];
    let mut failed = FailedPoliteStops::new();
    record_polite_stop_result(
        &mut failed,
        "7:3000",
        &scanned("7:3000", Kind::DevServer),
        StopResult::StillRunning,
        now(),
    );
    let outcome = answered(force_stop(&mut failed, &servers, "7:3000", now()));
    assert_eq!(outcome, watch_only_outcome("7:3000"));
}

#[test]
fn stopping_everything_stops_dev_servers_only() {
    let servers = vec![
        scanned("1:1", Kind::DevServer),
        scanned("2:2", Kind::BackgroundService),
        scanned("3:3", Kind::DevServer),
        scanned("4:4", Kind::YourOwnTool),
    ];
    let ids: Vec<String> = stop_all_dev_servers(&servers).into_iter().map(|f| f.id).collect();
    assert_eq!(ids, vec!["1:1", "3:3"]);
    assert!(stop_all_dev_servers(&vec![]).is_empty());
}

// ---- keep running ----

#[test]
fn keeping_a_server_marks_its_project_and_command() {
    let mut state = empty_state();
    state.servers = vec![scanned("1:1", Kind::DevServer)];
    let mut without = scanned("2:2", Kind::YourOwnTool);
    without.attribution = ProjectAttribution::NoProject;
    state.servers.push(without);

    assert!(set_keep_running(&mut state, "1:1", true));
    assert!(state.keeplist.is_marked("/proj", "npm run dev"));
    assert!(state.snapshot(now()).projects[0].servers[0].keep_running);
    assert!(set_keep_running(&mut state, "1:1", false));
    assert!(!state.keeplist.is_marked("/proj", "npm run dev"));
    assert!(!set_keep_running(&mut state, "2:2", true));
    assert!(!set_keep_running(&mut state, "9:9", true));
    assert!(state.keeplist.marks().is_empty());
}

// ---- opening ----

fn launch(program: &str, args: &[&str]) -> Launch {
    Launch { program: program.to_string(), args: args.iter().map(|a| a.to_string()).collect() }
}

#[test]
fn a_project_is_opened_in_its_editor_or_else_in_finder() {
    assert_eq!(
        launch_for_project("/proj", "editor", Editor::Zed),
        vec![launch("zed", &["/proj"]), launch("open", &["-a", "Zed", "/proj"]), launch("open", &["/proj"])]
    );
    assert_eq!(
        launch_for_project("/proj", "finder", Editor::Zed),
        vec![launch("open", &["-R", "/proj"]), launch("open", &["/proj"])]
    );
    assert_eq!(launch_for_project("/proj", "editor", Editor::FinderOnly), vec![launch("open", &["/proj"])]);
}

#[test]
fn only_the_folder_of_a_dev_server_is_opened() {
    let servers = vec![scanned("1:1", Kind::DevServer), scanned("2:2", Kind::BackgroundService)];
    assert_eq!(
        open_project(&servers, "1:1", "editor", None),
        vec![
            launch("code", &["/proj"]),
            launch("open", &["-a", "Visual Studio Code", "/proj"]),
            launch("open", &["/proj"]),
        ]
    );
    assert_eq!(open_project(&servers, "1:1", "editor", Some("rm")), vec![launch("open", &["/proj"])]);
    assert!(open_project(&servers, "2:2", "finder", None).is_empty());
    assert!(open_project(&servers, "9:9", "finder", None).is_empty());
}

#[test]
fn a_launch_is_judged_by_how_it_ends() {
    for late in [false, true] {
        assert_eq!(launch_verdict(LaunchStatus::Succeeded, late), Some(true));
        assert_eq!(launch_verdict(LaunchStatus::Failed, late), Some(false));
        assert_eq!(launch_verdict(LaunchStatus::Unknown, late), Some(false));
        assert_eq!(launch_verdict(LaunchStatus::Running, late), if late { Some(true) } else { None });
    }
    assert_eq!(LAUNCH_EXIT_CHECK_MILLIS, 250);
    assert_eq!(LAUNCH_POLL_INTERVAL_MILLIS, 25);
}
