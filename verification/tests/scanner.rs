//! From raw listeners to what is shown, and what may be stopped.

use std::cell::{Cell, RefCell};

use portside::domain::classify::{classify_listener, SELF_LABEL};
use portside::domain::model::{Kind, Project, ProjectAttribution, SelfPids};
use portside::ipc::{PressureWire, Snapshot, WatchOnlyReason};
use portside::keeplist::Keeplist;
use portside::platform::{AddressFamily, PortBinding, ProcessSource, RawListener, Reachability, ResourceSample};
use portside::probe::TitleCache;
use portside::scanner::turn::{finish_turn, refresh_now};
use portside::scanner::{
    classify_and_probe, eligible_for_bulk_stop, find_current_holder, fingerprint, health_from_liveness_result,
    refuse_force_stop_without_prior_failure, refuse_if_identity_changed, refuse_if_watch_only,
    resource_samples_from, scan_once, self_pids, server_id, servers_differ, snapshot_from, title_for,
    what_this_stops, ClassifyDeps, FailedPoliteStop, FailedPoliteStops, Health, PanelState, Pressure,
    PressureHistory, ProbeDeps, ScanOutcome, ScannedServer, ScannerState, CPU_SUSTAIN_FOR, FORCE_STOP_AUTHORIZATION_TTL,
    MEMORY_ELEVATED_BYTES,
};
use portside::time::{format_iso8601, Timestamp};

const NOW: i64 = 1_760_000_000;

fn now() -> Timestamp {
    Timestamp::new(NOW, 0)
}

fn after(seconds: u64) -> Timestamp {
    Timestamp::new(NOW + seconds as i64, 0)
}

fn after_millis(millis: i64) -> Timestamp {
    let total: i64 = NOW * 1000 + millis;
    Timestamp::new(total / 1000, (total % 1000) as u32 * 1_000_000)
}

fn started_at() -> Timestamp {
    Timestamp::new(1_700_000_000, 0)
}

fn binding(port: u16) -> PortBinding {
    PortBinding { port, family: AddressFamily::V4, reachability: Reachability::LocalhostOnly }
}

fn raw(pid: u32, ppid: u32, command: &str, ports: Vec<PortBinding>) -> RawListener {
    RawListener {
        pid,
        ppid,
        command: command.to_string(),
        exe_path: format!("/usr/local/bin/{command}"),
        cwd: Some("/Users/dev/myproject".to_string()),
        ports,
        start_time: now(),
        user: "dev".to_string(),
        usage: ResourceSample::default(),
    }
}

fn server(id: &str, pid: u32, command: &str, port: u16, kind: Kind) -> ScannedServer {
    ScannedServer {
        id: id.to_string(),
        pid,
        command: command.to_string(),
        ports: vec![binding(port)],
        start_time: now(),
        unattended: false,
        kind,
        attribution: ProjectAttribution::NoProject,
        belongs_to: None,
        health: Health::Responding,
        title: None,
        usage: ResourceSample::default(),
        pressure: Pressure::Normal,
    }
}

fn dev_server(id: &str, project_name: &str) -> ScannedServer {
    let mut s = server(id, 100, "npm run dev", 3000, Kind::DevServer);
    s.unattended = true;
    s.attribution = ProjectAttribution::Known(
        Project { root: "/Users/dev/myproject".to_string(), name: project_name.to_string() },
        None,
    );
    s
}

fn watch_only_server(id: &str, kind: Kind) -> ScannedServer {
    let mut s = server(id, 200, "openclaw", 18789, kind);
    s.belongs_to = Some("openclaw".to_string());
    s
}

fn background_service(id: &str) -> ScannedServer {
    let mut s = server(id, 300, "com.docker.backend", 5432, Kind::BackgroundService);
    s.attribution = ProjectAttribution::Guessed(
        Project { root: "/Users/dev/unrelated".to_string(), name: "unrelated".to_string() },
        None,
    );
    s.belongs_to = Some("OrbStack".to_string());
    s
}

fn part_of_app(id: &str) -> ScannedServer {
    let mut s = server(id, 400, "Code Helper", 9000, Kind::PartOfApp);
    s.belongs_to = Some("Visual Studio Code".to_string());
    s
}

fn sample(cpu_tenths: Option<u32>, memory_bytes: Option<u64>) -> ResourceSample {
    ResourceSample { cpu_tenths_percent: cpu_tenths, memory_bytes }
}

const TEST_CPUS: u32 = 10;

/// No listener below is one of these.
fn nobody() -> SelfPids {
    SelfPids { own: 43241, dev_parent: None }
}

fn empty_state() -> ScannerState {
    ScannerState::new("/tmp/portside".to_string(), Keeplist::default(), TEST_CPUS, now())
}

// ---- health ----

#[test]
fn health_from_liveness_result_true_is_responding() {
    assert_eq!(health_from_liveness_result(Some(true)), Health::Responding);
}

#[test]
fn health_from_liveness_result_false_is_not_responding() {
    assert_eq!(health_from_liveness_result(Some(false)), Health::NotResponding);
}

#[test]
fn health_from_liveness_result_missing_is_unknown_not_not_responding() {
    assert_eq!(health_from_liveness_result(None), Health::Unknown);
}

// ---- the app's own process ----

#[test]
fn this_process_is_classified_watch_only() {
    let guarded = self_pids(own_pid(), 1, false);
    let me = raw(guarded.own, 1, "portside", vec![binding(1420)]);
    let (kind, attribution) = classify_listener(&me, guarded, |_: &str| None, |_: &str| true);

    assert_eq!(kind, Kind::YourOwnTool);
    assert!(kind.is_watch_only(), "Portside's own row must be Watch Only");
    assert_eq!(attribution, ProjectAttribution::NoProject, "Portside must not claim the project it runs inside");
}

/// The pid of the running app; which one it is makes no difference.
fn own_pid() -> u32 {
    4242
}

#[test]
fn another_process_with_the_same_shape_is_still_a_dev_server() {
    let guarded = self_pids(own_pid(), own_pid() + 1, true);
    let unrelated =
        (1..10_000u32).map(|n| guarded.own + n).find(|p| !guarded.covers(*p)).expect("some nearby pid is unguarded");
    let other = raw(unrelated, 1, "node", vec![binding(3000)]);
    let (kind, _) = classify_listener(&other, guarded, |_: &str| None, |_: &str| true);
    assert_eq!(kind, Kind::DevServer);
    assert!(!kind.is_watch_only());
}

/// In development the listener is the app's parent: the process that holds the port
/// spawned the app.
#[test]
fn the_tauri_dev_parent_listener_is_protected_and_labelled() {
    let dev_host_pid = 51539;
    let guarded = SelfPids { own: 43241, dev_parent: Some(dev_host_pid) };

    let dev_host = raw(dev_host_pid, 51521, "node", vec![binding(1430)]);
    let (kind, attribution) = classify_listener(&dev_host, guarded, |_: &str| None, |_: &str| true);
    assert_eq!(kind, Kind::YourOwnTool, "the tauri dev host must not be a stoppable dev server");
    assert!(kind.is_watch_only());
    assert_eq!(attribution, ProjectAttribution::NoProject);

    let unrelated = raw(70_000, 1, "node", vec![binding(3000)]);
    let (other_kind, _) = classify_listener(&unrelated, guarded, |_: &str| None, |_: &str| true);
    assert_eq!(other_kind, Kind::DevServer, "the guard must protect the dev host only, not every listener");

    let mut host_server = watch_only_server("51539:1430", Kind::YourOwnTool);
    host_server.pid = dev_host_pid;
    host_server.belongs_to = Some(SELF_LABEL.to_string());
    let servers = vec![host_server, dev_server("70000:3000", "someone-elses-project")];

    let snapshot = snapshot_from(&servers, &Keeplist::default(), now());
    assert_eq!(snapshot.watch_only.len(), 1);
    assert_eq!(snapshot.watch_only[0].label, "Portside — this app");
    assert_eq!(snapshot.projects.len(), 1, "only the unrelated project is listed as stoppable");
    assert_eq!(snapshot.projects[0].servers[0].id, "70000:3000");

    let eligible = eligible_for_bulk_stop(&servers);
    assert_eq!(eligible, vec!["70000:3000".to_string()]);

    assert!(refuse_if_watch_only(servers[0].kind).is_some(), "stop_server must refuse the dev host");
    assert!(refuse_if_watch_only(Kind::YourOwnTool).is_some(), "force_stop must refuse it too");
}

#[test]
fn a_meaningless_parent_pid_is_never_guarded() {
    for ppid in [0, 1] {
        let pids = SelfPids { own: 4242, dev_parent: None };
        assert!(!pids.covers(ppid), "ppid {ppid} identifies no launching process and must stay listed");
    }
    let pids = SelfPids { own: 43241, dev_parent: Some(51539) };
    assert!(!pids.covers(51521), "the grandparent (npm) is not Portside and must stay listed");
    assert!(pids.covers(51539));
    assert!(pids.covers(43241));
}

#[test]
fn the_parent_guard_is_debug_only() {
    let resolved = self_pids(43241, 51539, true);
    assert!(resolved.dev_parent.is_some(), "a debug build must resolve its direct parent");
    let resolved = self_pids(43241, 51539, false);
    assert_eq!(resolved.dev_parent, None, "a release build must guard only its own pid");
    // No parent, or one that has exited: nothing launched the app that could be guarded.
    assert_eq!(self_pids(43241, 0, true).dev_parent, None);
    assert_eq!(self_pids(43241, 1, true).dev_parent, None);
    assert_eq!(self_pids(43241, 2, true).dev_parent, Some(2));
}

#[test]
fn bulk_stop_excludes_this_app_but_still_includes_real_dev_servers() {
    let mut me = watch_only_server("self:1420", Kind::YourOwnTool);
    me.pid = own_pid();
    me.belongs_to = Some(SELF_LABEL.to_string());
    let servers = vec![dev_server("100:3000", "myproject"), me];

    let eligible = eligible_for_bulk_stop(&servers);
    assert_eq!(eligible, vec!["100:3000".to_string()]);
    assert!(!eligible.contains(&"self:1420".to_string()));
}

#[test]
fn stopping_this_app_is_refused() {
    assert!(refuse_if_watch_only(Kind::YourOwnTool).is_some());
}

#[test]
fn this_app_is_labelled_by_name_on_the_wire() {
    let mut me = watch_only_server("self:1420", Kind::YourOwnTool);
    me.pid = own_pid();
    me.belongs_to = Some(SELF_LABEL.to_string());

    let snapshot = snapshot_from(&vec![me], &Keeplist::default(), now());
    assert_eq!(snapshot.watch_only.len(), 1);
    assert_eq!(snapshot.watch_only[0].label, "Portside — this app");
    assert!(snapshot.projects.is_empty(), "Portside must never appear among stoppable dev servers");
}

// ---- which event a change belongs on ----

#[test]
fn raw_usage_changes_alone_are_not_a_structural_change() {
    let a = vec![dev_server("1:100", "myproject")];
    let mut b = a.clone();
    b[0].usage = sample(Some(415), Some(700 * 1024 * 1024));
    assert!(!servers_differ(&a, &b), "raw usage must ride resources:changed, never servers:changed");
}

#[test]
fn a_pressure_flip_is_a_structural_change() {
    let a = vec![dev_server("1:100", "myproject")];
    let mut b = a.clone();
    b[0].pressure = Pressure::Cpu;
    assert!(servers_differ(&a, &b));
}

#[test]
fn fingerprint_ignores_resource_usage() {
    let idle = raw(100, 1, "node", vec![binding(3000)]);
    let mut busy = idle.clone();
    busy.usage = sample(Some(940), Some(3 * MEMORY_ELEVATED_BYTES));
    assert_eq!(fingerprint(&vec![idle]), fingerprint(&vec![busy]));
}

// ---- snapshot and samples ----

#[test]
fn snapshot_carries_current_usage_on_every_displayed_kind() {
    let mut servers = vec![
        dev_server("1:100", "myproject"),
        watch_only_server("2:200", Kind::PartOfMacOS),
        background_service("3:300"),
    ];
    for server in servers.iter_mut() {
        server.usage = sample(Some(825), Some(2 * MEMORY_ELEVATED_BYTES));
        server.pressure = Pressure::Both;
    }
    let snapshot = snapshot_from(&servers, &Keeplist::default(), now());

    let percent = |tenths: Option<u32>| tenths.map(|t| t as f64 / 10.0);
    assert_eq!(percent(snapshot.projects[0].servers[0].usage.cpu_tenths_percent), Some(82.5));
    assert_eq!(snapshot.projects[0].servers[0].usage.pressure, PressureWire::Both);
    assert_eq!(percent(snapshot.watch_only[0].usage.cpu_tenths_percent), Some(82.5));
    assert_eq!(snapshot.others[0].usage.memory_bytes, Some(2 * MEMORY_ELEVATED_BYTES));
}

#[test]
fn unavailable_metrics_reach_the_wire_as_null_not_zero() {
    let servers = vec![dev_server("1:100", "myproject")];
    let snapshot = snapshot_from(&servers, &Keeplist::default(), now());
    assert_eq!(snapshot.projects[0].servers[0].usage.cpu_tenths_percent, None);
    assert_eq!(snapshot.projects[0].servers[0].usage.memory_bytes, None);
    let json = serde_json::to_string(&snapshot.projects[0].servers[0].usage.cpu_tenths_percent).unwrap();
    assert_eq!(json, "null");
}

#[test]
fn resource_samples_cover_every_section_keyed_by_id() {
    let servers = vec![
        dev_server("1:100", "myproject"),
        watch_only_server("2:200", Kind::PartOfMacOS),
        background_service("3:300"),
        part_of_app("4:400"),
    ];
    let samples = resource_samples_from(&servers, now());
    let ids: Vec<&str> = samples.samples.iter().map(|s| s.id.as_str()).collect();
    assert_eq!(ids, vec!["1:100", "2:200", "3:300", "4:400"]);
}

// ---- server_id ----

#[test]
fn server_id_uses_pid_and_first_port() {
    assert_eq!(server_id(123, &vec![binding(4000), binding(4001)]), Some("123:4000".to_string()));
}

#[test]
fn server_id_none_for_no_ports() {
    assert_eq!(server_id(123, &vec![]), None);
}

// ---- titles ----

/// A server that answers without a title is asked once, not on every tick.
#[test]
fn title_for_does_not_refetch_when_server_has_no_title() {
    let asked = Cell::new(0);
    let fetch = |_: &PortBinding| {
        asked.set(asked.get() + 1);
        None
    };
    let ports = vec![binding(4000)];
    let mut cache = TitleCache::new();

    assert_eq!(title_for(1, &ports, Health::Responding, &mut cache, &fetch), None);
    assert_eq!(asked.get(), 1);
    assert_eq!(cache.get(1, 4000), Some(None), "a title-less fetch must still populate the cache");

    assert_eq!(title_for(1, &ports, Health::Responding, &mut cache, &fetch), None);
    assert_eq!(asked.get(), 1, "the cached miss must be reused");
}

// ---- fingerprint ----

#[test]
fn fingerprint_stable_across_identical_real_enumerations() {
    let l1 = raw(100, 1, "node", vec![binding(3000)]);
    let mut l2 = l1.clone();
    l2.start_time = after_millis(7);

    assert_eq!(fingerprint(&vec![l1]), fingerprint(&vec![l2]));
}

#[test]
fn fingerprint_changes_when_a_port_changes() {
    let l1 = raw(100, 1, "node", vec![binding(3000)]);
    let l2 = raw(100, 1, "node", vec![binding(3001)]);
    assert_ne!(fingerprint(&vec![l1]), fingerprint(&vec![l2]));
}

#[test]
fn fingerprint_order_independent() {
    let a = raw(100, 1, "node", vec![binding(3000)]);
    let b = raw(200, 1, "python", vec![binding(8000)]);
    assert_eq!(fingerprint(&vec![a.clone(), b.clone()]), fingerprint(&vec![b, a]));
}

// ---- bulk stop ----

#[test]
fn stop_all_dev_servers_selects_only_dev_server_kind() {
    let servers = vec![
        dev_server("100:3000", "myproject"),
        watch_only_server("200:18789", Kind::YourOwnTool),
        watch_only_server("201:1234", Kind::PartOfMacOS),
        background_service("300:5432"),
        part_of_app("400:9000"),
    ];

    let eligible = eligible_for_bulk_stop(&servers);

    assert_eq!(eligible, vec!["100:3000".to_string()]);
    assert!(!eligible.contains(&"200:18789".to_string()));
    assert!(!eligible.contains(&"201:1234".to_string()));
    assert!(!eligible.contains(&"300:5432".to_string()));
    assert!(!eligible.contains(&"400:9000".to_string()));
}

#[test]
fn stop_all_dev_servers_selects_every_dev_server_when_several_present() {
    let servers =
        vec![dev_server("1:100", "a"), dev_server("2:200", "b"), watch_only_server("3:300", Kind::PartOfMacOS)];
    let eligible = eligible_for_bulk_stop(&servers);
    assert_eq!(eligible.len(), 2);
    assert!(eligible.contains(&"1:100".to_string()));
    assert!(eligible.contains(&"2:200".to_string()));
}

// ---- the guards of a stop ----

#[test]
fn refuse_if_watch_only_blocks_your_own_tool_and_part_of_macos() {
    assert!(refuse_if_watch_only(Kind::YourOwnTool).is_some());
    assert!(refuse_if_watch_only(Kind::PartOfMacOS).is_some());
}

#[test]
fn refuse_if_watch_only_allows_dev_server_background_service_part_of_app() {
    assert!(refuse_if_watch_only(Kind::DevServer).is_none());
    assert!(refuse_if_watch_only(Kind::BackgroundService).is_none());
    assert!(refuse_if_watch_only(Kind::PartOfApp).is_none());
}

#[test]
fn refuse_force_stop_without_prior_failure_blocks_when_nothing_recorded() {
    let failed_polite_stops = FailedPoliteStops::new();
    assert!(refuse_force_stop_without_prior_failure(&failed_polite_stops, "999:3000", now()).is_some());
}

#[test]
fn refuse_force_stop_without_prior_failure_permits_after_a_recorded_still_running() {
    let mut failed_polite_stops = FailedPoliteStops::new();
    failed_polite_stops.insert("999:3000".to_string(), FailedPoliteStop::new(vec![binding(3000)], now()));
    assert!(refuse_force_stop_without_prior_failure(&failed_polite_stops, "999:3000", now()).is_none());
}

#[test]
fn refuse_force_stop_without_prior_failure_does_not_leak_across_ids() {
    let mut failed_polite_stops = FailedPoliteStops::new();
    failed_polite_stops.insert("111:1000".to_string(), FailedPoliteStop::new(vec![binding(1000)], now()));
    assert!(refuse_force_stop_without_prior_failure(&failed_polite_stops, "999:3000", now()).is_some());
}

#[test]
fn refuse_force_stop_expires_an_authorization_older_than_the_ttl() {
    let mut failed_polite_stops = FailedPoliteStops::new();
    failed_polite_stops.insert("999:3000".to_string(), FailedPoliteStop::new(vec![binding(3000)], now()));

    let inside = after(FORCE_STOP_AUTHORIZATION_TTL - 1);
    assert!(refuse_force_stop_without_prior_failure(&failed_polite_stops, "999:3000", inside).is_none());

    let outside = after(FORCE_STOP_AUTHORIZATION_TTL + 1);
    assert!(refuse_force_stop_without_prior_failure(&failed_polite_stops, "999:3000", outside).is_some());
}

#[test]
fn failed_polite_stop_treats_a_backwards_clock_as_expired() {
    let record = FailedPoliteStop::new(vec![binding(3000)], now());
    assert!(record.is_expired(after_millis(-30_000)));
}

/// The time to live is inclusive to the nanosecond.
#[test]
fn failed_polite_stop_expires_right_after_two_minutes() {
    let record = FailedPoliteStop::new(vec![binding(3000)], now());
    assert!(!record.is_expired(now()));
    assert!(!record.is_expired(after(120)));
    assert!(record.is_expired(Timestamp::new(NOW + 120, 1)));
}

#[test]
fn identity_check_passes_when_the_same_process_is_still_there() {
    let target = dev_server("100:3000", "myproject");
    let mut listener = raw(target.pid, 1, "node", target.ports.clone());
    listener.start_time = target.start_time;
    assert!(refuse_if_identity_changed(&vec![listener], &target).is_none());
}

#[test]
fn identity_check_tolerates_start_time_jitter_from_one_second_etime_granularity() {
    let target = dev_server("100:3000", "myproject");
    let mut listener = raw(target.pid, 1, "node", target.ports.clone());
    listener.start_time = after_millis(1200);
    assert!(
        refuse_if_identity_changed(&vec![listener], &target).is_none(),
        "a second of etime jitter must not read as a different process"
    );

    let mut earlier = raw(target.pid, 1, "node", target.ports.clone());
    earlier.start_time = after_millis(-1200);
    assert!(
        refuse_if_identity_changed(&vec![earlier], &target).is_none(),
        "jitter in either direction must be tolerated"
    );
}

#[test]
fn identity_check_refuses_a_recycled_pid() {
    let target = dev_server("100:3000", "myproject");
    let mut recycled = raw(target.pid, 1, "some-other-program", target.ports.clone());
    recycled.start_time = after(45);
    assert!(refuse_if_identity_changed(&vec![recycled], &target).is_some());
}

#[test]
fn identity_check_refuses_when_the_pid_is_gone_entirely() {
    let target = dev_server("100:3000", "myproject");
    assert!(refuse_if_identity_changed(&vec![], &target).is_some());
    let unrelated = raw(target.pid + 1, 1, "node", vec![binding(3000)]);
    assert!(refuse_if_identity_changed(&vec![unrelated], &target).is_some());
}

#[test]
fn identity_check_refuses_when_the_ports_no_longer_match() {
    let target = dev_server("100:3000", "myproject");
    let mut moved = raw(target.pid, 1, "node", vec![binding(3001)]);
    moved.start_time = target.start_time;
    assert!(refuse_if_identity_changed(&vec![moved], &target).is_some());

    let mut extra = raw(target.pid, 1, "node", vec![binding(3000), binding(3001)]);
    extra.start_time = target.start_time;
    assert!(refuse_if_identity_changed(&vec![extra], &target).is_some());
}

// ---- the current holder of an address ----

/// The addresses are compared as sets: a port gained is noticed even where the count is
/// the same, and an address listed twice is one address.
#[test]
fn refuse_if_identity_changed_compares_addresses_as_sets() {
    let everywhere =
        |port: u16| PortBinding { port, family: AddressFamily::V4, reachability: Reachability::AllInterfaces };
    let mut target = dev_server("100:3000", "myproject");
    target.ports = vec![binding(3000), everywhere(3000)];
    target.start_time = Timestamp::unix_epoch();
    let listing = |ports: Vec<PortBinding>| {
        let mut l = raw(100, 1, "node", ports);
        l.start_time = Timestamp::unix_epoch();
        vec![l]
    };
    assert_eq!(
        refuse_if_identity_changed(&listing(vec![binding(3000), binding(3001)]), &target),
        Some("This Server changed since it was last checked — nothing was stopped.")
    );
    assert_eq!(refuse_if_identity_changed(&listing(vec![everywhere(3000)]), &target), None);
    assert_eq!(refuse_if_identity_changed(&listing(vec![everywhere(3000), binding(3000)]), &target), None);
    assert!(refuse_if_identity_changed(&listing(vec![]), &target).is_some());
    let v6 = PortBinding { port: 3000, family: AddressFamily::V6, reachability: Reachability::LocalhostOnly };
    assert!(refuse_if_identity_changed(&listing(vec![binding(3000), v6]), &target).is_some());
}

#[test]
fn find_current_holder_matches_by_port_not_by_original_id() {
    let mut survivor = dev_server("101:3000", "myproject");
    survivor.pid = 101;
    let servers = vec![survivor];

    let target_ports = vec![binding(3000)];
    let found = find_current_holder(&servers, &target_ports).expect("must find the surviving child by port");
    assert_eq!(found.id, "101:3000");
}

#[test]
fn find_current_holder_none_when_port_truly_free() {
    let mut other = dev_server("101:4000", "other");
    other.ports = vec![binding(4000)];
    let servers = vec![other];
    let target_ports = vec![binding(3000)];
    assert!(find_current_holder(&servers, &target_ports).is_none());
}

// ---- what_this_stops ----

#[test]
fn what_this_stops_never_contains_raw_port_or_pid() {
    let server = dev_server("100:3000", "myproject");
    let message = what_this_stops(&server);
    assert!(!message.contains("3000"));
    assert!(!message.contains(&server.pid.to_string()));
    assert!(message.contains("myproject"));
}

#[test]
fn what_this_stops_names_the_app_for_no_project_belongs_to() {
    let server = watch_only_server("200:18789", Kind::YourOwnTool);
    let message = what_this_stops(&server);
    assert!(message.contains("openclaw"));
    assert!(!message.contains("18789"));
}

/// A part of an application is announced by the application, though its directory holds
/// a project.
#[test]
fn what_this_stops_names_the_app_for_a_part_of_it_in_a_project_directory() {
    let project = || Project { root: "/x/dist".to_string(), name: "dist".to_string() };
    let mut part = part_of_app("400:9000");
    part.attribution = ProjectAttribution::Known(project(), None);
    assert_eq!(what_this_stops(&part), "This stops \"Visual Studio Code\".");
    part.attribution = ProjectAttribution::Guessed(project(), None);
    assert_eq!(what_this_stops(&part), "This stops \"Visual Studio Code\".");
    part.belongs_to = None;
    assert_eq!(what_this_stops(&part), "This stops this program.");
}

/// Each Kind that can be stopped is announced in its own words.
#[test]
fn what_this_stops_speaks_by_kind() {
    assert_eq!(what_this_stops(&dev_server("100:3000", "myproject")), "This stops the \"myproject\" development server.");
    assert_eq!(
        what_this_stops(&background_service("300:5432")),
        "This may affect \"unrelated\" and anything else this background service holds up — the project link is uncertain."
    );
    let mut tool = watch_only_server("200:18789", Kind::YourOwnTool);
    tool.attribution = ProjectAttribution::Known(Project { root: "/x".to_string(), name: "x".to_string() }, None);
    assert_eq!(what_this_stops(&tool), "This stops \"openclaw\".");
    let mut service = background_service("300:5432");
    service.attribution = ProjectAttribution::NoProject;
    assert_eq!(what_this_stops(&service), "This stops \"OrbStack\".");
}

// ---- snapshot_from ----

#[test]
fn snapshot_groups_dev_servers_by_project() {
    let servers = vec![dev_server("1:100", "myproject")];
    let keeplist = Keeplist::default();
    let snapshot = snapshot_from(&servers, &keeplist, now());
    assert_eq!(snapshot.projects.len(), 1);
    assert_eq!(snapshot.projects[0].project, "myproject");
    assert_eq!(snapshot.projects[0].servers[0].id, "1:100");
}

#[test]
fn snapshot_routes_watch_only_and_others_to_separate_sections() {
    let servers = vec![
        dev_server("1:100", "myproject"),
        watch_only_server("2:200", Kind::PartOfMacOS),
        background_service("3:300"),
        part_of_app("4:400"),
    ];
    let keeplist = Keeplist::default();
    let snapshot = snapshot_from(&servers, &keeplist, now());

    assert_eq!(snapshot.projects.len(), 1);
    assert_eq!(snapshot.watch_only.len(), 1);
    assert_eq!(snapshot.watch_only[0].reason, WatchOnlyReason::PartOfMacos);
    assert_eq!(snapshot.others.len(), 2);
}

#[test]
fn snapshot_reflects_keep_running_mark() {
    let servers = vec![dev_server("1:100", "myproject")];
    let mut keeplist = Keeplist::default();
    keeplist.set("/Users/dev/myproject", "npm run dev", true);
    let snapshot = snapshot_from(&servers, &keeplist, now());
    assert!(snapshot.projects[0].servers[0].keep_running);
}

#[test]
fn snapshot_background_service_carries_guessed_project_never_as_fact_field() {
    let servers = vec![background_service("3:300")];
    let keeplist = Keeplist::default();
    let snapshot = snapshot_from(&servers, &keeplist, now());
    assert_eq!(snapshot.others[0].guessed_project, Some("unrelated".to_string()));
}

#[test]
fn snapshot_part_of_app_has_no_guessed_project() {
    let servers = vec![part_of_app("4:400")];
    let keeplist = Keeplist::default();
    let snapshot = snapshot_from(&servers, &keeplist, now());
    assert_eq!(snapshot.others[0].guessed_project, None);
}

// ---- change detection ----

#[test]
fn servers_differ_false_for_identical_sets() {
    let a = vec![dev_server("1:100", "myproject")];
    let b = vec![dev_server("1:100", "myproject")];
    assert!(!servers_differ(&a, &b));
}

#[test]
fn servers_differ_true_when_health_changes() {
    let a = vec![dev_server("1:100", "myproject")];
    let mut b = a.clone();
    b[0].health = Health::NotResponding;
    assert!(servers_differ(&a, &b));
}

#[test]
fn servers_differ_true_when_id_set_changes() {
    let a = vec![dev_server("1:100", "myproject")];
    let b = vec![dev_server("2:200", "myproject")];
    assert!(servers_differ(&a, &b));
}

#[test]
fn servers_differ_false_when_only_uptime_changes() {
    let a = vec![dev_server("1:100", "myproject")];
    let mut b = a.clone();
    b[0].start_time = after_millis(-30_000);
    assert!(!servers_differ(&a, &b));
}

// ---- scans ----

/// Lists what it was given, until it is told to fail.
struct FixedSource {
    listeners: RefCell<Result<Vec<RawListener>, String>>,
}

impl FixedSource {
    fn of(listeners: Vec<RawListener>) -> FixedSource {
        FixedSource { listeners: RefCell::new(Ok(listeners)) }
    }

    fn becomes(&self, next: Result<Vec<RawListener>, String>) {
        *self.listeners.borrow_mut() = next;
    }
}

impl ProcessSource for FixedSource {
    fn enumerate(&self) -> Result<Vec<RawListener>, String> {
        self.listeners.borrow().clone()
    }

    fn owning_app(&self, _exe: &str) -> Option<String> {
        None
    }

    fn request_stop(&self, _pid: u32) -> Result<(), String> {
        Ok(())
    }

    fn force_stop(&self, _pid: u32) -> Result<(), String> {
        Ok(())
    }
}

fn all_live(servers: &Vec<Vec<PortBinding>>) -> Vec<(usize, bool)> {
    (0..servers.len()).map(|i| (i, true)).collect()
}

fn none_live(servers: &Vec<Vec<PortBinding>>) -> Vec<(usize, bool)> {
    (0..servers.len()).map(|i| (i, false)).collect()
}

fn no_titles(targets: &Vec<(usize, PortBinding)>) -> Vec<(usize, Option<String>)> {
    targets.iter().map(|t| (t.0, None)).collect()
}

fn no_title(_: &PortBinding) -> Option<String> {
    None
}

#[test]
fn run_loop_keeps_the_last_good_snapshot_and_flags_a_failed_scan() {
    let mut state = empty_state();
    state.panel = PanelState::Open;
    let source = FixedSource::of(vec![raw(100, 1, "node", vec![binding(3000)])]);
    let deps = ClassifyDeps { owning_app: |_: &str| None, path_exists: |_: &str| true };
    let probes = ProbeDeps { liveness: all_live, titles: no_titles, title: no_title };
    let mut snapshots: Vec<Snapshot> = Vec::new();

    for tick in 0..2 {
        if tick == 1 {
            source.becomes(Err("lsof is unavailable".to_string()));
        }
        let result = scan_once(&mut state, &source, nobody(), &deps, &probes, false, &|| after(3 * tick));
        let turn = finish_turn(&mut state, &result, after(3 * tick));
        assert_eq!(turn.sleep, 3);
        assert_eq!(turn.resources.is_some(), tick == 0, "figures come with every good scan and with no other");
        if let Some(snapshot) = turn.changed {
            snapshots.push(snapshot);
        }
    }

    assert!(state.scan_failed, "a failed scan must be recorded, not swallowed");
    assert_eq!(state.servers.len(), 1, "the last good snapshot must be kept, not cleared into a fabricated 'nothing running'");

    assert_eq!(snapshots.len(), 2);
    let last = snapshots.last().expect("the failure must be emitted so the UI can show it");
    assert!(last.scan_failed);
    assert_eq!(last.projects.iter().map(|g| g.servers.len()).sum::<usize>(), 1);
}

#[test]
fn a_usage_only_change_reports_resources_but_not_a_structural_change() {
    let mut state = empty_state();
    let deps = ClassifyDeps { owning_app: |_: &str| None, path_exists: |_: &str| true };
    let probes = ProbeDeps { liveness: none_live, titles: no_titles, title: no_title };

    let mut listener = raw(100, 1, "node", vec![binding(3000)]);
    listener.usage = sample(Some(120), Some(200 * 1024 * 1024));
    let source = FixedSource::of(vec![listener.clone()]);

    let first = scan_once(&mut state, &source, nobody(), &deps, &probes, false, &|| now()).expect("first scan");
    assert!(first.structural);
    assert!(first.resources);

    listener.usage = sample(Some(430), Some(640 * 1024 * 1024));
    source.becomes(Ok(vec![listener]));
    let second = scan_once(&mut state, &source, nobody(), &deps, &probes, false, &|| after(3)).expect("second scan");

    assert!(!second.structural, "raw usage must not trigger servers:changed");
    assert!(second.resources, "fresh figures must still be offered to the UI");
    assert_eq!(state.servers[0].usage.cpu_tenths_percent, Some(430));
}

#[test]
fn a_replacement_process_behind_an_unchanged_fingerprint_serves_the_full_window() {
    let mut state = empty_state();
    state.pressure_history = PressureHistory::for_logical_cpus(TEST_CPUS);
    let deps = ClassifyDeps { owning_app: |_: &str| None, path_exists: |_: &str| true };
    let probes = ProbeDeps { liveness: none_live, titles: no_titles, title: no_title };

    let hot = sample(Some(4000), None);
    let mut listener = raw(70_001, 1, "node", vec![binding(3100)]);
    listener.usage = hot;
    listener.start_time = started_at();
    let source = FixedSource::of(vec![listener.clone()]);

    scan_once(&mut state, &source, nobody(), &deps, &probes, false, &|| now()).expect("first scan");
    let id = state.servers[0].id.clone();
    let established = state.pressure_history.observe(&id, &hot, started_at(), after(CPU_SUSTAIN_FOR));
    assert_eq!(established, Pressure::Cpu, "precondition: the original process is badged");

    let replaced_start = Timestamp::new(1_700_000_045, 0);
    listener.start_time = replaced_start;
    source.becomes(Ok(vec![listener]));

    let before_fingerprint = state.last_fingerprint;
    scan_once(&mut state, &source, nobody(), &deps, &probes, false, &|| after(CPU_SUSTAIN_FOR)).expect("second scan");
    assert_eq!(state.last_fingerprint, before_fingerprint, "precondition: the listeners are structurally the same");

    assert_eq!(state.servers[0].start_time, replaced_start, "the short circuit must carry the fresh start_time");
    assert_eq!(
        state.servers[0].pressure,
        Pressure::Normal,
        "a replacement process must not inherit the previous one's pressure"
    );

    let restart = after(CPU_SUSTAIN_FOR);
    assert_eq!(
        state.pressure_history.observe(&id, &hot, replaced_start, restart),
        Pressure::Normal
    );
    assert_eq!(
        state.pressure_history.observe(&id, &hot, replaced_start, after(2 * CPU_SUSTAIN_FOR - 1)),
        Pressure::Normal,
        "the replacement must not be badged before its own full window elapses"
    );
    assert_eq!(
        state.pressure_history.observe(&id, &hot, replaced_start, after(2 * CPU_SUSTAIN_FOR)),
        Pressure::Cpu,
        "and it must badge once it has served that window itself"
    );
}

#[test]
fn a_replacement_process_does_not_inherit_the_previous_title() {
    let mut state = empty_state();
    let deps = ClassifyDeps { owning_app: |_: &str| None, path_exists: |_: &str| true };
    let probes = ProbeDeps { liveness: all_live, titles: no_titles, title: no_title };

    let mut listener = raw(70_002, 1, "node", vec![binding(3200)]);
    listener.start_time = started_at();
    let source = FixedSource::of(vec![listener.clone()]);
    scan_once(&mut state, &source, nobody(), &deps, &probes, false, &|| now()).expect("first scan");

    state.title_cache.insert(70_002, 3200, Some("Old Project — Dev".to_string()));
    state.servers[0].title = Some("Old Project — Dev".to_string());

    scan_once(&mut state, &source, nobody(), &deps, &probes, false, &|| after(3)).expect("unchanged scan");
    assert_eq!(state.servers[0].health, Health::Responding);
    assert_eq!(
        state.servers[0].title.as_deref(),
        Some("Old Project — Dev"),
        "an unchanged process keeps its cached title"
    );

    listener.start_time = Timestamp::new(1_700_000_045, 0);
    source.becomes(Ok(vec![listener]));
    scan_once(&mut state, &source, nobody(), &deps, &probes, false, &|| after(6)).expect("replacement scan");

    assert_eq!(
        state.title_cache.get(70_002, 3200),
        Some(None),
        "the replacement's title must be re-derived, never the previous process's cached value"
    );
    assert_eq!(state.servers[0].title, None, "the replacement must not be shown the previous process's title");
    assert_eq!(state.servers[0].health, Health::Responding);
}

/// A scan that is asked for looks at everything anew, and it counts as the latest scan:
/// where failing begins or ends with it, everyone is told.
#[test]
fn a_requested_scan_counts_as_the_latest() {
    let mut state = empty_state();
    let deps = ClassifyDeps { owning_app: |_: &str| None, path_exists: |_: &str| true };
    let round = Cell::new(1u32);
    let probes = ProbeDeps {
        liveness: all_live,
        titles: |targets: &Vec<(usize, PortBinding)>| {
            let title = format!("v{}", round.get());
            targets.iter().map(|t| (t.0, Some(title.clone()))).collect::<Vec<(usize, Option<String>)>>()
        },
        title: no_title,
    };
    let listener = raw(100, 1, "node", vec![binding(3000)]);
    let source = FixedSource::of(vec![listener.clone()]);
    let mut refresh = |source: &FixedSource, state: &mut ScannerState| {
        refresh_now(state, source, nobody(), &deps, &probes, &|| after(1))
    };

    let first = refresh(&source, &mut state);
    assert!(first.told.is_none());
    assert_eq!(first.answer.unwrap().projects[0].servers[0].title.as_deref(), Some("v1"));

    // Nothing has changed, and yet the title is asked for again.
    round.set(2);
    let again = refresh(&source, &mut state);
    assert_eq!(again.answer.unwrap().projects[0].servers[0].title.as_deref(), Some("v2"));

    // It fails: the error is answered, and that scans fail is told once.
    source.becomes(Err("lsof is unavailable".to_string()));
    let failed = refresh(&source, &mut state);
    assert_eq!(failed.answer.err().as_deref(), Some("lsof is unavailable"));
    let told = failed.told.expect("failing has begun");
    assert!(told.scan_failed && state.scan_failed);
    assert_eq!(told.projects[0].servers.len(), 1, "the last good snapshot stays");
    assert!(refresh(&source, &mut state).told.is_none());

    // It works again after a scan that failed: the flag is cleared, and that is told.
    source.becomes(Ok(vec![listener]));
    let recovered = refresh(&source, &mut state);
    assert!(!recovered.answer.unwrap().scan_failed);
    assert!(!recovered.told.expect("failing has ended").scan_failed);
    assert!(!state.scan_failed);
}

/// Readings that lie to either side of the first are of one process: the title stays, and
/// nothing is redrawn or asked.
#[test]
fn jitter_to_either_side_is_no_replacement() {
    let mut state = empty_state();
    let deps = ClassifyDeps { owning_app: |_: &str| None, path_exists: |_: &str| true };
    let asked = Cell::new(0u32);
    let probes = ProbeDeps {
        liveness: all_live,
        titles: |targets: &Vec<(usize, PortBinding)>| {
            targets.iter().map(|t| (t.0, Some("T".to_string()))).collect::<Vec<(usize, Option<String>)>>()
        },
        title: |_: &PortBinding| {
            asked.set(asked.get() + 1);
            None
        },
    };
    let mut listener = raw(100, 1, "node", vec![binding(3000)]);
    let source = FixedSource::of(vec![listener.clone()]);
    let first = scan_once(&mut state, &source, nobody(), &deps, &probes, false, &|| now()).expect("first scan");
    assert_eq!(first, ScanOutcome { structural: true, resources: true });
    assert_eq!(state.servers[0].title.as_deref(), Some("T"));

    for (k, millis) in [-1_200, 900, 1_900, -1_900].into_iter().enumerate() {
        listener.start_time = after_millis(millis);
        source.becomes(Ok(vec![listener.clone()]));
        let at = after(3 * (k as u64 + 1));
        let outcome = scan_once(&mut state, &source, nobody(), &deps, &probes, false, &|| at).expect("jittered scan");
        assert_eq!(outcome, ScanOutcome { structural: false, resources: true }, "{millis} ms");
        assert_eq!(state.servers[0].title.as_deref(), Some("T"));
        assert_eq!(state.title_cache.get(100, 3000), Some(Some("T".to_string())));
        assert_eq!(state.servers[0].start_time, now(), "the process is known by its first reading");
    }
    assert_eq!(asked.get(), 0);

    // A scan that classifies everything anew keeps the first reading too.
    listener.start_time = after_millis(-1_200);
    source.becomes(Ok(vec![listener.clone(), raw(101, 1, "node", vec![binding(3001)])]));
    let outcome = scan_once(&mut state, &source, nobody(), &deps, &probes, false, &|| after(18)).expect("full scan");
    assert!(outcome.structural);
    assert_eq!(state.servers[0].start_time, now());
    listener.start_time = after_millis(900);
    source.becomes(Ok(vec![listener, raw(101, 1, "node", vec![binding(3001)])]));
    let outcome = scan_once(&mut state, &source, nobody(), &deps, &probes, false, &|| after(21)).expect("last scan");
    assert_eq!(outcome, ScanOutcome { structural: false, resources: true });
    assert_eq!(state.servers[0].title.as_deref(), Some("T"));
    assert_eq!(asked.get(), 0);
}

/// A process that is replaced while another one appears does not inherit the title
/// either.
#[test]
fn a_replacement_seen_by_a_full_scan_does_not_inherit_the_title() {
    let mut state = empty_state();
    let deps = ClassifyDeps { owning_app: |_: &str| None, path_exists: |_: &str| true };
    let round = Cell::new(1u32);
    let probes = ProbeDeps {
        liveness: all_live,
        titles: |targets: &Vec<(usize, PortBinding)>| {
            let title = format!("v{}", round.get());
            targets.iter().map(|t| (t.0, Some(title.clone()))).collect::<Vec<(usize, Option<String>)>>()
        },
        title: no_title,
    };
    let mut listener = raw(100, 1, "node", vec![binding(3000)]);
    let source = FixedSource::of(vec![listener.clone()]);
    scan_once(&mut state, &source, nobody(), &deps, &probes, false, &|| now()).expect("first scan");
    assert_eq!(state.servers[0].title.as_deref(), Some("v1"));

    round.set(2);
    listener.start_time = after(45);
    source.becomes(Ok(vec![listener, raw(101, 1, "node", vec![binding(3001)])]));
    scan_once(&mut state, &source, nobody(), &deps, &probes, false, &|| after(60)).expect("full scan");
    assert_eq!(state.servers[0].start_time, after(45));
    assert_eq!(state.servers[0].title.as_deref(), Some("v2"));
    assert_eq!(state.title_cache.get(100, 3000), Some(Some("v2".to_string())));
}

/// Two answers about one server that end where it began are no change.
#[test]
fn answers_that_cancel_out_are_no_change() {
    let mut state = empty_state();
    let deps = ClassifyDeps { owning_app: |_: &str| None, path_exists: |_: &str| true };
    let flip = Cell::new(false);
    let probes = ProbeDeps {
        liveness: |servers: &Vec<Vec<PortBinding>>| {
            if flip.get() {
                vec![(0, false), (0, true)]
            } else {
                all_live(servers)
            }
        },
        titles: no_titles,
        title: no_title,
    };
    let source = FixedSource::of(vec![raw(100, 1, "node", vec![binding(3000)])]);
    scan_once(&mut state, &source, nobody(), &deps, &probes, false, &|| now()).expect("first scan");
    flip.set(true);
    let outcome = scan_once(&mut state, &source, nobody(), &deps, &probes, false, &|| after(3)).expect("second scan");
    assert_eq!(outcome, ScanOutcome { structural: false, resources: true });
    assert_eq!(state.servers[0].health, Health::Responding);
}

/// A title for a server that was not asked is neither shown nor remembered.
#[test]
fn a_title_that_was_not_asked_for_is_dropped() {
    let mut daemon = raw(101, 1, "cupsd", vec![binding(631)]);
    daemon.exe_path = "/usr/sbin/cupsd".to_string();
    let listeners = vec![raw(100, 1, "node", vec![binding(3000)]), daemon];
    let deps = ClassifyDeps { owning_app: |_: &str| None, path_exists: |_: &str| true };
    let probes = ProbeDeps {
        liveness: all_live,
        titles: |_: &Vec<(usize, PortBinding)>| {
            vec![(0, Some("A".to_string())), (1, Some("B".to_string())), (7, Some("C".to_string()))]
        },
        title: no_title,
    };
    let mut cache = TitleCache::new();
    let scanned = classify_and_probe(&listeners, nobody(), &deps, &probes, &mut cache);
    assert_eq!(scanned[0].title.as_deref(), Some("A"));
    assert_eq!(scanned[1].kind, Kind::PartOfMacOS);
    assert_eq!(scanned[1].title, None);
    assert_eq!(cache.get(101, 631), None);

    // What is remembered is not overwritten where nothing is asked.
    cache.insert(100, 3000, Some("kept".to_string()));
    let again = classify_and_probe(&listeners, nobody(), &deps, &probes, &mut cache);
    assert_eq!(again[0].title.as_deref(), Some("kept"));
    assert_eq!(cache.get(100, 3000), Some(Some("kept".to_string())));
}

/// Titles of all servers that miss one are asked for in one batch, and each lands at
/// its own server.
#[test]
fn classify_and_probe_asks_for_all_titles_at_once() {
    let listeners = vec![
        raw(100, 1, "node", vec![binding(3000)]),
        raw(101, 1, "node", vec![binding(3001)]),
        raw(102, 1, "node", vec![binding(3002)]),
    ];
    let batches = Cell::new(0);
    let titles = |targets: &Vec<(usize, PortBinding)>| {
        batches.set(batches.get() + 1);
        // The answers come back in whatever order the threads finish.
        targets.iter().rev().map(|t| (t.0, Some(format!("Server {}", t.1.port)))).collect::<Vec<(usize, Option<String>)>>()
    };
    let deps = ClassifyDeps { owning_app: |_: &str| None, path_exists: |_: &str| true };
    let probes = ProbeDeps { liveness: all_live, titles, title: no_title };
    let mut cache = TitleCache::new();

    let scanned = classify_and_probe(&listeners, nobody(), &deps, &probes, &mut cache);
    assert_eq!(batches.get(), 1);
    let found: Vec<Option<&str>> = scanned.iter().map(|s| s.title.as_deref()).collect();
    assert_eq!(found, vec![Some("Server 3000"), Some("Server 3001"), Some("Server 3002")]);
    assert_eq!(cache.get(101, 3001), Some(Some("Server 3001".to_string())));

    // Everything is cached now: the second pass asks for nothing.
    let again = classify_and_probe(&listeners, nobody(), &deps, &probes, &mut cache);
    assert_eq!(again[2].title.as_deref(), Some("Server 3002"));
}

// ---- ISO 8601 ----

#[test]
fn format_iso8601_known_date() {
    let formatted = format_iso8601(Timestamp::new(1_788_339_741, 0));
    assert!(formatted.starts_with("2026-09-02T"), "{formatted}");
    assert!(formatted.ends_with('Z'), "{formatted}");
}

#[test]
fn format_iso8601_epoch() {
    assert_eq!(format_iso8601(Timestamp::unix_epoch()), "1970-01-01T00:00:00Z");
}
