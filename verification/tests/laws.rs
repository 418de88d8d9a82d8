//! What holds across calls, on concrete values.

use std::cell::{Cell, RefCell};

use portside::commands::stop_all_dev_servers;
use portside::domain::model::{Kind, Package, Project, ProjectAttribution, SelfPids};
use portside::keeplist::Keeplist;
use portside::numeral::{parse_u64, to_decimal};
use portside::platform::{AddressFamily, PortBinding, RawListener, Reachability, ResourceSample};
use portside::probe::TitleCache;
use portside::scanner::refresh::refresh_input;
use portside::scanner::server::{attribution_root, what_this_stops};
use portside::scanner::state::{
    full_scan, refresh_scan, scan_listed, IDLE_AFTER_PANEL_CLOSED, IDLE_ENUMERATE, PANEL_CLOSED_ENUMERATE,
    PANEL_OPEN_ENUMERATE,
};
use portside::scanner::turn::{absorb_scan, finish_turn};
use portside::scanner::{
    apply_usage, classify_and_probe, fingerprint, forget_title, health_wire, invalidate_all_titles, server_id,
    servers_differ, snapshot_from, title_cache_lookup, title_for, ClassifyDeps, Health, PanelState, Pressure,
    PressureHistory, ProbeDeps, ScanOutcome, ScannedServer, ScannerState,
};
use portside::ipc::HealthWire;
use portside::time::Timestamp;

fn after(seconds: u64) -> Timestamp {
    Timestamp::new(1_760_000_000 + seconds as i64, 0)
}

fn binding(port: u16) -> PortBinding {
    PortBinding { port, family: AddressFamily::V4, reachability: Reachability::LocalhostOnly }
}

fn raw(pid: u32, ports: Vec<PortBinding>) -> RawListener {
    RawListener {
        pid,
        ppid: 1,
        command: "node".to_string(),
        exe_path: "/usr/local/bin/node".to_string(),
        cwd: Some("/p".to_string()),
        ports,
        start_time: after(0),
        user: "dev".to_string(),
        usage: ResourceSample::default(),
    }
}

fn server(id: &str, pid: u32, kind: Kind, project: Option<&str>) -> ScannedServer {
    ScannedServer {
        id: id.to_string(),
        pid,
        command: "npm run dev".to_string(),
        ports: vec![binding(3000)],
        start_time: after(0),
        unattended: false,
        kind,
        attribution: match project {
            Some(name) => ProjectAttribution::Known(
                Project { root: format!("/{name}"), name: name.to_string() },
                Some(Package { relative_path: "apps/web".to_string() }),
            ),
            None => ProjectAttribution::NoProject,
        },
        belongs_to: None,
        health: Health::Responding,
        title: None,
        usage: ResourceSample::default(),
        pressure: Pressure::Normal,
    }
}

fn nobody() -> SelfPids {
    SelfPids { own: 43241, dev_parent: None }
}

fn state() -> ScannerState {
    ScannerState::new("/tmp/portside".to_string(), Keeplist::default(), 10, after(0))
}

fn no_titles(targets: &Vec<(usize, PortBinding)>) -> Vec<(usize, Option<String>)> {
    targets.iter().map(|t| (t.0, None)).collect()
}

/// A number that was written is read back.
#[test]
fn numerals_round_trip() {
    for n in [0, 9, 10, 255, 65_536, u64::MAX] {
        assert_eq!(parse_u64(&to_decimal(n as u128)), Some(n));
    }
}

/// Two servers have one id only where they share the process and the first port.
#[test]
fn ids_tell_servers_apart() {
    let id = |pid: u32, ports: Vec<PortBinding>| server_id(pid, &ports);
    assert_ne!(id(1, vec![binding(23)]), id(12, vec![binding(3)]));
    assert_ne!(id(1, vec![binding(2)]), id(1, vec![binding(3)]));
    assert_eq!(id(1, vec![binding(2), binding(3)]), id(1, vec![binding(2)]));
}

/// The fingerprint follows every part of the structure and no reading.
#[test]
fn fingerprint_follows_the_structure() {
    let base = || raw(1, vec![binding(80), binding(81)]);
    let print = |l: RawListener| fingerprint(&vec![l]);
    let same = print(base());

    let mut l = base();
    l.ports = vec![binding(81), binding(80)];
    assert_eq!(print(l), same, "the order of the ports does not matter");
    let mut l = base();
    l.usage = ResourceSample { cpu_tenths_percent: Some(1), memory_bytes: Some(2) };
    l.start_time = after(9);
    assert_eq!(print(l), same, "readings do not matter");

    let changes: Vec<Box<dyn Fn(&mut RawListener)>> = vec![
        Box::new(|l| l.pid = 2),
        Box::new(|l| l.ports = vec![binding(80)]),
        Box::new(|l| l.ports[0].family = AddressFamily::V6),
        Box::new(|l| l.ports[0].reachability = Reachability::AllInterfaces),
        Box::new(|l| l.command = "deno".to_string()),
        Box::new(|l| l.exe_path = "/usr/local/bin/deno".to_string()),
        Box::new(|l| l.cwd = None),
        Box::new(|l| l.cwd = Some("/q".to_string())),
    ];
    for change in changes {
        let mut l = base();
        change(&mut l);
        assert_ne!(print(l), same);
    }
    assert_ne!(fingerprint(&vec![]), same);
    assert_ne!(fingerprint(&vec![base(), base()]), same);
}

/// The order of listeners and ports and the readings do not matter, all at once.
#[test]
fn fingerprint_sees_identity_alone() {
    let mut a1 = raw(1, vec![binding(80), binding(81)]);
    let mut b2 = raw(2, vec![binding(90)]);
    let before = fingerprint(&vec![a1.clone(), b2.clone()]);
    a1.ports = vec![binding(81), binding(80)];
    a1.start_time = after(7);
    b2.usage = ResourceSample { cpu_tenths_percent: Some(5), memory_bytes: None };
    assert_eq!(fingerprint(&vec![b2.clone(), a1.clone()]), before);
    a1.ports.push(binding(82));
    assert_ne!(fingerprint(&vec![b2, a1]), before);
}

/// Two scans differ by their ids and by what is shown of a server in both, whichever came
/// first and in whatever order.
#[test]
fn scans_differ_both_ways() {
    let a = server("1:1", 1, Kind::DevServer, Some("alpha"));
    let b = server("2:2", 2, Kind::DevServer, Some("beta"));
    let c = server("3:3", 3, Kind::DevServer, None);
    let both = |x: &Vec<ScannedServer>, y: &Vec<ScannedServer>| {
        assert_eq!(servers_differ(x, y), servers_differ(y, x));
        servers_differ(x, y)
    };
    assert!(!both(&vec![a.clone(), b.clone()], &vec![b.clone(), a.clone()]));
    assert!(both(&vec![a.clone(), b.clone()], &vec![a.clone(), c.clone()]));
    assert!(both(&vec![a.clone()], &vec![a.clone(), b.clone()]));
    let mut heavy = b.clone();
    heavy.pressure = Pressure::Cpu;
    assert!(both(&vec![a.clone(), b.clone()], &vec![heavy, a.clone()]));
    let mut titled = b.clone();
    titled.title = Some("T".to_string());
    titled.start_time = after(9);
    assert!(!both(&vec![a.clone(), b.clone()], &vec![a, titled]));
}

/// A title is asked for once, and again after the server stopped answering.
#[test]
fn titles_are_renewed_after_silence() {
    let asked = Cell::new(0u32);
    let fetch = |b: &PortBinding| {
        asked.set(asked.get() + 1);
        Some(format!("{} v{}", b.port, asked.get()))
    };
    let ports = vec![binding(80), binding(81)];
    let mut cache = TitleCache::new();
    let mut title = |health: Health| title_for(1, &ports, health, &mut cache, &fetch);

    assert_eq!(title(Health::Responding).as_deref(), Some("80 v1"));
    assert_eq!(title(Health::Responding).as_deref(), Some("80 v1"));
    assert_eq!(title(Health::NotResponding), None);
    assert_eq!(title(Health::Unknown), None);
    assert_eq!(title(Health::Responding).as_deref(), Some("80 v2"));
    assert_eq!(asked.get(), 2);
}

/// What happens to one server's title leaves the others alone.
#[test]
fn titles_are_independent() {
    let mut cache = TitleCache::new();
    cache.insert(1, 80, Some("A".to_string()));
    cache.insert(2, 80, Some("B".to_string()));
    forget_title(1, &vec![binding(80)], &mut cache);
    assert_eq!(cache.get(1, 80), None);
    assert_eq!(cache.get(2, 80), Some(Some("B".to_string())));
    forget_title(2, &vec![], &mut cache);
    assert_eq!(
        title_cache_lookup(2, &vec![binding(80)], Health::Responding, &mut cache),
        (Some("B".to_string()), false)
    );
    assert_eq!(title_cache_lookup(2, &vec![], Health::Responding, &mut cache), (None, false));
    assert_eq!(title_cache_lookup(3, &vec![binding(80)], Health::Responding, &mut cache), (None, true));
    invalidate_all_titles(&mut cache);
    assert!(!cache.contains(2, 80));
}

/// Only development servers that answer are asked for a title; everything is asked
/// whether it is alive.
#[test]
fn only_dev_servers_are_asked_for_titles() {
    let mut daemon = raw(2, vec![binding(2)]);
    daemon.exe_path = "/usr/sbin/cupsd".to_string();
    let listeners = vec![raw(1, vec![binding(1)]), daemon, raw(3, vec![binding(3)]), raw(4, vec![])];
    let probed: RefCell<Vec<u16>> = RefCell::new(Vec::new());
    let targets: RefCell<Vec<u16>> = RefCell::new(Vec::new());
    let deps = ClassifyDeps { owning_app: |_: &str| None, path_exists: |_: &str| true };
    let probes = ProbeDeps {
        liveness: |servers: &Vec<Vec<PortBinding>>| {
            *probed.borrow_mut() = servers.iter().map(|b| b[0].port).collect();
            vec![(0, true), (1, true), (2, false)]
        },
        titles: |wanted: &Vec<(usize, PortBinding)>| {
            *targets.borrow_mut() = wanted.iter().map(|t| t.1.port).collect();
            wanted.iter().map(|t| (t.0, Some("T".to_string()))).collect::<Vec<(usize, Option<String>)>>()
        },
        title: |_: &PortBinding| None,
    };
    let mut cache = TitleCache::new();
    let scanned = classify_and_probe(&listeners, nobody(), &deps, &probes, &mut cache);
    assert_eq!(*probed.borrow(), vec![1, 2, 3]);
    assert_eq!(*targets.borrow(), vec![1]);
    let rows: Vec<(&str, Kind, Health, Option<&str>)> =
        scanned.iter().map(|s| (s.id.as_str(), s.kind, s.health, s.title.as_deref())).collect();
    assert_eq!(
        rows,
        vec![
            ("1:1", Kind::DevServer, Health::Responding, Some("T")),
            ("2:2", Kind::PartOfMacOS, Health::Responding, None),
            ("3:3", Kind::DevServer, Health::NotResponding, None),
        ]
    );
    assert!(scanned.iter().all(|s| s.unattended));
}

/// Servers of different processes have different ids, so that stopping everything meets
/// each development server once.
#[test]
fn different_processes_have_different_ids() {
    let listeners = vec![raw(1, vec![binding(80)]), raw(2, vec![binding(80)]), raw(3, vec![binding(80), binding(81)])];
    let deps = ClassifyDeps { owning_app: |_: &str| None, path_exists: |_: &str| true };
    let probes = ProbeDeps {
        liveness: |_: &Vec<Vec<PortBinding>>| Vec::new(),
        titles: no_titles,
        title: |_: &PortBinding| None,
    };
    let scanned = classify_and_probe(&listeners, nobody(), &deps, &probes, &mut TitleCache::new());
    let ids: Vec<&str> = scanned.iter().map(|s| s.id.as_str()).collect();
    assert_eq!(ids, vec!["1:80", "2:80", "3:80"]);
    let pids: Vec<u32> = stop_all_dev_servers(&scanned).iter().map(|f| f.target.pid).collect();
    assert_eq!(pids, vec![1, 2, 3]);
}

/// A probe that was lost leaves a server unknown, and a title that was lost leaves it to
/// be asked for again.
#[test]
fn a_lost_answer_is_no_answer() {
    let listeners = vec![raw(1, vec![binding(1)]), raw(2, vec![binding(2)])];
    let deps = ClassifyDeps { owning_app: |_: &str| None, path_exists: |_: &str| true };
    let probes = ProbeDeps {
        liveness: |_: &Vec<Vec<PortBinding>>| vec![(0, true), (7, true)],
        titles: |_: &Vec<(usize, PortBinding)>| Vec::new(),
        title: |_: &PortBinding| None,
    };
    let mut cache = TitleCache::new();
    let scanned = classify_and_probe(&listeners, nobody(), &deps, &probes, &mut cache);
    assert_eq!(scanned[0].health, Health::Responding);
    assert_eq!(scanned[0].title, None);
    assert_eq!(scanned[1].health, Health::Unknown);
    assert!(!cache.contains(1, 1));
}

/// The app's own listener is called by its name, and one that something else started is
/// attended.
#[test]
fn the_app_is_called_by_its_name() {
    let mut attended = raw(2, vec![binding(2)]);
    attended.ppid = 77;
    let listeners = vec![raw(43241, vec![binding(1)]), attended];
    let deps = ClassifyDeps { owning_app: |_: &str| Some("Dock".to_string()), path_exists: |_: &str| true };
    let probes = ProbeDeps {
        liveness: |_: &Vec<Vec<PortBinding>>| Vec::new(),
        titles: no_titles,
        title: |_: &PortBinding| None,
    };
    let scanned = classify_and_probe(&listeners, nobody(), &deps, &probes, &mut TitleCache::new());
    assert_eq!(scanned[0].belongs_to.as_deref(), Some("Portside — this app"));
    assert_eq!(scanned[0].kind, Kind::YourOwnTool);
    assert_eq!(scanned[1].belongs_to.as_deref(), Some("Dock"));
    assert!(!scanned[1].unattended);
}

/// Projects are listed by name, servers in the order found, and every server once.
#[test]
fn every_server_is_shown_once() {
    let servers = vec![
        server("1:1", 1, Kind::DevServer, Some("zeta")),
        server("2:2", 2, Kind::YourOwnTool, None),
        server("3:3", 3, Kind::DevServer, Some("alpha")),
        server("4:4", 4, Kind::DevServer, Some("zeta")),
        server("5:5", 5, Kind::PartOfApp, None),
        server("6:6", 6, Kind::DevServer, None),
        server("7:7", 7, Kind::PartOfMacOS, None),
    ];
    let shown = snapshot_from(&servers, &Keeplist::default(), after(90));
    let groups: Vec<(&str, Vec<&str>)> = shown
        .projects
        .iter()
        .map(|g| (g.project.as_str(), g.servers.iter().map(|s| s.id.as_str()).collect()))
        .collect();
    assert_eq!(groups, vec![("(no project)", vec!["6:6"]), ("alpha", vec!["3:3"]), ("zeta", vec!["1:1", "4:4"])]);
    assert_eq!(shown.watch_only.iter().map(|s| s.id.as_str()).collect::<Vec<&str>>(), vec!["2:2", "7:7"]);
    assert_eq!(shown.others.iter().map(|s| s.id.as_str()).collect::<Vec<&str>>(), vec!["5:5"]);
    let row = &shown.projects[1].servers[0];
    assert_eq!(row.package.as_deref(), Some("apps/web"));
    assert_eq!(row.project_path.as_deref(), Some("/alpha"));
    assert_eq!(row.uptime_seconds, 90);
    assert_eq!(row.pid, 3);
    assert_eq!(shown.watch_only[0].label, "npm run dev");
    assert_eq!(shown.scanned_at, "2025-10-09T08:54:50Z");
    assert!(!shown.scan_failed);
    assert_eq!(health_wire(Health::Unknown), HealthWire::Unknown);
    // A clock that stepped back shows no time at all.
    let early = snapshot_from(&servers, &Keeplist::default(), Timestamp::new(0, 0));
    assert_eq!(early.projects[1].servers[0].uptime_seconds, 0);
}

/// Figures are judged per server, the run of a server that is gone is dropped, and only
/// a change of pressure is reported.
#[test]
fn usage_is_judged_and_pruned() {
    let mut history = PressureHistory::for_logical_cpus(10);
    let mut servers = vec![server("1:1", 1, Kind::DevServer, Some("a")), server("2:2", 2, Kind::PartOfApp, None)];
    servers[0].usage = ResourceSample { cpu_tenths_percent: Some(4000), memory_bytes: None };
    assert!(!apply_usage(&mut servers, after(0), &mut history));
    assert_eq!(history.tracked_ids(), 2);
    assert!(apply_usage(&mut servers, after(30), &mut history));
    assert_eq!(servers[0].pressure, Pressure::Cpu);
    assert_eq!(servers[1].pressure, Pressure::Normal);
    assert!(!apply_usage(&mut servers, after(31), &mut history));
    servers.remove(0);
    assert!(!apply_usage(&mut servers, after(32), &mut history));
    assert_eq!(history.tracked_ids(), 1);
}

/// Order, titles and times make no difference; sets, health, kind and pressure do.
#[test]
fn what_counts_as_a_difference() {
    let a = vec![server("1:1", 1, Kind::DevServer, Some("a")), server("2:2", 2, Kind::PartOfApp, None)];
    let mut b = vec![a[1].clone(), a[0].clone()];
    b[0].title = Some("T".to_string());
    b[0].start_time = after(5);
    assert!(!servers_differ(&a, &b));
    b[0].kind = Kind::BackgroundService;
    assert!(servers_differ(&a, &b));
    assert!(servers_differ(&a, &vec![a[0].clone()]));
    assert!(!servers_differ(&vec![], &vec![]));
    assert_eq!(refresh_input(&a), vec![vec![binding(3000)], vec![binding(3000)]]);
}

/// A failure is told once, and so is the recovery; figures alone are told as figures.
#[test]
fn failure_and_recovery_are_told_once() {
    let mut state = state();
    let good = Ok(ScanOutcome { structural: false, resources: true });
    let bad: Result<ScanOutcome, String> = Err("lsof".to_string());
    let mut told = |result: &Result<ScanOutcome, String>| {
        let turn = finish_turn(&mut state, result, after(1));
        let drawn = turn.changed.map(|s| if s.scan_failed { "failed" } else { "good" });
        (drawn, turn.resources.is_some())
    };
    let log: Vec<(Option<&str>, bool)> = [&good, &bad, &bad, &good, &good].iter().map(|r| told(r)).collect();
    assert_eq!(
        log,
        vec![(None, true), (Some("failed"), false), (None, false), (Some("good"), true), (None, true)]
    );
    assert!(!state.scan_failed);
    assert_eq!(absorb_scan(&mut state, &bad), ScanOutcome { structural: true, resources: false });
}

/// A turn that redraws the list tells the figures of the same servers too.
#[test]
fn a_redraw_tells_the_figures_too() {
    let mut state = state();
    let mut one = server("1:1", 1, Kind::DevServer, Some("alpha"));
    one.usage = ResourceSample { cpu_tenths_percent: Some(120), memory_bytes: Some(7) };
    state.servers = vec![one, server("2:2", 2, Kind::YourOwnTool, None)];
    let turn = finish_turn(&mut state, &Ok(ScanOutcome { structural: true, resources: true }), after(1));
    let snapshot = turn.changed.expect("the list is drawn anew");
    let samples = turn.resources.expect("the figures are told");
    assert!(!state.scan_failed);
    assert_eq!(snapshot.projects[0].servers[0].id, "1:1");
    let ids: Vec<&str> = samples.samples.iter().map(|s| s.id.as_str()).collect();
    assert_eq!(ids, vec!["1:1", "2:2"]);
    assert_eq!(samples.scanned_at, snapshot.scanned_at);

    // Each of the two is told without the other as well.
    let turn = finish_turn(&mut state, &Ok(ScanOutcome { structural: true, resources: false }), after(2));
    assert!(turn.changed.is_some() && turn.resources.is_none());
    let turn = finish_turn(&mut state, &Ok(ScanOutcome { structural: false, resources: true }), after(3));
    assert!(turn.changed.is_none() && turn.resources.is_some());
    let turn = finish_turn(&mut state, &Ok(ScanOutcome::default()), after(4));
    assert!(turn.changed.is_none() && turn.resources.is_none());
}

/// Scans come often while the panel is open, and seldom once it has long been closed.
#[test]
fn the_cadence_follows_the_panel() {
    let mut state = state();
    assert_eq!((PANEL_OPEN_ENUMERATE, PANEL_CLOSED_ENUMERATE, IDLE_ENUMERATE), (3, 15, 60));
    assert_eq!(IDLE_AFTER_PANEL_CLOSED, 300);
    assert_eq!(state.panel, PanelState::Closed);
    assert_eq!(state.current_cadence(after(0)), 15);
    assert_eq!(state.current_cadence(after(299)), 15);
    assert_eq!(state.current_cadence(after(300)), 60);
    state.panel_opened();
    assert_eq!(state.current_cadence(after(300)), 3);
    state.panel_closed(after(400));
    assert_eq!(state.current_cadence(after(401)), 15);
    assert_eq!(state.current_cadence(after(399)), 15);
    state.panel_closed_at = None;
    assert_eq!(state.current_cadence(after(9999)), 15);
}

/// Two good scans of the same listeners, with the same answers: the second changes
/// nothing but the figures.
#[test]
fn steady_listeners_change_nothing() {
    let mut state = state();
    let deps = ClassifyDeps { owning_app: |_: &str| None, path_exists: |_: &str| true };
    let probes = ProbeDeps {
        liveness: |servers: &Vec<Vec<PortBinding>>| (0..servers.len()).map(|i| (i, true)).collect::<Vec<(usize, bool)>>(),
        titles: no_titles,
        title: |_: &PortBinding| Some("late".to_string()),
    };
    let listeners = vec![raw(1, vec![binding(1)]), raw(2, vec![binding(2)])];
    let first = scan_listed(&mut state, Ok(listeners.clone()), nobody(), &deps, &probes, false, after(0)).unwrap();
    assert_eq!(first, ScanOutcome { structural: true, resources: true });
    let second = scan_listed(&mut state, Ok(listeners.clone()), nobody(), &deps, &probes, false, after(3)).unwrap();
    assert_eq!(second, ScanOutcome { structural: false, resources: true });
    let forced = scan_listed(&mut state, Ok(listeners.clone()), nobody(), &deps, &probes, true, after(6)).unwrap();
    assert_eq!(forced, ScanOutcome { structural: true, resources: true });
    // A listing that failed is handed on, and the state stays.
    let failed = scan_listed(&mut state, Err("lsof".to_string()), nobody(), &deps, &probes, false, after(9));
    assert_eq!(failed, Err("lsof".to_string()));
    assert_eq!(state.servers.len(), 2);
    // One listener less is a structural change.
    let fewer = vec![raw(1, vec![binding(1)])];
    let last = scan_listed(&mut state, Ok(fewer), nobody(), &deps, &probes, false, after(12)).unwrap();
    assert_eq!(last, ScanOutcome { structural: true, resources: true });
    assert_eq!(state.pressure_history.tracked_ids(), 1);
}

/// A server that falls silent loses its title; once it answers again it is asked.
#[test]
fn a_silent_server_is_asked_again() {
    let mut state = state();
    let deps = ClassifyDeps { owning_app: |_: &str| None, path_exists: |_: &str| true };
    let live = Cell::new(true);
    let probes = ProbeDeps {
        liveness: |servers: &Vec<Vec<PortBinding>>| {
            (0..servers.len()).map(|i| (i, live.get())).collect::<Vec<(usize, bool)>>()
        },
        titles: no_titles,
        title: |_: &PortBinding| Some("late".to_string()),
    };
    let listeners = vec![raw(1, vec![binding(1)])];
    full_scan(&mut state, &listeners, nobody(), &deps, &probes, false, after(0));
    assert_eq!(state.servers[0].title, None);
    assert!(state.title_cache.contains(1, 1));

    live.set(false);
    let outcome = refresh_scan(&mut state, &listeners, &probes, after(3));
    assert!(outcome.structural);
    assert_eq!(state.servers[0].health, Health::NotResponding);
    assert!(!state.title_cache.contains(1, 1));

    live.set(true);
    let outcome = refresh_scan(&mut state, &listeners, &probes, after(6));
    assert!(outcome.structural);
    assert_eq!(state.servers[0].title.as_deref(), Some("late"));
}

/// The words of a stop name the project, the application or the command, never a number.
#[test]
fn words_name_no_number() {
    let known = server("1:1", 1, Kind::DevServer, Some("alpha"));
    assert!(what_this_stops(&known).contains("alpha"));
    assert_eq!(attribution_root(&known.attribution).as_deref(), Some("/alpha"));
    let none = server("1:1", 1, Kind::YourOwnTool, None);
    assert!(!what_this_stops(&none).chars().any(|c| c.is_ascii_digit()));
    assert_eq!(attribution_root(&none.attribution), None);
}
