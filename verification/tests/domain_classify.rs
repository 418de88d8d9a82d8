//! Which kind of server a listener is, and whose project it belongs to.

use std::collections::HashSet;

use portside::domain::classify::{classify_listener, SELF_LABEL};
use portside::domain::model::{Kind, ProjectAttribution, SelfPids};
use portside::platform::macos::MacosProcessSource;
use portside::platform::{AddressFamily, PortBinding, RawListener, Reachability, ResourceSample};
use portside::time::Timestamp;

/// A fixed set of paths that exist.
fn fake_fs(existing: &[&str]) -> impl Fn(&str) -> bool {
    let set: HashSet<String> = existing.iter().map(|p| p.to_string()).collect();
    move |p: &str| set.contains(p)
}

/// A process that is none of the listeners below.
fn nobody() -> SelfPids {
    SelfPids { own: 1_000_000, dev_parent: None }
}

fn listener(pid: u32, exe_path: &str, cwd: Option<&str>, ports: Vec<PortBinding>) -> RawListener {
    RawListener {
        pid,
        ppid: 1,
        command: "test".to_string(),
        exe_path: exe_path.to_string(),
        cwd: cwd.map(|c| c.to_string()),
        ports,
        start_time: Timestamp::new(1_760_000_000, 0),
        user: "purin".to_string(),
        usage: ResourceSample::default(),
    }
}

fn localhost_v4(port: u16) -> PortBinding {
    PortBinding { port, family: AddressFamily::V4, reachability: Reachability::LocalhostOnly }
}

fn localhost_v6(port: u16) -> PortBinding {
    PortBinding { port, family: AddressFamily::V6, reachability: Reachability::LocalhostOnly }
}

fn all_interfaces_v4(port: u16) -> PortBinding {
    PortBinding { port, family: AddressFamily::V4, reachability: Reachability::AllInterfaces }
}

fn all_interfaces_v6(port: u16) -> PortBinding {
    PortBinding { port, family: AddressFamily::V6, reachability: Reachability::AllInterfaces }
}

fn owning_app(exe: &str) -> Option<String> {
    MacosProcessSource.owning_app(exe)
}

const NODE: &str = "/Users/purin/.local/share/fnm/node-versions/v22.23.1/installation/bin/node";

/// Two projects on one port number, one on each address family, stay two servers.
#[test]
fn same_port_different_address_families_are_two_distinct_dev_servers() {
    let purin_dev_site_fs =
        fake_fs(&["/Users/purin/dev/purin-dev-site/.git", "/Users/purin/dev/purin-dev-site/package.json"]);
    let raw_a = listener(68829, NODE, Some("/Users/purin/dev/purin-dev-site"), vec![localhost_v6(4399)]);
    let (kind_a, attribution_a) = classify_listener(&raw_a, nobody(), owning_app, purin_dev_site_fs);
    assert_eq!(kind_a, Kind::DevServer);
    match attribution_a {
        ProjectAttribution::Known(project, _) => assert_eq!(project.name, "purin-dev-site"),
        other => panic!("expected Known(purin-dev-site), got {other:?}"),
    }

    let vala_fs =
        fake_fs(&["/Users/purin/dev/vala-platform/.git", "/Users/purin/dev/vala-platform/apps/web/package.json"]);
    let raw_b = listener(98027, NODE, Some("/Users/purin/dev/vala-platform/apps/web"), vec![localhost_v4(4399)]);
    let (kind_b, attribution_b) = classify_listener(&raw_b, nobody(), owning_app, vala_fs);
    assert_eq!(kind_b, Kind::DevServer);
    match attribution_b {
        ProjectAttribution::Known(project, package) => {
            assert_eq!(project.name, "vala-platform");
            assert_eq!(package.expect("must have a package").relative_path, "apps/web");
        }
        other => panic!("expected Known(vala-platform, apps/web), got {other:?}"),
    }

    assert_ne!(raw_a.pid, raw_b.pid);
}

/// Two processes with one working directory belong to the same project.
#[test]
fn one_project_two_servers_resolve_to_the_same_project() {
    let exists = fake_fs(&["/Users/purin/dev/purin-dev-site/.git", "/Users/purin/dev/purin-dev-site/package.json"]);

    let raw_4399 = listener(68829, NODE, Some("/Users/purin/dev/purin-dev-site"), vec![localhost_v6(4399)]);
    let raw_4321 = listener(78944, NODE, Some("/Users/purin/dev/purin-dev-site"), vec![localhost_v6(4321)]);

    let (kind_a, attribution_a) = classify_listener(&raw_4399, nobody(), owning_app, &exists);
    let (kind_b, attribution_b) = classify_listener(&raw_4321, nobody(), owning_app, &exists);

    assert_eq!(kind_a, Kind::DevServer);
    assert_eq!(kind_b, Kind::DevServer);

    let project_a = match attribution_a {
        ProjectAttribution::Known(project, _) => project,
        other => panic!("expected Known, got {other:?}"),
    };
    let project_b = match attribution_b {
        ProjectAttribution::Known(project, _) => project,
        other => panic!("expected Known, got {other:?}"),
    };
    assert_eq!(project_a, project_b);
    assert_eq!(project_a.name, "purin-dev-site");
}

/// A bundled service that the whole network reaches is no dev server, however
/// plausible its working directory looks.
#[test]
fn background_service_with_unrelated_cwd_is_never_a_dev_server() {
    let exists = fake_fs(&["/Users/purin/dev/pawjai/pawjai-fe/.git", "/Users/purin/dev/pawjai/pawjai-fe/package.json"]);
    let raw = listener(
        2979,
        "/Applications/OrbStack.app/Contents/Frameworks/OrbStack Helper.app/Contents/MacOS/OrbStack Helper",
        Some("/Users/purin/dev/pawjai/pawjai-fe"),
        vec![
            localhost_v4(32222),
            localhost_v6(32222),
            localhost_v4(60252),
            all_interfaces_v4(5432),
            all_interfaces_v4(5433),
            all_interfaces_v6(5432),
            all_interfaces_v6(5433),
        ],
    );

    let (kind, attribution) = classify_listener(&raw, nobody(), owning_app, exists);

    assert_eq!(kind, Kind::BackgroundService);
    assert!(!kind.is_watch_only(), "BackgroundService must remain stoppable, not Watch Only");
    match attribution {
        ProjectAttribution::Guessed(project, _) => assert_eq!(project.name, "pawjai-fe"),
        other => panic!("expected Guessed(pawjai-fe), got {other:?}; a BackgroundService's Project must never be Known"),
    }
}

/// No project, no bundle and no system path: one of the user's own tools.
#[test]
fn no_project_markers_and_no_bundle_is_your_own_tool_and_watch_only() {
    let exists = fake_fs(&[]);
    let raw = listener(
        54082,
        "/opt/homebrew/bin/node",
        Some("/Users/purin/.openclaw"),
        vec![localhost_v4(18789), localhost_v6(18789)],
    );

    let (kind, attribution) = classify_listener(&raw, nobody(), owning_app, exists);

    assert_eq!(kind, Kind::YourOwnTool);
    assert!(kind.is_watch_only());
    assert_eq!(attribution, ProjectAttribution::NoProject);
}

/// Without a working directory there is no project to be a dev server of.
#[test]
fn cwd_none_does_not_panic_and_is_never_a_dev_server() {
    let raw = listener(99999, "/opt/homebrew/bin/node", None, vec![localhost_v4(3000)]);

    let (kind, attribution) = classify_listener(&raw, nobody(), owning_app, |_p: &str| true);

    assert_eq!(attribution, ProjectAttribution::NoProject);
    assert_ne!(kind, Kind::DevServer);
    assert_eq!(kind, Kind::YourOwnTool);
}

/// The system path decides before the interfaces that are bound.
#[test]
fn system_daemon_binding_all_interfaces_is_part_of_macos_not_background_service() {
    let raw = listener(
        627,
        "/usr/libexec/rapportd",
        Some("/"),
        vec![all_interfaces_v4(49152), all_interfaces_v6(63015), all_interfaces_v6(63016)],
    );

    let (kind, attribution) = classify_listener(&raw, nobody(), owning_app, |_p: &str| false);

    assert_eq!(kind, Kind::PartOfMacOS);
    assert!(kind.is_watch_only());
    assert_eq!(attribution, ProjectAttribution::NoProject);
}

/// A helper inside an application's bundle is part of that application.
#[test]
fn app_helper_process_is_part_of_app_not_background_service() {
    let raw = listener(
        10515,
        "/Applications/Visual Studio Code.app/Contents/Frameworks/Code Helper (Plugin).app/Contents/MacOS/Code Helper (Plugin)",
        Some("/"),
        vec![localhost_v4(59142), localhost_v4(55151)],
    );

    let (kind, attribution) = classify_listener(&raw, nobody(), owning_app, |_p: &str| false);

    assert_eq!(kind, Kind::PartOfApp);
    assert!(!kind.is_watch_only());
    assert_eq!(attribution, ProjectAttribution::NoProject);
}

/// An editor's extension host in a directory with a project file stays part of the
/// editor.
#[test]
fn extension_host_with_project_marker_cwd_is_part_of_app_not_dev_server() {
    let exists =
        fake_fs(&["/Users/purin/.vscode/extensions/ms-python.vscode-pylance-2026.3.1/dist/package.json"]);
    let raw = listener(
        10820,
        "/Applications/Visual Studio Code.app/Contents/Frameworks/Code Helper (Plugin).app/Contents/MacOS/Code Helper (Plugin)",
        Some("/Users/purin/.vscode/extensions/ms-python.vscode-pylance-2026.3.1/dist"),
        vec![localhost_v4(50219)],
    );

    let (kind, attribution) = classify_listener(&raw, nobody(), owning_app, exists);

    assert_eq!(kind, Kind::PartOfApp, "must resolve via the bundle, not the fallback Project");
    assert!(!kind.is_watch_only());
    assert_ne!(kind, Kind::DevServer, "an extension host must never be presented as the user's dev server");
    match attribution {
        ProjectAttribution::Known(project, _) => assert_eq!(project.name, "dist"),
        other => panic!("expected Known(dist) from the fallback marker walk, got {other:?}"),
    }
}

/// Every system prefix counts, and a name that only resembles one does not.
#[test]
fn system_paths_are_prefixes() {
    for exe in ["/usr/sbin/cupsd", "/usr/libexec/rapportd", "/System/Library/x", "/sbin/launchd"] {
        let raw = listener(5, exe, Some("/p"), vec![localhost_v4(80)]);
        let (kind, _) = classify_listener(&raw, nobody(), owning_app, |_p: &str| true);
        assert_eq!(kind, Kind::PartOfMacOS, "{exe}");
    }
    for exe in ["/usr/local/bin/node", "/usr/bin/python3", "/opt/System/x", "usr/sbin/cupsd"] {
        let raw = listener(5, exe, Some("/p"), vec![localhost_v4(80)]);
        let (kind, _) = classify_listener(&raw, nobody(), owning_app, |_p: &str| true);
        assert_eq!(kind, Kind::DevServer, "{exe}");
    }
}

/// A bundled service that only this machine reaches is part of its application, and
/// a bundle on all interfaces without a project guesses none.
#[test]
fn bundles_are_services_only_where_the_network_reaches_them() {
    let bundle = "/Applications/Postgres.app/Contents/MacOS/Postgres";
    let raw = listener(5, bundle, Some("/p"), vec![localhost_v4(80), all_interfaces_v6(81)]);
    let (kind, attribution) = classify_listener(&raw, nobody(), owning_app, |_p: &str| false);
    assert_eq!(kind, Kind::BackgroundService);
    assert_eq!(attribution, ProjectAttribution::NoProject);

    let raw = listener(5, bundle, Some("/p"), vec![localhost_v4(80)]);
    let (kind, _) = classify_listener(&raw, nobody(), owning_app, |_p: &str| true);
    assert_eq!(kind, Kind::PartOfApp);
}

/// The app's own process is watch only, before any other rule.
#[test]
fn own_process_comes_before_every_other_rule() {
    let pids = SelfPids { own: 7, dev_parent: Some(9) };
    for pid in [7, 9] {
        let raw = listener(pid, "/usr/sbin/cupsd", Some("/p"), vec![all_interfaces_v4(80)]);
        let (kind, attribution) = classify_listener(&raw, pids, owning_app, |_p: &str| true);
        assert_eq!(kind, Kind::YourOwnTool);
        assert_eq!(attribution, ProjectAttribution::NoProject);
    }
    let raw = listener(8, "/usr/sbin/cupsd", Some("/p"), vec![all_interfaces_v4(80)]);
    let (kind, _) = classify_listener(&raw, pids, owning_app, |_p: &str| true);
    assert_eq!(kind, Kind::PartOfMacOS);
    assert_eq!(SELF_LABEL, "Portside — this app");
}
