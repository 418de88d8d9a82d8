//! What the system's tools print, and whom a signal reaches.

use std::collections::HashMap;

use std::cell::RefCell;

use portside::platform::gather::{checked_output, pid_list, Tool, ToolRun};
use portside::platform::macos::{
    join_listeners, parse_cwd_batch, parse_etime, parse_lsof_fields, parse_port_binding, parse_ps_line,
    parse_ps_output, signal_process_group, signal_target, to_signed_pid, MacosProcessSource, SignalTarget,
};
use portside::platform::{AddressFamily, PortBinding, Reachability, ResourceSample};
use portside::time::Timestamp;

fn now() -> Timestamp {
    Timestamp::new(1_760_000_000, 5)
}

#[test]
fn signal_target_signals_the_group_when_the_pid_leads_it() {
    assert_eq!(signal_target(4242, 4242), Ok(SignalTarget::Group(4242)));
}

#[test]
fn signal_target_narrows_to_the_bare_pid_when_the_pid_does_not_lead_the_group() {
    assert_eq!(signal_target(4242, 991), Ok(SignalTarget::JustThisProcess(4242)));
}

#[test]
fn signal_target_refuses_invalid_process_groups() {
    assert!(signal_target(4242, -1).is_err());
    assert!(signal_target(4242, 0).is_err());
    assert!(signal_target(4242, 1).is_err());
}

#[test]
fn parses_ipv4_and_ipv6_localhost_as_localhost_only() {
    assert_eq!(
        parse_port_binding("127.0.0.1:4399", AddressFamily::V4),
        Some(PortBinding { port: 4399, family: AddressFamily::V4, reachability: Reachability::LocalhostOnly })
    );
    assert_eq!(
        parse_port_binding("[::1]:4399", AddressFamily::V6),
        Some(PortBinding { port: 4399, family: AddressFamily::V6, reachability: Reachability::LocalhostOnly })
    );
}

#[test]
fn parses_star_as_all_interfaces() {
    assert_eq!(
        parse_port_binding("*:5432", AddressFamily::V4),
        Some(PortBinding { port: 5432, family: AddressFamily::V4, reachability: Reachability::AllInterfaces })
    );
}

#[test]
fn rejects_malformed_address() {
    assert_eq!(parse_port_binding("not-an-address", AddressFamily::V4), None);
    assert_eq!(parse_port_binding("127.0.0.1:not-a-port", AddressFamily::V4), None);
    assert_eq!(parse_port_binding("", AddressFamily::V4), None);
}

#[test]
fn owning_app_resolves_to_outermost_bundle() {
    let source = MacosProcessSource;
    let exe =
        "/Applications/Visual Studio Code.app/Contents/Frameworks/Code Helper (Plugin).app/Contents/MacOS/Code Helper (Plugin)";
    assert_eq!(source.owning_app(exe), Some("Visual Studio Code".to_string()));
}

#[test]
fn owning_app_none_when_not_in_a_bundle() {
    let source = MacosProcessSource;
    assert_eq!(source.owning_app("/usr/libexec/rapportd"), None);
}

#[test]
fn owning_app_single_bundle_resolves_to_itself() {
    let source = MacosProcessSource;
    assert_eq!(
        source.owning_app("/Applications/GitKraken.app/Contents/MacOS/GitKraken"),
        Some("GitKraken".to_string())
    );
}

#[test]
fn parses_etime_variants() {
    assert_eq!(parse_etime("19:03:26"), Some(19 * 3600 + 3 * 60 + 26));
    assert_eq!(parse_etime("02-18:31:33"), Some((2 * 24 + 18) * 3600 + 31 * 60 + 33));
    assert_eq!(parse_etime("00:05"), Some(5));
    assert_eq!(parse_etime("garbage"), None);
}

/// The other shapes a running time cannot have, and its largest value.
#[test]
fn etime_has_three_shapes_only() {
    assert_eq!(parse_etime(""), None);
    assert_eq!(parse_etime("5"), None);
    assert_eq!(parse_etime("1:2:3:4"), None);
    assert_eq!(parse_etime("1-2:3"), Some(24 * 3600 + 2 * 60 + 3));
    assert_eq!(parse_etime("x-1:2"), None);
    assert_eq!(parse_etime("1-1-1:2"), None);
    assert_eq!(parse_etime("a:00"), None);
    assert_eq!(parse_etime("0:18446744073709551615"), Some(u64::MAX));
    assert_eq!(parse_etime("1:18446744073709551615"), None);
    assert_eq!(parse_etime("18446744073709551615-0:0"), None);
}

/// Only the three spellings of the loopback stay on this machine, and the port is read
/// from the right.
#[test]
fn any_other_address_is_reachable_from_outside() {
    let reach = |a: &str| parse_port_binding(a, AddressFamily::V4).map(|b| (b.port, b.reachability));
    assert_eq!(reach("localhost:80"), Some((80, Reachability::LocalhostOnly)));
    assert_eq!(reach("192.168.1.4:80"), Some((80, Reachability::AllInterfaces)));
    assert_eq!(reach("[fe80::1]:65535"), Some((65535, Reachability::AllInterfaces)));
    assert_eq!(reach(":80"), Some((80, Reachability::AllInterfaces)));
    assert_eq!(reach("*:65536"), None);
    assert_eq!(reach("*:"), None);
    assert_eq!(reach("*:+80"), Some((80, Reachability::AllInterfaces)));
    assert_eq!(reach("*:-80"), None);
}

const LSOF: &str = "p627\ncrapportd\nf8\ntIPv4\nn*:49152\nf9\ntIPv6\nn*:49152\n\
p54082\ncnode\nf20\ntIPv4\nn127.0.0.1:18789\nf21\ntIPv6\nn[::1]:18789\n\
p700\ncempty\nf1\n\
p701\ncodd\nf1\ntunix\nn*:1\nf2\nn*:2\ntIPv4\nnnonsense\nn*:3\n\
pnone\ncx\ntIPv4\nn*:4\n\
p98027\ncnode\ntIPv4\nn127.0.0.1:4399";

/// Sockets are grouped by process; one without a family or with an odd address is
/// dropped, and so is a process left without sockets.
#[test]
fn lsof_fields_are_grouped_by_process() {
    let sockets = parse_lsof_fields(LSOF);
    let pids: Vec<u32> = sockets.iter().map(|s| s.pid).collect();
    assert_eq!(pids, vec![627, 54082, 98027]);
    assert_eq!(sockets[1].command, "node");
    assert_eq!(sockets[1].ports.len(), 2);
    assert!(sockets[1].ports.iter().any(|p| p.port == 18789 && p.family == AddressFamily::V4));
    assert!(sockets[1].ports.iter().any(|p| p.port == 18789 && p.family == AddressFamily::V6));
    assert_eq!(sockets[0].ports[1].family, AddressFamily::V6);
    assert_eq!(pid_list(&sockets), "627,54082,98027");
    assert_eq!(pid_list(&Vec::new()), "");
    assert!(parse_lsof_fields("").is_empty());
    assert!(parse_lsof_fields("n*:80\n\u{e9}p\n").is_empty());
}

#[test]
fn cwd_batch_is_keyed_by_process() {
    let cwds = parse_cwd_batch("p98027\nfcwd\nn/Users/purin/dev/vala-platform/apps/web\np54082\nfcwd\nn/Users/purin/.openclaw\np627\nfcwd\nn/\np5\nfcwd\nn\npx\nn/lost\n");
    assert_eq!(cwds.get(&98027).map(|s| s.as_str()), Some("/Users/purin/dev/vala-platform/apps/web"));
    assert_eq!(cwds.get(&54082).map(|s| s.as_str()), Some("/Users/purin/.openclaw"));
    assert_eq!(cwds.get(&627).map(|s| s.as_str()), Some("/"));
    assert_eq!(cwds.len(), 3);
    // A later answer replaces an earlier one.
    let cwds = parse_cwd_batch("p1\nn/a\nn/b\n");
    assert_eq!(cwds.get(&1).map(|s| s.as_str()), Some("/b"));
}

const PS: &str = "# pid ppid user etime comm\n\
 2979     1 purin        02-18:31:33 /Applications/OrbStack.app/Contents/MacOS/OrbStack Helper\n\
54082   812 purin           19:03:26 /opt/homebrew/bin/node\n\n\
  627     1 root               00:05 /usr/libexec/rapportd\n\
   bad    1 root               00:05 /bin/x\n\
   12     1 root               never /bin/x\n\
   13     1 root\n";

#[test]
fn ps_rows_are_read_in_columns() {
    let meta = parse_ps_output(PS, now());
    assert_eq!(meta.len(), 3);
    let orbstack = meta.get(&2979).expect("pid 2979 must parse");
    assert_eq!(orbstack.ppid, 1);
    assert_eq!(orbstack.user, "purin");
    assert!(orbstack.comm.ends_with("OrbStack Helper"));
    assert_eq!(meta.get(&54082).expect("pid 54082 must parse").comm, "/opt/homebrew/bin/node");
    assert_eq!(meta.get(&627).expect("pid 627 must parse").start_time, Timestamp::new(1_759_999_995, 5));
    assert!(parse_ps_line("1 2 u 00:01", now()).is_none());
    // A time before all that can be told counts as the start of 1970.
    let (_, ancient) = parse_ps_line("1 2 u 0:18446744073709551615 x", now()).expect("must parse");
    assert_eq!(ancient.start_time, Timestamp::unix_epoch());
}

/// A process that exited between the calls is left out; one without a working directory
/// is not.
#[test]
fn listeners_are_joined_by_process() {
    let sockets = parse_lsof_fields(LSOF);
    let meta = parse_ps_output(PS, now());
    let mut cwds: HashMap<u32, String> = HashMap::new();
    cwds.insert(54082, "/Users/purin/.openclaw".to_string());

    let listeners = join_listeners(&sockets, &meta, &cwds);
    assert_eq!(listeners.len(), 2);
    assert_eq!(listeners[0].pid, 627);
    assert_eq!(listeners[0].cwd, None);
    assert_eq!(listeners[1].pid, 54082);
    assert_eq!(listeners[1].ppid, 812);
    assert_eq!(listeners[1].command, "node");
    assert_eq!(listeners[1].exe_path, "/opt/homebrew/bin/node");
    assert_eq!(listeners[1].cwd, Some("/Users/purin/.openclaw".to_string()));
    assert_eq!(listeners[1].user, "purin");
    assert_eq!(listeners[1].ports.len(), 2);
    assert_eq!(listeners[1].usage, ResourceSample::default());
    assert!(listeners.iter().all(|l| !l.ports.is_empty()));
}

/// A tool that fails without a word had nothing to list.
#[test]
fn a_silent_failure_is_an_empty_listing() {
    assert_eq!(checked_output("lsof", false, "exit status: 1", String::new(), ""), Ok(String::new()));
    assert_eq!(checked_output("ps", true, "exit status: 0", "x".to_string(), "warning"), Ok("x".to_string()));
    assert_eq!(
        checked_output("lsof (cwd)", false, "exit status: 1", "x".to_string(), "no such file"),
        Err("lsof (cwd) exited with exit status: 1: no such file".to_string())
    );
}

/// A group leader's group is signalled, anyone else alone, and nobody where the system
/// reports no group.
#[test]
fn a_signal_goes_where_the_group_allows() {
    let calls: RefCell<Vec<(i32, i32)>> = RefCell::new(Vec::new());
    let kill = |argument: i32, signal: i32| {
        calls.borrow_mut().push((argument, signal));
        if argument == 7 { Err("no such process".to_string()) } else { Ok(()) }
    };
    assert_eq!(signal_process_group(4242, 15, &|pid: i32| pid, &kill), Ok(()));
    assert_eq!(signal_process_group(4242, 9, &|_: i32| 991, &kill), Ok(()));
    assert_eq!(
        signal_process_group(4242, 9, &|_: i32| -1, &kill),
        Err("refusing to signal pid 4242: invalid process group -1".to_string())
    );
    assert_eq!(
        signal_process_group(7, 9, &|_: i32| 991, &kill),
        Err("failed to signal process 7 (not a group leader) for pid 7: no such process".to_string())
    );
    assert_eq!(*calls.borrow(), vec![(-4242, 15), (4242, 9), (7, 9)]);
    let refused = |_: i32, _: i32| Err("not permitted".to_string());
    assert_eq!(
        signal_process_group(4242, 15, &|pid: i32| pid, &refused),
        Err("failed to signal process group 4242 for pid 4242: not permitted".to_string())
    );
    assert_eq!(to_signed_pid(u32::MAX), -1);
    assert_eq!(to_signed_pid(1 << 31), i32::MIN);
}

fn ran(stdout: &str) -> Result<ToolRun, String> {
    Ok(ToolRun {
        success: true,
        status: "exit status: 0".to_string(),
        stdout: stdout.to_string(),
        stderr: String::new(),
    })
}

/// The three tools are run in turn, the last two for the processes that the first found.
#[test]
fn a_listing_is_made_of_three_runs() {
    let log: RefCell<Vec<String>> = RefCell::new(Vec::new());
    let run = |tool: Tool, pids: &str| {
        log.borrow_mut().push(format!("{} {}", tool.program(), tool.args(pids).join(" ")));
        match tool {
            Tool::Listeners => ran(LSOF),
            Tool::Metadata => ran(PS),
            Tool::Directories => ran("p54082\nn/Users/purin/.openclaw\n"),
        }
    };
    let listeners = MacosProcessSource.enumerate(&run, &now).expect("must be listed");
    let pids: Vec<u32> = listeners.iter().map(|l| l.pid).collect();
    assert_eq!(pids, vec![627, 54082]);
    assert_eq!(listeners[1].cwd.as_deref(), Some("/Users/purin/.openclaw"));
    assert_eq!(listeners[0].start_time, Timestamp::new(1_759_999_995, 5));
    assert_eq!(
        *log.borrow(),
        vec![
            "lsof -nP -iTCP -sTCP:LISTEN -F pcnt",
            "ps -o pid=,ppid=,user=,etime=,comm= -p 627,54082,98027",
            "lsof -a -p 627,54082,98027 -d cwd -F pn",
        ]
    );
}

/// Nothing listening is an empty listing; a tool that fails is an error.
#[test]
fn a_failing_tool_is_no_empty_listing() {
    let silent = || {
        Ok(ToolRun { success: false, status: "exit status: 1".to_string(), stdout: String::new(), stderr: String::new() })
    };
    let listed = |run: &dyn Fn(Tool) -> Result<ToolRun, String>| {
        MacosProcessSource.enumerate(&|tool: Tool, _: &str| run(tool), &now).map(|l| l.len())
    };
    assert_eq!(listed(&|_| silent()), Ok(0));
    assert_eq!(listed(&|_| Err("not found".to_string())), Err("failed to run lsof: not found".to_string()));
    for (broken, message) in [
        (Tool::Listeners, "lsof exited with exit status: 1: denied"),
        (Tool::Metadata, "ps exited with exit status: 1: denied"),
        (Tool::Directories, "lsof (cwd) exited with exit status: 1: denied"),
    ] {
        let result = listed(&|tool| {
            if tool == broken {
                Ok(ToolRun {
                    success: false,
                    status: "exit status: 1".to_string(),
                    stdout: String::new(),
                    stderr: "denied".to_string(),
                })
            } else if tool == Tool::Listeners {
                ran(LSOF)
            } else {
                ran(PS)
            }
        });
        assert_eq!(result, Err(message.to_string()));
    }
    // Every process had gone by the time it was asked about.
    assert_eq!(listed(&|tool| if tool == Tool::Listeners { ran(LSOF) } else { silent() }), Ok(0));
}

#[test]
fn bundles_are_told_by_their_ending_alone() {
    let source = MacosProcessSource;
    assert_eq!(source.owning_app("/Applications/My.app.bak/x"), None);
    assert_eq!(source.owning_app("/Applications/X.app"), Some("X".to_string()));
    assert_eq!(source.owning_app("A.app/B.app/c"), Some("A".to_string()));
    assert_eq!(source.owning_app(""), None);
}
