//! Listing the listeners of a machine: which tools are run, with which arguments, and
//! what their output comes to. Running a tool is left to a function that the application
//! hands over.
use super::macos;
use super::macos::{MacosProcessSource, RawSockets, SocketsView};
use super::{RawListener, RawListenerView};
use crate::numeral;
use crate::text;
use crate::time::Timestamp;
use vstd::prelude::*;

verus! {

// ---------------------------------------------------------------------------------
// The tools.
// ---------------------------------------------------------------------------------

/// What is asked of the system's tools.
#[derive(Debug, Clone, Copy, PartialEq, Eq, Structural)]
pub enum Tool {
    /// Every listening TCP socket.
    Listeners,
    /// Parent, user, running time and executable of some processes.
    Metadata,
    /// The working directories of some processes, all in one run.
    Directories,
}

/// The program that is run.
pub open spec fn program_of(tool: Tool) -> Seq<char> {
    match tool {
        Tool::Listeners => "lsof"@,
        Tool::Metadata => "ps"@,
        Tool::Directories => "lsof"@,
    }
}

/// What a tool is called in messages.
pub open spec fn label_of(tool: Tool) -> Seq<char> {
    match tool {
        Tool::Listeners => "lsof"@,
        Tool::Metadata => "ps"@,
        Tool::Directories => "lsof (cwd)"@,
    }
}

/// The arguments that a tool is run with, for these processes.
pub open spec fn args_of(tool: Tool, pids: Seq<char>) -> Seq<Seq<char>> {
    match tool {
        Tool::Listeners => seq!["-nP"@, "-iTCP"@, "-sTCP:LISTEN"@, "-F"@, "pcnt"@],
        Tool::Metadata => seq!["-o"@, "pid=,ppid=,user=,etime=,comm="@, "-p"@, pids],
        Tool::Directories => seq!["-a"@, "-p"@, pids, "-d"@, "cwd"@, "-F"@, "pn"@],
    }
}

impl Tool {
    /// The program that is run.
    pub fn program(self) -> (r: &'static str)
        ensures
            r@ == program_of(self),
    {
        match self {
            Tool::Listeners => "lsof",
            Tool::Metadata => "ps",
            Tool::Directories => "lsof",
        }
    }

    /// What the tool is called in messages.
    pub fn label(self) -> (r: &'static str)
        ensures
            r@ == label_of(self),
    {
        match self {
            Tool::Listeners => "lsof",
            Tool::Metadata => "ps",
            Tool::Directories => "lsof (cwd)",
        }
    }

    /// The arguments that the tool is run with, for these processes.
    pub fn args(self, pids: &str) -> (r: Vec<String>)
        ensures
            text::views(r@) == args_of(self, pids@),
    {
        let mut r: Vec<String> = Vec::new();
        match self {
            Tool::Listeners => {
                r.push("-nP".to_owned());
                r.push("-iTCP".to_owned());
                r.push("-sTCP:LISTEN".to_owned());
                r.push("-F".to_owned());
                r.push("pcnt".to_owned());
            },
            Tool::Metadata => {
                r.push("-o".to_owned());
                r.push("pid=,ppid=,user=,etime=,comm=".to_owned());
                r.push("-p".to_owned());
                r.push(pids.to_owned());
            },
            Tool::Directories => {
                r.push("-a".to_owned());
                r.push("-p".to_owned());
                r.push(pids.to_owned());
                r.push("-d".to_owned());
                r.push("cwd".to_owned());
                r.push("-F".to_owned());
                r.push("pn".to_owned());
            },
        }
        proof {
            assert(text::views(r@) =~= args_of(self, pids@));
        }
        r
    }
}

/// What a run of a tool left behind.
pub struct ToolRun {
    pub success: bool,
    /// How it exited, in words.
    pub status: String,
    pub stdout: String,
    pub stderr: String,
}

/// The outcome of running one of the tools. The tools exit with a failure both when
/// there was nothing to list and when they could not do their work; only the latter
/// says something on the error stream, and only then is it an error.
pub open spec fn tool_failed(success: bool, stderr: Seq<char>) -> bool {
    !success && stderr.len() > 0
}

/// What a tool's run gives: its output, or why it failed.
pub fn checked_output(
    tool: &str,
    success: bool,
    status: &str,
    stdout: String,
    stderr: &str,
) -> (r: Result<String, String>)
    ensures
        match r {
            Ok(out) => !tool_failed(success, stderr@) && out@ == stdout@,
            Err(e) => tool_failed(success, stderr@) && e@ == tool@ + " exited with "@ + status@
                + ": "@ + stderr@,
        },
{
    if !success && text::to_chars(stderr).len() > 0 {
        let mut e = tool.to_owned();
        e.append(" exited with ");
        e.append(status);
        e.append(": ");
        e.append(stderr);
        Err(e)
    } else {
        Ok(stdout)
    }
}

/// What comes of a tool: its output, or why there is none. A tool that could not be
/// started has none.
pub open spec fn output_of(tool: Tool, run: Result<ToolRun, String>) -> Result<Seq<char>, Seq<char>> {
    match run {
        Err(e) => Err("failed to run "@ + label_of(tool) + ": "@ + e@),
        Ok(run) => if tool_failed(run.success, run.stderr@) {
            Err(label_of(tool) + " exited with "@ + run.status@ + ": "@ + run.stderr@)
        } else {
            Ok(run.stdout@)
        },
    }
}

/// What an output or an error says.
pub open spec fn said(r: Result<String, String>) -> Result<Seq<char>, Seq<char>> {
    match r {
        Ok(out) => Ok(out@),
        Err(e) => Err(e@),
    }
}

/// What comes of a tool: its output, or why there is none.
pub fn tool_output(tool: Tool, run: Result<ToolRun, String>) -> (r: Result<String, String>)
    ensures
        said(r) == output_of(tool, run),
{
    match run {
        Err(e) => {
            let mut message = "failed to run ".to_owned();
            message.append(tool.label());
            message.append(": ");
            message.append(e.as_str());
            Err(message)
        },
        Ok(run) => checked_output(
            tool.label(),
            run.success,
            run.status.as_str(),
            run.stdout,
            run.stderr.as_str(),
        ),
    }
}

// ---------------------------------------------------------------------------------
// Which processes are asked about.
// ---------------------------------------------------------------------------------

/// Process numbers with commas between them.
pub open spec fn comma_list(pids: Seq<u32>) -> Seq<char>
    decreases pids.len(),
{
    if pids.len() == 0 {
        Seq::empty()
    } else if pids.len() == 1 {
        numeral::decimal(pids[0] as nat)
    } else {
        comma_list(pids.drop_last()).push(',') + numeral::decimal(pids.last() as nat)
    }
}

/// The processes that sockets belong to.
pub open spec fn pids_of(sockets: Seq<SocketsView>) -> Seq<u32> {
    sockets.map_values(|s: SocketsView| s.pid)
}

/// The processes that sockets belong to, as the argument that `ps -p` and `lsof -p`
/// take.
pub fn pid_list(sockets: &Vec<RawSockets>) -> (r: String)
    ensures
        r@ == comma_list(pids_of(macos::sockets_views(sockets@))),
{
    let mut r = String::new();
    let mut i: usize = 0;
    let ghost pids = pids_of(macos::sockets_views(sockets@));
    proof {
        assert(pids.take(0) =~= Seq::<u32>::empty());
    }
    while i < sockets.len()
        invariant
            0 <= i <= sockets@.len(),
            pids == pids_of(macos::sockets_views(sockets@)),
            r@ == comma_list(pids.take(i as int)),
        decreases sockets@.len() - i,
    {
        proof {
            assert(pids.take(i + 1).drop_last() =~= pids.take(i as int));
            assert(pids.take(i + 1).last() == sockets@[i as int].pid);
        }
        if i > 0 {
            r.push(',');
        }
        r.append(numeral::to_decimal(sockets[i].pid as u128).as_str());
        i = i + 1;
        proof {
            if i == 1 {
                assert(r@ =~= numeral::decimal(pids[0] as nat));
            }
        }
    }
    proof {
        assert(pids.take(i as int) =~= pids);
    }
    r
}

// ---------------------------------------------------------------------------------
// The listing.
// ---------------------------------------------------------------------------------

/// What a listing holds, or why there is none.
pub open spec fn listed(r: Result<Vec<RawListener>, String>) -> Result<Seq<RawListenerView>, Seq<char>> {
    match r {
        Ok(listeners) => Ok(super::listener_views(listeners@)),
        Err(e) => Err(e@),
    }
}

/// The sockets that a run listed: none where it failed.
pub open spec fn found_sockets(sockets: Result<ToolRun, String>) -> Seq<SocketsView> {
    match output_of(Tool::Listeners, sockets) {
        Ok(out) => macos::lsof_sockets(out),
        Err(_) => Seq::empty(),
    }
}

/// The listing that three runs make, the second read at `now`. Where no socket is found
/// the other two are not needed; where one of the three fails there is no listing.
pub open spec fn listing(
    sockets: Result<ToolRun, String>,
    metadata: Result<ToolRun, String>,
    directories: Result<ToolRun, String>,
    now: Timestamp,
) -> Result<Seq<RawListenerView>, Seq<char>> {
    match output_of(Tool::Listeners, sockets) {
        Err(e) => Err(e),
        Ok(_) => if found_sockets(sockets).len() == 0 {
            Ok(Seq::empty())
        } else {
            match output_of(Tool::Metadata, metadata) {
                Err(e) => Err(e),
                Ok(ps) => match output_of(Tool::Directories, directories) {
                    Err(e) => Err(e),
                    Ok(cwds) => Ok(
                        macos::joined_listeners(
                            found_sockets(sockets),
                            macos::ps_map(ps, now),
                            macos::cwd_map(cwds),
                        ),
                    ),
                },
            }
        },
    }
}

/// Whether a run came from running the tool for these processes through `run`.
pub open spec fn ran<R: Fn(Tool, &str) -> Result<ToolRun, String>>(
    run: R,
    tool: Tool,
    pids: Seq<char>,
    result: Result<ToolRun, String>,
) -> bool {
    exists|p: &str| #[trigger] call_ensures(run, (tool, p), result) && p@ == pids
}

/// Whether a listing came from these runs, each of them made where it was needed and
/// for the processes that hold a socket, and the clock read in between.
pub open spec fn gathered<
    R: Fn(Tool, &str) -> Result<ToolRun, String>,
    C: Fn() -> Timestamp,
>(
    run: R,
    clock: C,
    sockets: Result<ToolRun, String>,
    metadata: Result<ToolRun, String>,
    directories: Result<ToolRun, String>,
    now: Timestamp,
    result: Result<Seq<RawListenerView>, Seq<char>>,
) -> bool {
    let found = found_sockets(sockets);
    let pids = comma_list(pids_of(found));
    &&& ran(run, Tool::Listeners, Seq::empty(), sockets)
    &&& found.len() > 0 ==> ran(run, Tool::Metadata, pids, metadata)
    &&& found.len() > 0 && output_of(Tool::Metadata, metadata) is Ok ==> {
        &&& call_ensures(clock, (), now)
        &&& ran(run, Tool::Directories, pids, directories)
    }
    &&& result == listing(sockets, metadata, directories, now)
}

impl MacosProcessSource {
    /// Every TCP listener there is, one entry for each process.
    pub fn enumerate<R: Fn(Tool, &str) -> Result<ToolRun, String>, C: Fn() -> Timestamp>(
        &self,
        run: &R,
        clock: &C,
    ) -> (r: Result<Vec<RawListener>, String>)
        requires
            forall|tool: Tool, pids: &str| #[trigger] call_requires(*run, (tool, pids)),
            call_requires(*clock, ()),
        ensures
            exists|
                sockets: Result<ToolRun, String>,
                metadata: Result<ToolRun, String>,
                directories: Result<ToolRun, String>,
                now: Timestamp,
            | #[trigger]
                gathered(*run, *clock, sockets, metadata, directories, now, listed(r)),
    {
        let nothing = "";
        proof {
            reveal_strlit("");
            assert(nothing@ =~= Seq::<char>::empty());
        }
        let socket_run = run(Tool::Listeners, nothing);
        let ghost sr = socket_run;
        let out = match tool_output(Tool::Listeners, socket_run) {
            Ok(out) => out,
            Err(e) => {
                let r: Result<Vec<RawListener>, String> = Err(e);
                proof {
                    assert(gathered(*run, *clock, sr, sr, sr, Timestamp { secs: 0, nanos: 0 }, listed(r)));
                }
                return r;
            },
        };
        let sockets = macos::parse_lsof_fields(out.as_str());
        let ghost found = found_sockets(sr);
        proof {
            assert(macos::sockets_views(sockets@) == found);
        }
        if sockets.len() == 0 {
            let r: Result<Vec<RawListener>, String> = Ok(Vec::new());
            proof {
                assert(super::listener_views(r->Ok_0@) =~= Seq::<RawListenerView>::empty());
                assert(gathered(*run, *clock, sr, sr, sr, Timestamp { secs: 0, nanos: 0 }, listed(r)));
            }
            return r;
        }
        let pids = pid_list(&sockets);
        let metadata_run = run(Tool::Metadata, pids.as_str());
        let ghost mr = metadata_run;
        let rows = match tool_output(Tool::Metadata, metadata_run) {
            Ok(rows) => rows,
            Err(e) => {
                let r: Result<Vec<RawListener>, String> = Err(e);
                proof {
                    assert(gathered(*run, *clock, sr, mr, mr, Timestamp { secs: 0, nanos: 0 }, listed(r)));
                }
                return r;
            },
        };
        let now = clock();
        let by_pid = macos::parse_ps_output(rows.as_str(), now);
        let directory_run = run(Tool::Directories, pids.as_str());
        let ghost dr = directory_run;
        let r: Result<Vec<RawListener>, String> = match tool_output(
            Tool::Directories,
            directory_run,
        ) {
            Ok(cwds) => Ok(
                macos::join_listeners(&sockets, &by_pid, &macos::parse_cwd_batch(cwds.as_str())),
            ),
            Err(e) => Err(e),
        };
        proof {
            assert(gathered(*run, *clock, sr, mr, dr, now, listed(r)));
        }
        r
    }
}

// ---------------------------------------------------------------------------------
// What every listing keeps.
// ---------------------------------------------------------------------------------

/// Whatever the tools print, no listener comes without a port.
pub proof fn lemma_listeners_have_ports(
    lsof: Seq<char>,
    ps: Map<u32, macos::MetaView>,
    cwds: Map<u32, Seq<char>>,
)
    ensures
        forall|i: int|
            0 <= i < macos::joined_listeners(macos::lsof_sockets(lsof), ps, cwds).len() ==> (
            #[trigger] macos::joined_listeners(macos::lsof_sockets(lsof), ps, cwds)[i]).ports.len() > 0,
{
    macos::lemma_lsof_ports(text::lines_of(lsof));
    macos::lemma_joined_listeners(macos::lsof_sockets(lsof), ps, cwds);
    let all = macos::joined_listeners(macos::lsof_sockets(lsof), ps, cwds);
    let sockets = macos::lsof_sockets(lsof);
    assert forall|i: int| 0 <= i < all.len() implies (#[trigger] all[i]).ports.len() > 0 by {
        let k = choose|k: int|
            0 <= k < sockets.len() && (#[trigger] sockets[k]).pid == all[i].pid && sockets[k].ports
                == all[i].ports;
        assert(sockets[k].ports.len() > 0);
    }
}

/// A tool that fails never makes an empty listing: where there is a listing, every tool
/// that it needed gave its output, and where a listing is empty although sockets were
/// found, their processes had gone by the time they were asked about.
pub proof fn lemma_failure_is_no_empty_listing(
    sockets: Result<ToolRun, String>,
    metadata: Result<ToolRun, String>,
    directories: Result<ToolRun, String>,
    now: Timestamp,
)
    ensures
        listing(sockets, metadata, directories, now) is Ok <==> output_of(
            Tool::Listeners,
            sockets,
        ) is Ok && (found_sockets(sockets).len() > 0 ==> output_of(Tool::Metadata, metadata) is Ok
            && output_of(Tool::Directories, directories) is Ok),
        forall|i: int|
            listing(sockets, metadata, directories, now) == Ok::<_, Seq<char>>(
                Seq::<RawListenerView>::empty(),
            ) && 0 <= i < found_sockets(sockets).len() ==> !macos::ps_map(
                output_of(Tool::Metadata, metadata)->Ok_0,
                now,
            ).contains_key((#[trigger] found_sockets(sockets)[i]).pid),
{
    if listing(sockets, metadata, directories, now) is Ok && found_sockets(sockets).len() > 0 {
        lemma_known_processes_are_listed(
            found_sockets(sockets),
            macos::ps_map(output_of(Tool::Metadata, metadata)->Ok_0, now),
            macos::cwd_map(output_of(Tool::Directories, directories)->Ok_0),
        );
    }
}

/// Every process that is known makes a listener.
proof fn lemma_known_processes_are_listed(
    sockets: Seq<SocketsView>,
    ps: Map<u32, macos::MetaView>,
    cwds: Map<u32, Seq<char>>,
)
    ensures
        forall|i: int|
            0 <= i < sockets.len() && ps.contains_key((#[trigger] sockets[i]).pid)
                ==> macos::joined_listeners(sockets, ps, cwds).len() > 0,
    decreases sockets.len(),
{
    if sockets.len() > 0 {
        let front = sockets.drop_last();
        lemma_known_processes_are_listed(front, ps, cwds);
        assert forall|i: int|
            0 <= i < sockets.len() && ps.contains_key((#[trigger] sockets[i]).pid) implies
            macos::joined_listeners(sockets, ps, cwds).len() > 0 by {
            if i < front.len() {
                assert(front[i] == sockets[i]);
            }
        }
    }
}

} // verus!
