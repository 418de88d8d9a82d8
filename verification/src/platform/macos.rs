//! Reading what the macOS system tools print.
//!
//! Three commands do the gathering: `lsof -F pcnt` lists the listening sockets, one
//! field to a line; `ps -o pid=,ppid=,user=,etime=,comm=` gives each process's parent,
//! user, running time and executable; `lsof -d cwd -F pn` gives the working
//! directories. Running them is left to the application. Everything here is total: no
//! output, however malformed, makes a parser fail.
use super::{
    AddressFamily, PortBinding, Reachability, RawListener, RawListenerView, ResourceSample,
};
use crate::numeral;
use crate::path;
use crate::text;
use crate::time::Timestamp;
use std::collections::HashMap;
use vstd::prelude::*;

verus! {

broadcast use vstd::std_specs::hash::group_hash_axioms;

// ---------------------------------------------------------------------------------
// Sockets.
// ---------------------------------------------------------------------------------

/// Who can reach a socket bound to `host`: this machine alone for the loopback
/// addresses, the whole network for `*` and for any other address.
pub open spec fn reachability_of(host: Seq<char>) -> Reachability {
    if host == "127.0.0.1"@ || host == "[::1]"@ || host == "localhost"@ {
        Reachability::LocalhostOnly
    } else {
        Reachability::AllInterfaces
    }
}

/// The binding that an address such as `127.0.0.1:4399`, `[::1]:4399` or `*:5432`
/// describes. The port is what follows the last colon.
pub open spec fn binding_of(address: Seq<char>, family: AddressFamily) -> Option<PortBinding> {
    match text::split_at_last(address, ':') {
        Some((host, port)) => match numeral::parsed(port, u16::MAX as nat) {
            Some(n) => Some(
                PortBinding { port: n as u16, family, reachability: reachability_of(host) },
            ),
            None => None,
        },
        None => None,
    }
}

/// Parse one `n` field of `lsof`, together with the family that the `t` field before
/// it named.
pub fn parse_port_binding(address: &str, family: AddressFamily) -> (r: Option<PortBinding>)
    ensures
        r == binding_of(address@, family),
{
    match text::rsplit_once_char(address, ':') {
        Some((host, port_text)) => match numeral::parse_u16(port_text.as_str()) {
            Some(port) => {
                let reachability = if text::same(host.as_str(), "127.0.0.1") || text::same(
                    host.as_str(),
                    "[::1]",
                ) || text::same(host.as_str(), "localhost") {
                    Reachability::LocalhostOnly
                } else {
                    Reachability::AllInterfaces
                };
                Some(PortBinding { port, family, reachability })
            },
            None => None,
        },
        None => None,
    }
}

/// One process's listening sockets.
#[derive(Debug)]
pub struct RawSockets {
    pub pid: u32,
    pub command: String,
    pub ports: Vec<PortBinding>,
}

/// What a [`RawSockets`] holds.
#[verifier::ext_equal]
pub struct SocketsView {
    pub pid: u32,
    pub command: Seq<char>,
    pub ports: Seq<PortBinding>,
}

impl View for RawSockets {
    type V = SocketsView;

    open spec fn view(&self) -> SocketsView {
        SocketsView { pid: self.pid, command: self.command@, ports: self.ports@ }
    }
}

/// What each entry of a list of sockets holds.
pub open spec fn sockets_views(v: Seq<RawSockets>) -> Seq<SocketsView> {
    v.map_values(|s: RawSockets| s@)
}

/// How far the reading of `lsof -F pcnt` output has come: the processes that are
/// complete, and what has been read of the one at hand.
#[verifier::ext_equal]
pub struct LsofState {
    pub done: Seq<SocketsView>,
    pub pid: Option<u32>,
    pub command: Seq<char>,
    pub ports: Seq<PortBinding>,
    pub family: Option<AddressFamily>,
}

impl LsofState {
    /// Nothing has been read.
    pub open spec fn initial() -> LsofState {
        LsofState {
            done: Seq::empty(),
            pid: None,
            command: Seq::empty(),
            ports: Seq::empty(),
            family: None,
        }
    }

    /// The complete processes, with the one at hand where it has a pid and a port.
    pub open spec fn flushed(self) -> Seq<SocketsView> {
        match self.pid {
            Some(pid) if self.ports.len() > 0 => self.done.push(
                SocketsView { pid, command: self.command, ports: self.ports },
            ),
            _ => self.done,
        }
    }

    /// Read one more line: a tag character and a value.
    ///
    /// `p` starts a process, `c` names it, `t` gives the family of the socket that the
    /// next `n` gives the address of. A socket without a family, or without an address
    /// that can be read, is left out.
    pub open spec fn step(self, line: Seq<char>) -> LsofState {
        match text::tag_and_value(line) {
            Some((tag, value)) => if tag == 'p' {
                LsofState {
                    done: self.flushed(),
                    pid: pid_of(value),
                    command: Seq::empty(),
                    ports: Seq::empty(),
                    family: None,
                }
            } else if tag == 'c' {
                LsofState { command: value, ..self }
            } else if tag == 't' {
                LsofState { family: family_of(value), ..self }
            } else if tag == 'n' {
                match self.family {
                    Some(family) => match binding_of(value, family) {
                        Some(b) => LsofState { ports: self.ports.push(b), family: None, ..self },
                        None => LsofState { family: None, ..self },
                    },
                    None => self,
                }
            } else {
                self
            },
            None => self,
        }
    }
}

/// The process number that a `p` field gives, where it gives one.
pub open spec fn pid_of(value: Seq<char>) -> Option<u32> {
    match numeral::parsed(value, u32::MAX as nat) {
        Some(n) => Some(n as u32),
        None => None,
    }
}

/// The address family that a `t` field names, where it names one.
pub open spec fn family_of(value: Seq<char>) -> Option<AddressFamily> {
    if value == "IPv4"@ {
        Some(AddressFamily::V4)
    } else if value == "IPv6"@ {
        Some(AddressFamily::V6)
    } else {
        None
    }
}

/// Where the reading stands after `lines`.
pub open spec fn lsof_after(lines: Seq<Seq<char>>) -> LsofState
    decreases lines.len(),
{
    if lines.len() == 0 {
        LsofState::initial()
    } else {
        lsof_after(lines.drop_last()).step(lines.last())
    }
}

/// The processes that `lsof -F pcnt` output lists.
pub open spec fn lsof_sockets(raw: Seq<char>) -> Seq<SocketsView> {
    lsof_after(text::lines_of(raw)).flushed()
}

/// Add the process at hand to the complete ones, where it has a pid and a port.
fn flush(done: &mut Vec<RawSockets>, pid: Option<u32>, command: String, ports: Vec<PortBinding>)
    ensures
        forall|family: Option<AddressFamily>|
            sockets_views(final(done)@) == (#[trigger] (LsofState {
                done: sockets_views(old(done)@),
                pid,
                command: command@,
                ports: ports@,
                family,
            }).flushed()),
{
    match pid {
        Some(pid) => {
            if ports.len() > 0 {
                let entry = RawSockets { pid, command, ports };
                let ghost before = sockets_views(done@);
                done.push(entry);
                proof {
                    assert(sockets_views(done@) =~= before.push(entry@));
                }
            }
        },
        None => {},
    }
}

/// Parse the output of `lsof -F pcnt`.
pub fn parse_lsof_fields(raw: &str) -> (r: Vec<RawSockets>)
    ensures
        sockets_views(r@) == lsof_sockets(raw@),
        forall|i: int| 0 <= i < r@.len() ==> (#[trigger] r@[i]).ports@.len() > 0,
{
    let lines = text::lines(raw);
    let mut done: Vec<RawSockets> = Vec::new();
    let mut pid: Option<u32> = None;
    let mut command = String::new();
    let mut ports: Vec<PortBinding> = Vec::new();
    let mut family: Option<AddressFamily> = None;
    let mut i: usize = 0;
    proof {
        assert(sockets_views(done@) =~= Seq::<SocketsView>::empty());
        assert(text::views(lines@).take(0) =~= Seq::<Seq<char>>::empty());
    }
    while i < lines.len()
        invariant
            0 <= i <= lines@.len(),
            text::views(lines@) == text::lines_of(raw@),
            lsof_after(text::views(lines@).take(i as int)) == (LsofState {
                done: sockets_views(done@),
                pid,
                command: command@,
                ports: ports@,
                family,
            }),
        decreases lines@.len() - i,
    {
        let ghost read = text::views(lines@).take(i + 1);
        let ghost before = LsofState {
            done: sockets_views(done@),
            pid,
            command: command@,
            ports: ports@,
            family,
        };
        proof {
            assert(read.drop_last() =~= text::views(lines@).take(i as int));
            assert(read.last() == lines@[i as int]@);
            assert(lsof_after(read) == before.step(lines@[i as int]@));
        }
        match text::split_tag(lines[i].as_str()) {
            Some((tag, value)) => {
                if tag == 'p' {
                    let mut last_ports: Vec<PortBinding> = Vec::new();
                    std::mem::swap(&mut last_ports, &mut ports);
                    flush(&mut done, pid, command, last_ports);
                    proof {
                        assert(sockets_views(done@) == before.flushed());
                    }
                    pid = numeral::parse_u32(value.as_str());
                    command = String::new();
                    family = None;
                } else if tag == 'c' {
                    command = value;
                } else if tag == 't' {
                    family = if text::same(value.as_str(), "IPv4") {
                        Some(AddressFamily::V4)
                    } else if text::same(value.as_str(), "IPv6") {
                        Some(AddressFamily::V6)
                    } else {
                        None
                    };
                } else if tag == 'n' {
                    match family {
                        Some(f) => {
                            match parse_port_binding(value.as_str(), f) {
                                Some(binding) => {
                                    ports.push(binding);
                                },
                                None => {},
                            }
                            family = None;
                        },
                        None => {},
                    }
                }
            },
            None => {},
        }
        i = i + 1;
    }
    proof {
        assert(text::views(lines@).take(i as int) =~= text::views(lines@));
        lemma_lsof_ports(text::lines_of(raw@));
    }
    flush(&mut done, pid, command, ports);
    proof {
        assert(sockets_views(done@) == lsof_after(text::lines_of(raw@)).flushed());
        assert forall|k: int| 0 <= k < done@.len() implies (#[trigger] done@[k]).ports@.len()
            > 0 by {
            assert(sockets_views(done@)[k].ports.len() > 0);
        }
    }
    done
}

/// Every process that counts as read has at least one socket.
pub proof fn lemma_lsof_ports(lines: Seq<Seq<char>>)
    ensures
        forall|i: int|
            0 <= i < lsof_after(lines).flushed().len() ==> (#[trigger] lsof_after(
                lines,
            ).flushed()[i]).ports.len() > 0,
        forall|i: int|
            0 <= i < lsof_after(lines).done.len() ==> (#[trigger] lsof_after(
                lines,
            ).done[i]).ports.len() > 0,
    decreases lines.len(),
{
    if lines.len() > 0 {
        lemma_lsof_ports(lines.drop_last());
    }
}

// ---------------------------------------------------------------------------------
// Working directories.
// ---------------------------------------------------------------------------------

/// The texts that a map of strings holds.
pub open spec fn texts(m: Map<u32, String>) -> Map<u32, Seq<char>> {
    m.map_values(|s: String| s@)
}

/// How far the reading of `lsof -d cwd -F pn` output has come.
#[verifier::ext_equal]
pub struct CwdState {
    pub pid: Option<u32>,
    pub found: Map<u32, Seq<char>>,
}

impl CwdState {
    /// Nothing has been read.
    pub open spec fn initial() -> CwdState {
        CwdState { pid: None, found: Map::empty() }
    }

    /// Read one more line. A `p` line names a process, and the `n` line after it its
    /// working directory, unless that is empty.
    pub open spec fn step(self, line: Seq<char>) -> CwdState {
        match text::tag_and_value(line) {
            Some((tag, value)) => if tag == 'p' {
                CwdState { pid: pid_of(value), ..self }
            } else if tag == 'n' && self.pid is Some && value.len() > 0 {
                CwdState { found: self.found.insert(self.pid->0, value), ..self }
            } else {
                self
            },
            None => self,
        }
    }
}

/// Where the reading stands after `lines`.
pub open spec fn cwd_after(lines: Seq<Seq<char>>) -> CwdState
    decreases lines.len(),
{
    if lines.len() == 0 {
        CwdState::initial()
    } else {
        cwd_after(lines.drop_last()).step(lines.last())
    }
}

/// The working directories that `lsof -d cwd -F pn` output gives, by process.
pub open spec fn cwd_map(raw: Seq<char>) -> Map<u32, Seq<char>> {
    cwd_after(text::lines_of(raw)).found
}

/// Parse the output of `lsof -d cwd -F pn`. A process whose directory could not be had
/// has no entry.
pub fn parse_cwd_batch(raw: &str) -> (r: HashMap<u32, String>)
    ensures
        texts(r@) == cwd_map(raw@),
{
    let lines = text::lines(raw);
    let mut found: HashMap<u32, String> = HashMap::new();
    let mut pid: Option<u32> = None;
    let mut i: usize = 0;
    proof {
        assert(texts(found@) =~= Map::<u32, Seq<char>>::empty());
        assert(text::views(lines@).take(0) =~= Seq::<Seq<char>>::empty());
    }
    while i < lines.len()
        invariant
            0 <= i <= lines@.len(),
            text::views(lines@) == text::lines_of(raw@),
            cwd_after(text::views(lines@).take(i as int)) == (CwdState {
                pid,
                found: texts(found@),
            }),
        decreases lines@.len() - i,
    {
        let ghost read = text::views(lines@).take(i + 1);
        let ghost before = CwdState { pid, found: texts(found@) };
        proof {
            assert(read.drop_last() =~= text::views(lines@).take(i as int));
            assert(read.last() == lines@[i as int]@);
            assert(cwd_after(read) == before.step(lines@[i as int]@));
        }
        match text::split_tag(lines[i].as_str()) {
            Some((tag, value)) => {
                if tag == 'p' {
                    pid = numeral::parse_u32(value.as_str());
                } else if tag == 'n' {
                    match pid {
                        Some(p) => {
                            if text::to_chars(value.as_str()).len() > 0 {
                                let ghost old_found = found@;
                                let ghost v = value@;
                                found.insert(p, value);
                                proof {
                                    assert(texts(found@) =~= texts(old_found).insert(p, v));
                                }
                            }
                        },
                        None => {},
                    }
                }
            },
            None => {},
        }
        i = i + 1;
    }
    proof {
        assert(text::views(lines@).take(i as int) =~= text::views(lines@));
    }
    found
}

// ---------------------------------------------------------------------------------
// Process metadata.
// ---------------------------------------------------------------------------------

/// Seconds in so many days, hours, minutes and seconds.
pub open spec fn seconds_of(days: nat, hours: nat, minutes: nat, seconds: nat) -> nat {
    ((days * 24 + hours) * 60 + minutes) * 60 + seconds
}

/// The days that may stand before the first dash of a running time, and the rest.
pub open spec fn etime_days(raw: Seq<char>) -> (Option<nat>, Seq<char>) {
    match text::split_at_first(raw, text::is_char('-')) {
        Some((d, rest)) => (numeral::parsed(d, u64::MAX as nat), rest),
        None => (Some(0nat), raw),
    }
}

/// The seconds that a running time of the form `mm:ss`, `hh:mm:ss` or `dd-hh:mm:ss`
/// stands for. Any other text, and a time of more than `u64::MAX` seconds, has none.
pub open spec fn etime_seconds(raw: Seq<char>) -> Option<nat> {
    let (days, rest) = etime_days(raw);
    let f = text::split_on(rest, ':');
    let hours = if f.len() == 3 {
        numeral::parsed(f[0], u64::MAX as nat)
    } else {
        Some(0nat)
    };
    if f.len() != 2 && f.len() != 3 {
        None
    } else {
        match (
            days,
            hours,
            numeral::parsed(f[f.len() - 2], u64::MAX as nat),
            numeral::parsed(f[f.len() - 1], u64::MAX as nat),
        ) {
            (Some(d), Some(h), Some(m), Some(s)) => if seconds_of(d, h, m, s) <= u64::MAX {
                Some(seconds_of(d, h, m, s))
            } else {
                None
            },
            _ => None,
        }
    }
}

/// Parse the running time that `ps` prints, in seconds.
pub fn parse_etime(raw: &str) -> (r: Option<u64>)
    ensures
        match r {
            Some(n) => etime_seconds(raw@) == Some(n as nat),
            None => etime_seconds(raw@) is None,
        },
{
    let (days, rest) = match text::split_once_char(raw, '-') {
        Some((d, rest)) => (numeral::parse_u64(d.as_str()), rest),
        None => (Some(0u64), raw.to_owned()),
    };
    let fields = text::split_char(rest.as_str(), ':');
    let n: usize = fields.len();
    let ghost f = text::views(fields@);
    proof {
        assert(f.len() == n);
    }
    if n != 2 && n != 3 {
        return None;
    }
    proof {
        assert(f[0] == fields@[0]@);
        assert(f[n - 2] == fields@[n - 2]@);
        assert(f[n - 1] == fields@[n - 1]@);
    }
    let hours = if n == 3 {
        numeral::parse_u64(fields[0].as_str())
    } else {
        Some(0u64)
    };
    let minutes = numeral::parse_u64(fields[n - 2].as_str());
    let seconds = numeral::parse_u64(fields[n - 1].as_str());
    match (days, hours, minutes, seconds) {
        (Some(d), Some(h), Some(m), Some(s)) => {
            let total: u128 = (((d as u128) * 24 + (h as u128)) * 60 + (m as u128)) * 60 + (
            s as u128);
            if total <= u64::MAX as u128 {
                Some(total as u64)
            } else {
                None
            }
        },
        _ => None,
    }
}

/// What `ps` tells of one process.
#[derive(Debug)]
pub struct ProcessMeta {
    pub ppid: u32,
    pub user: String,
    pub start_time: Timestamp,
    pub comm: String,
}

/// What a [`ProcessMeta`] holds.
#[verifier::ext_equal]
pub struct MetaView {
    pub ppid: u32,
    pub user: Seq<char>,
    pub start_time: Timestamp,
    pub comm: Seq<char>,
}

impl View for ProcessMeta {
    type V = MetaView;

    open spec fn view(&self) -> MetaView {
        MetaView {
            ppid: self.ppid,
            user: self.user@,
            start_time: self.start_time,
            comm: self.comm@,
        }
    }
}

/// What each entry of a map of metadata holds.
pub open spec fn metas(m: Map<u32, ProcessMeta>) -> Map<u32, MetaView> {
    m.map_values(|p: ProcessMeta| p@)
}

/// When a process that has run for `elapsed` seconds at `now` was started. A time too
/// far back to tell counts as the start of 1970.
pub open spec fn started(now: Timestamp, elapsed: nat) -> Timestamp {
    if now.secs - elapsed < i64::MIN {
        Timestamp { secs: 0, nanos: 0 }
    } else {
        Timestamp { secs: (now.secs - elapsed) as i64, nanos: now.nanos }
    }
}

/// The next column of a row, and what follows it without the spaces between.
pub open spec fn column(s: Seq<char>) -> Option<(Seq<char>, Seq<char>)> {
    match text::split_at_first(s, text::is_space_fn()) {
        Some((head, tail)) => Some((head, text::trim_start_of(tail))),
        None => None,
    }
}

/// What one row of `ps -o pid=,ppid=,user=,etime=,comm=` output tells, read at `now`.
///
/// Four columns stand apart by white space. What remains, which may hold spaces, is the
/// executable; a row without one tells nothing.
pub open spec fn ps_row(row: Seq<char>, now: Timestamp) -> Option<(u32, MetaView)> {
    match column(row) {
        Some((pid, rest)) => match column(rest) {
            Some((ppid, rest)) => match column(rest) {
                Some((user, rest)) => match column(rest) {
                    Some((etime, comm)) => match (pid_of(pid), pid_of(ppid), etime_seconds(etime)) {
                        (Some(pid), Some(ppid), Some(elapsed)) => if comm.len() > 0 {
                            Some(
                                (
                                    pid,
                                    MetaView {
                                        ppid,
                                        user,
                                        start_time: started(now, elapsed),
                                        comm,
                                    },
                                ),
                            )
                        } else {
                            None
                        },
                        _ => None,
                    },
                    None => None,
                },
                None => None,
            },
            None => None,
        },
        None => None,
    }
}

/// The next column of a row, and what follows it.
fn next_column(s: &str) -> (r: Option<(String, String)>)
    ensures
        text::pair_view(r) == column(s@),
{
    match text::split_once_space(s) {
        Some((head, tail)) => Some((head, text::trim_start(tail.as_str()))),
        None => None,
    }
}

/// When a process that has run for `elapsed` seconds at `now` was started.
fn start_before(now: Timestamp, elapsed: u64) -> (r: Timestamp)
    ensures
        r == started(now, elapsed as nat),
{
    match now.checked_sub_seconds(elapsed) {
        Some(t) => t,
        None => Timestamp::unix_epoch(),
    }
}

/// Parse one row of `ps` output.
pub fn parse_ps_line(trimmed: &str, now: Timestamp) -> (r: Option<(u32, ProcessMeta)>)
    ensures
        match r {
            Some((pid, meta)) => ps_row(trimmed@, now) == Some((pid, meta@)),
            None => ps_row(trimmed@, now) is None,
        },
{
    let (pid_text, rest) = match next_column(trimmed) {
        Some(x) => x,
        None => return None,
    };
    let (ppid_text, rest) = match next_column(rest.as_str()) {
        Some(x) => x,
        None => return None,
    };
    let (user, rest) = match next_column(rest.as_str()) {
        Some(x) => x,
        None => return None,
    };
    let (etime_text, comm) = match next_column(rest.as_str()) {
        Some(x) => x,
        None => return None,
    };
    match (
        numeral::parse_u32(pid_text.as_str()),
        numeral::parse_u32(ppid_text.as_str()),
        parse_etime(etime_text.as_str()),
    ) {
        (Some(pid), Some(ppid), Some(elapsed)) => {
            if text::to_chars(comm.as_str()).len() == 0 {
                return None;
            }
            let start_time = start_before(now, elapsed);
            Some((pid, ProcessMeta { ppid, user, start_time, comm }))
        },
        _ => None,
    }
}

/// What a line of `ps` output tells: nothing where it is blank or starts with `#`.
pub open spec fn ps_line(line: Seq<char>, now: Timestamp) -> Option<(u32, MetaView)> {
    let row = text::trim_of(line);
    if row.len() == 0 || row[0] == '#' {
        None
    } else {
        ps_row(row, now)
    }
}

/// What `lines` of `ps` output tell, by process. A later line for a process replaces
/// an earlier one.
pub open spec fn ps_after(lines: Seq<Seq<char>>, now: Timestamp) -> Map<u32, MetaView>
    decreases lines.len(),
{
    if lines.len() == 0 {
        Map::empty()
    } else {
        let before = ps_after(lines.drop_last(), now);
        match ps_line(lines.last(), now) {
            Some((pid, meta)) => before.insert(pid, meta),
            None => before,
        }
    }
}

/// What `ps` output read at `now` tells, by process.
pub open spec fn ps_map(raw: Seq<char>, now: Timestamp) -> Map<u32, MetaView> {
    ps_after(text::lines_of(raw), now)
}

/// Parse the output of `ps -o pid=,ppid=,user=,etime=,comm=`, read at `now`.
pub fn parse_ps_output(raw: &str, now: Timestamp) -> (r: HashMap<u32, ProcessMeta>)
    ensures
        metas(r@) == ps_map(raw@, now),
{
    let lines = text::lines(raw);
    let mut found: HashMap<u32, ProcessMeta> = HashMap::new();
    let mut i: usize = 0;
    proof {
        assert(metas(found@) =~= Map::<u32, MetaView>::empty());
        assert(text::views(lines@).take(0) =~= Seq::<Seq<char>>::empty());
    }
    while i < lines.len()
        invariant
            0 <= i <= lines@.len(),
            text::views(lines@) == text::lines_of(raw@),
            ps_after(text::views(lines@).take(i as int), now) == metas(found@),
        decreases lines@.len() - i,
    {
        let ghost read = text::views(lines@).take(i + 1);
        proof {
            assert(read.drop_last() =~= text::views(lines@).take(i as int));
            assert(read.last() == lines@[i as int]@);
        }
        let row = text::trim(lines[i].as_str());
        let v = text::to_chars(row.as_str());
        if v.len() > 0 && v[0] != '#' {
            match parse_ps_line(row.as_str(), now) {
                Some((pid, meta)) => {
                    let ghost old_found = found@;
                    let ghost m = meta@;
                    found.insert(pid, meta);
                    proof {
                        assert(metas(found@) =~= metas(old_found).insert(pid, m));
                    }
                },
                None => {},
            }
        }
        i = i + 1;
    }
    proof {
        assert(text::views(lines@).take(i as int) =~= text::views(lines@));
    }
    found
}

// ---------------------------------------------------------------------------------
// Putting a listener together.
// ---------------------------------------------------------------------------------

/// The listener that one process's sockets, metadata and working directory make.
pub open spec fn listener_of(s: SocketsView, m: MetaView, cwd: Option<Seq<char>>) -> RawListenerView {
    RawListenerView {
        pid: s.pid,
        ppid: m.ppid,
        command: s.command,
        exe_path: m.comm,
        cwd,
        ports: s.ports,
        start_time: m.start_time,
        user: m.user,
        usage: ResourceSample { cpu_tenths_percent: None, memory_bytes: None },
    }
}

/// The listeners that sockets make with what is known of their processes. A process
/// without metadata was gone by the time it was asked about, and is left out.
pub open spec fn joined_listeners(
    sockets: Seq<SocketsView>,
    ps: Map<u32, MetaView>,
    cwds: Map<u32, Seq<char>>,
) -> Seq<RawListenerView>
    decreases sockets.len(),
{
    if sockets.len() == 0 {
        Seq::empty()
    } else {
        let before = joined_listeners(sockets.drop_last(), ps, cwds);
        let s = sockets.last();
        if ps.contains_key(s.pid) {
            let cwd = if cwds.contains_key(s.pid) {
                Some(cwds[s.pid])
            } else {
                None
            };
            before.push(listener_of(s, ps[s.pid], cwd))
        } else {
            before
        }
    }
}

/// Join sockets with the metadata and working directories of their processes.
pub fn join_listeners(
    sockets: &Vec<RawSockets>,
    ps_by_pid: &HashMap<u32, ProcessMeta>,
    cwd_by_pid: &HashMap<u32, String>,
) -> (r: Vec<RawListener>)
    ensures
        super::listener_views(r@) == joined_listeners(
            sockets_views(sockets@),
            metas(ps_by_pid@),
            texts(cwd_by_pid@),
        ),
{
    let mut r: Vec<RawListener> = Vec::new();
    let mut i: usize = 0;
    let ghost all = sockets_views(sockets@);
    let ghost ps = metas(ps_by_pid@);
    let ghost cwds = texts(cwd_by_pid@);
    proof {
        assert(super::listener_views(r@) =~= Seq::<RawListenerView>::empty());
        assert(all.take(0) =~= Seq::<SocketsView>::empty());
    }
    while i < sockets.len()
        invariant
            0 <= i <= sockets@.len(),
            all == sockets_views(sockets@),
            ps == metas(ps_by_pid@),
            cwds == texts(cwd_by_pid@),
            super::listener_views(r@) == joined_listeners(all.take(i as int), ps, cwds),
        decreases sockets@.len() - i,
    {
        let socket = &sockets[i];
        proof {
            assert(all.take(i + 1).drop_last() =~= all.take(i as int));
            assert(all.take(i + 1).last() == socket@);
        }
        match ps_by_pid.get(&socket.pid) {
            Some(meta) => {
                let cwd: Option<String> = match cwd_by_pid.get(&socket.pid) {
                    Some(c) => Some(c.clone()),
                    None => None,
                };
                let ghost before = super::listener_views(r@);
                let listener = RawListener {
                    pid: socket.pid,
                    ppid: meta.ppid,
                    command: socket.command.clone(),
                    exe_path: meta.comm.clone(),
                    cwd,
                    ports: super::copy_ports(&socket.ports),
                    start_time: meta.start_time,
                    user: meta.user.clone(),
                    usage: ResourceSample::default(),
                };
                let ghost lv = listener@;
                r.push(listener);
                proof {
                    assert(super::listener_views(r@) =~= before.push(lv));
                    assert(ps[socket.pid] == meta@);
                }
            },
            None => {},
        }
        i = i + 1;
    }
    proof {
        assert(all.take(i as int) =~= all);
    }
    r
}

/// Every listener comes from the sockets of its own process, and where those all have
/// a port so has it.
pub proof fn lemma_joined_listeners(
    sockets: Seq<SocketsView>,
    ps: Map<u32, MetaView>,
    cwds: Map<u32, Seq<char>>,
)
    ensures
        joined_listeners(sockets, ps, cwds).len() <= sockets.len(),
        forall|i: int|
            0 <= i < joined_listeners(sockets, ps, cwds).len() ==> exists|k: int|
                0 <= k < sockets.len() && (#[trigger] sockets[k]).pid == (
                #[trigger] joined_listeners(sockets, ps, cwds)[i]).pid && sockets[k].ports
                    == joined_listeners(sockets, ps, cwds)[i].ports,
    decreases sockets.len(),
{
    if sockets.len() > 0 {
        let front = sockets.drop_last();
        lemma_joined_listeners(front, ps, cwds);
        let before = joined_listeners(front, ps, cwds);
        let all = joined_listeners(sockets, ps, cwds);
        assert forall|i: int| 0 <= i < all.len() implies exists|k: int|
            0 <= k < sockets.len() && (#[trigger] sockets[k]).pid == (#[trigger] all[i]).pid
                && sockets[k].ports == all[i].ports by {
            if i < before.len() {
                assert(all[i] == before[i]);
                let k = choose|k: int|
                    0 <= k < front.len() && (#[trigger] front[k]).pid == before[i].pid
                        && front[k].ports == before[i].ports;
                assert(sockets[k] == front[k]);
            } else {
                assert(sockets[sockets.len() - 1].pid == all[i].pid);
            }
        }
    }
}

// ---------------------------------------------------------------------------------
// Application bundles.
// ---------------------------------------------------------------------------------

/// The name of the first of the components that is an application bundle, without the
/// ending that makes it one.
pub open spec fn first_bundle(components: Seq<Seq<char>>) -> Option<Seq<char>>
    decreases components.len(),
{
    if components.len() == 0 {
        None
    } else if text::has_suffix(components[0], ".app"@) {
        Some(components[0].take(components[0].len() - ".app"@.len()))
    } else {
        first_bundle(components.skip(1))
    }
}

/// The name of the outermost application bundle that the executable `exe` lives in. A
/// helper may live in a bundle of its own inside another; the user knows the outer one.
pub open spec fn outermost_app(exe: Seq<char>) -> Option<Seq<char>> {
    first_bundle(path::components(exe))
}

/// The macOS rules of a process source. Where they need the system, the call comes in as
/// an argument.
pub struct MacosProcessSource;

impl MacosProcessSource {
    /// The name of the outermost application bundle that `exe` lives in.
    pub fn owning_app(&self, exe: &str) -> (r: Option<String>)
        ensures
            r.deep_view() == outermost_app(exe@),
    {
        let c = path::split_components(exe);
        let ghost all = path::components(exe@);
        let mut i: usize = 0;
        proof {
            assert(all.skip(0) =~= all);
            assert(c@.len() == all.len());
        }
        while i < c.len()
            invariant
                0 <= i <= c@.len(),
                c@.len() == all.len(),
                all == path::components(exe@),
                text::views(c@) == all,
                outermost_app(exe@) == first_bundle(all.skip(i as int)),
            decreases c@.len() - i,
        {
            proof {
                assert(text::views(c@)[i as int] == c@[i as int]@);
                assert(all.skip(i as int).skip(1) =~= all.skip(i + 1));
            }
            match text::strip_suffix(c[i].as_str(), ".app") {
                Some(name) => {
                    return Some(name);
                },
                None => {},
            }
            i = i + 1;
        }
        None
    }
}

/// A bundle's name is found exactly where a component ends in `.app`, and no component
/// before that one does.
pub proof fn lemma_first_bundle(components: Seq<Seq<char>>)
    ensures
        match first_bundle(components) {
            Some(name) => exists|i: int|
                0 <= i < components.len() && text::has_suffix(#[trigger] components[i], ".app"@)
                    && name == components[i].take(components[i].len() - ".app"@.len()) && (
                forall|j: int|
                    0 <= j < i ==> !text::has_suffix(#[trigger] components[j], ".app"@)),
            None => forall|j: int|
                0 <= j < components.len() ==> !text::has_suffix(
                    #[trigger] components[j],
                    ".app"@,
                ),
        },
    decreases components.len(),
{
    if components.len() > 0 && !text::has_suffix(components[0], ".app"@) {
        let rest = components.skip(1);
        lemma_first_bundle(rest);
        match first_bundle(components) {
            Some(name) => {
                let i = choose|i: int|
                    0 <= i < rest.len() && text::has_suffix(#[trigger] rest[i], ".app"@) && name
                        == rest[i].take(rest[i].len() - ".app"@.len()) && (forall|j: int|
                        0 <= j < i ==> !text::has_suffix(#[trigger] rest[j], ".app"@));
                assert(components[i + 1] == rest[i]);
                assert forall|j: int| 0 <= j < i + 1 implies !text::has_suffix(
                    #[trigger] components[j],
                    ".app"@,
                ) by {
                    if j > 0 {
                        assert(components[j] == rest[j - 1]);
                    }
                }
            },
            None => {
                assert forall|j: int| 0 <= j < components.len() implies !text::has_suffix(
                    #[trigger] components[j],
                    ".app"@,
                ) by {
                    if j > 0 {
                        assert(components[j] == rest[j - 1]);
                    }
                }
            },
        }
    } else if components.len() > 0 {
        assert(text::has_suffix(components[0], ".app"@));
    }
}

// ---------------------------------------------------------------------------------
// Signals.
// ---------------------------------------------------------------------------------

/// What a signal is aimed at.
#[derive(Debug, Clone, Copy, PartialEq, Eq, Structural)]
pub enum SignalTarget {
    /// The whole process group. Only where the process leads it.
    Group(i32),
    /// This process alone.
    JustThisProcess(i32),
}

/// A process number as the system calls take it: in thirty-two signed bits.
pub open spec fn signed_pid(pid: u32) -> int {
    if pid <= i32::MAX {
        pid as int
    } else {
        pid - 0x1_0000_0000
    }
}

/// A process number as the system calls take it.
pub fn to_signed_pid(pid: u32) -> (r: i32)
    ensures
        r == signed_pid(pid),
{
    if pid <= i32::MAX as u32 {
        pid as i32
    } else {
        ((pid as i64) - 0x1_0000_0000) as i32
    }
}

/// What a stop request for `pid` may signal, given the process group that the system
/// reported for it: nothing where that is no group.
pub open spec fn target_of(pid: u32, pgid: i32) -> Option<SignalTarget> {
    if pgid <= 1 {
        None
    } else if pgid == signed_pid(pid) {
        Some(SignalTarget::Group(pgid))
    } else {
        Some(SignalTarget::JustThisProcess(signed_pid(pid) as i32))
    }
}

/// The number that the `kill` system call takes for a target, where a negative one
/// stands for a group.
pub open spec fn argument_of(target: SignalTarget) -> int {
    match target {
        SignalTarget::Group(g) => -g,
        SignalTarget::JustThisProcess(p) => p as int,
    }
}

/// What is said where the system reported no group for `pid`.
pub open spec fn no_group(pid: u32, pgid: i32) -> Seq<char> {
    "refusing to signal pid "@ + numeral::signed_decimal(signed_pid(pid))
        + ": invalid process group "@ + numeral::signed_decimal(pgid as int)
}

/// What a stop request for `pid` may signal, given the process group that the system
/// reported for it.
///
/// The group is the right target only where the process leads it, for then the group
/// is the process and what it started. A process that is a mere member of a group is
/// signalled alone: the rest of the group is somebody else's. A group number of one or
/// less is no group at all, and nothing is signalled.
pub fn signal_target(pid: u32, pgid: i32) -> (r: Result<SignalTarget, String>)
    ensures
        match r {
            Ok(target) => target_of(pid, pgid) == Some(target),
            Err(e) => target_of(pid, pgid) is None && e@ == no_group(pid, pgid),
        },
{
    let pid: i32 = to_signed_pid(pid);
    if pgid <= 1 {
        let mut e = "refusing to signal pid ".to_owned();
        e.append(numeral::to_signed_decimal(pid).as_str());
        e.append(": invalid process group ");
        e.append(numeral::to_signed_decimal(pgid).as_str());
        return Err(e);
    }
    if pgid == pid {
        Ok(SignalTarget::Group(pgid))
    } else {
        Ok(SignalTarget::JustThisProcess(pid))
    }
}

/// The words that describe a target.
pub open spec fn described(target: SignalTarget) -> Seq<char> {
    match target {
        SignalTarget::Group(g) => "process group "@ + numeral::signed_decimal(g as int),
        SignalTarget::JustThisProcess(p) => "process "@ + numeral::signed_decimal(p as int)
            + " (not a group leader)"@,
    }
}

/// The number that the `kill` system call takes for a target, where a negative one
/// stands for a group, and the words that describe it.
fn signal_argument(target: SignalTarget) -> (r: (i32, String))
    requires
        target matches SignalTarget::Group(g) ==> g > i32::MIN,
    ensures
        r.0 == argument_of(target),
        r.1@ == described(target),
{
    match target {
        SignalTarget::Group(g) => {
            let mut d = "process group ".to_owned();
            d.append(numeral::to_signed_decimal(g).as_str());
            (-g, d)
        },
        SignalTarget::JustThisProcess(p) => {
            let mut d = "process ".to_owned();
            d.append(numeral::to_signed_decimal(p).as_str());
            d.append(" (not a group leader)");
            (p, d)
        },
    }
}

/// Whether a signal for `pid` went as it should: the group was looked up with
/// `group_of`, nothing was signalled where that is no group, and otherwise `kill` was
/// called on the target and its outcome handed on.
pub open spec fn signalled<G: Fn(i32) -> i32, K: Fn(i32, i32) -> Result<(), String>>(
    pid: u32,
    signal: i32,
    group_of: G,
    kill: K,
    pgid: i32,
    killed: Result<(), String>,
    r: Result<(), String>,
) -> bool {
    &&& call_ensures(group_of, (signed_pid(pid) as i32,), pgid)
    &&& match target_of(pid, pgid) {
        None => r matches Err(e) && e@ == no_group(pid, pgid),
        Some(target) => {
            &&& call_ensures(kill, (argument_of(target) as i32, signal), killed)
            &&& match killed {
                Ok(_) => r is Ok,
                Err(why) => r matches Err(e) && e@ == "failed to signal "@ + described(target)
                    + " for pid "@ + numeral::decimal(pid as nat) + ": "@ + why@,
            }
        },
    }
}

/// Send `signal` to a process, or to its group where it leads one. The group is looked up
/// with `group_of`, and `kill` makes the system call: it is asked for nothing but what
/// the process's group allows.
pub fn signal_process_group<G: Fn(i32) -> i32, K: Fn(i32, i32) -> Result<(), String>>(
    pid: u32,
    signal: i32,
    group_of: &G,
    kill: &K,
) -> (r: Result<(), String>)
    requires
        call_requires(*group_of, (signed_pid(pid) as i32,)),
        forall|pgid: i32| #[trigger]
            target_of(pid, pgid) matches Some(target) ==> call_requires(
                *kill,
                (argument_of(target) as i32, signal),
            ),
    ensures
        exists|pgid: i32, killed: Result<(), String>| #[trigger]
            signalled(pid, signal, *group_of, *kill, pgid, killed, r),
{
    let pgid: i32 = group_of(to_signed_pid(pid));
    let target = match signal_target(pid, pgid) {
        Ok(target) => target,
        Err(e) => {
            let r: Result<(), String> = Err(e);
            proof {
                assert(signalled(pid, signal, *group_of, *kill, pgid, Ok(()), r));
            }
            return r;
        },
    };
    let (argument, description) = signal_argument(target);
    let killed = kill(argument, signal);
    let ghost outcome = killed;
    let r: Result<(), String> = match killed {
        Ok(_) => Ok(()),
        Err(why) => {
            let mut e = "failed to signal ".to_owned();
            e.append(description.as_str());
            e.append(" for pid ");
            e.append(numeral::to_decimal(pid as u128).as_str());
            e.append(": ");
            e.append(why.as_str());
            Err(e)
        },
    };
    proof {
        assert(signalled(pid, signal, *group_of, *kill, pgid, outcome, r));
    }
    r
}

/// A signal reaches other processes only through a group that the process leads: for a
/// process number as the system gives them out, what `kill` is given is either the
/// process itself or the group that bears its own number, and never the caller's group
/// or every process there is.
pub proof fn lemma_signal_stays_with_the_server(pid: u32, pgid: i32)
    requires
        1 < pid <= i32::MAX,
    ensures
        match target_of(pid, pgid) {
            Some(t) => {
                &&& argument_of(t) == pid || (argument_of(t) == -pid && pgid == pid)
                &&& argument_of(t) != 0 && argument_of(t) != -1
            },
            None => pgid <= 1,
        },
{
}

} // verus!
