//! What the operating system's tools write, and what is read of it.
use super::words::{
    joined_by, lemma_cut_again, lemma_field, lemma_lines_written_and_read, lemma_number_written,
    lemma_trimmed, written,
};
use crate::numeral;
use crate::platform::gather;
use crate::platform::gather::{Tool, ToolRun};
use crate::platform::macos;
use crate::platform::macos::{CwdState, LsofState, MetaView, SocketsView};
use crate::platform::{AddressFamily, PortBinding, RawListenerView, Reachability, ResourceSample};
use crate::text;
use crate::time::Timestamp;
use vstd::prelude::*;

verus! {

// ---------------------------------------------------------------------------------
// Who listens.
// ---------------------------------------------------------------------------------

/// One address that a process listens on.
pub struct Address {
    pub family: AddressFamily,
    pub host: Seq<char>,
    pub port: u16,
}

/// One process that listens.
pub struct Process {
    pub pid: u32,
    pub command: Seq<char>,
    pub addresses: Seq<Address>,
}

/// The two lines that tell of an address.
pub open spec fn address_lines(a: Address) -> Seq<Seq<char>> {
    seq![
        seq!['t'] + match a.family {
            AddressFamily::V4 => "IPv4"@,
            AddressFamily::V6 => "IPv6"@,
        },
        seq!['n'] + (a.host.push(':') + numeral::decimal(a.port as nat)),
    ]
}

/// The lines that tell of addresses.
pub open spec fn addresses_lines(v: Seq<Address>) -> Seq<Seq<char>>
    decreases v.len(),
{
    if v.len() == 0 {
        Seq::empty()
    } else {
        addresses_lines(v.drop_last()) + address_lines(v.last())
    }
}

/// The lines that tell of a process.
pub open spec fn process_lines(p: Process) -> Seq<Seq<char>> {
    seq![seq!['p'] + numeral::decimal(p.pid as nat), seq!['c'] + p.command] + addresses_lines(
        p.addresses,
    )
}

/// The lines that tell of processes.
pub open spec fn processes_lines(v: Seq<Process>) -> Seq<Seq<char>>
    decreases v.len(),
{
    if v.len() == 0 {
        Seq::empty()
    } else {
        processes_lines(v.drop_last()) + process_lines(v.last())
    }
}

/// The binding that an address is: open to other machines unless its host is this one.
pub open spec fn binding(a: Address) -> PortBinding {
    PortBinding {
        port: a.port,
        family: a.family,
        reachability: if a.host == "127.0.0.1"@ || a.host == "[::1]"@ || a.host == "localhost"@ {
            Reachability::LocalhostOnly
        } else {
            Reachability::AllInterfaces
        },
    }
}

/// The bindings that addresses are.
pub open spec fn bindings(v: Seq<Address>) -> Seq<PortBinding> {
    v.map_values(|a: Address| binding(a))
}

/// Digits hold nothing but digits.
proof fn lemma_digits_only(n: nat, c: char)
    requires
        !('0' <= c <= '9'),
    ensures
        !numeral::decimal(n).contains(c),
        numeral::decimal(n).len() > 0,
        !numeral::is_digit(c),
{
    numeral::lemma_decimal(n);
    let d = numeral::decimal(n);
    if d.contains(c) {
        let i = choose|i: int| 0 <= i < d.len() && d[i] == c;
        assert(numeral::is_digit(d[i]));
    }
}

/// A host, a colon and a port are read as the binding of that host and port.
pub proof fn lemma_address_is_read(a: Address)
    ensures
        macos::binding_of(a.host.push(':') + numeral::decimal(a.port as nat), a.family) == Some(
            binding(a),
        ),
{
    lemma_digits_only(a.port as nat, ':');
    lemma_cut_again(a.host, ':', numeral::decimal(a.port as nat));
    lemma_number_written(a.port as nat, 0, u16::MAX as nat);
}

/// An address without a port that is a number of sixteen bits is not read.
pub proof fn lemma_no_port_no_binding(host: Seq<char>, port: Seq<char>, family: AddressFamily)
    requires
        !port.contains(':'),
        numeral::parsed(port, 65_535) is None,
    ensures
        macos::binding_of(host.push(':') + port, family) is None,
        !host.contains(':') ==> macos::binding_of(host, family) is None,
{
    lemma_cut_again(host, ':', port);
}

/// However many ports a process has already, two lines that tell of an address add that
/// address to them, and change nothing else.
pub proof fn lemma_address_adds_a_binding(s: LsofState, a: Address)
    ensures
        s.step(address_lines(a)[0]).step(address_lines(a)[1]) == (LsofState {
            ports: s.ports.push(binding(a)),
            family: None,
            ..s
        }),
{
    reveal_strlit("IPv4");
    reveal_strlit("IPv6");
    let value = match a.family {
        AddressFamily::V4 => "IPv4"@,
        AddressFamily::V6 => "IPv6"@,
    };
    lemma_field('t', value);
    lemma_field('n', a.host.push(':') + numeral::decimal(a.port as nat));
    lemma_address_is_read(a);
    assert("IPv4"@[3] != "IPv6"@[3]);
}

/// What each other line does: one with `p` ends a process and begins the next, one with
/// `c` names the command, and one that tells of an address no `t` line went before, or of
/// a family that is none of the two, adds nothing.
pub proof fn lemma_what_a_line_does(s: LsofState, tag: char, value: Seq<char>)
    requires
        (tag as u32) < 0x80,
    ensures
        tag == 'p' ==> s.step(seq![tag] + value) == (LsofState {
            done: s.flushed(),
            pid: match numeral::parsed(value, 0xffff_ffff) {
                Some(n) => Some(n as u32),
                None => None,
            },
            command: Seq::empty(),
            ports: Seq::empty(),
            family: None,
        }),
        tag == 'c' ==> s.step(seq![tag] + value) == (LsofState { command: value, ..s }),
        tag == 'n' && s.family is None ==> s.step(seq![tag] + value) == s,
        tag == 'n' ==> s.step(seq![tag] + value).ports == s.ports || s.step(
            seq![tag] + value,
        ).ports.drop_last() == s.ports,
        tag == 'n' ==> s.step(seq![tag] + value).family is None,
        tag == 't' && value != "IPv4"@ && value != "IPv6"@ ==> s.step(seq![tag] + value).family is None,
        tag == 't' ==> s.step(seq![tag] + value).ports == s.ports,
        tag != 'p' ==> s.step(seq![tag] + value).done == s.done && s.step(seq![tag] + value).pid
            == s.pid,
        tag != 'p' && tag != 'c' && tag != 't' && tag != 'n' ==> s.step(seq![tag] + value) == s,
{
    lemma_field(tag, value);
    let after = s.step(seq![tag] + value);
    if tag == 'n' && after.ports != s.ports {
        assert(after.ports.drop_last() =~= s.ports);
    }
}

/// What is known of a process so far is kept where it has a number and at least one port.
pub proof fn lemma_what_is_kept(s: LsofState)
    ensures
        s.pid is Some && s.ports.len() > 0 ==> s.flushed() == s.done.push(
            SocketsView { pid: s.pid->0, command: s.command, ports: s.ports },
        ),
        s.pid is None || s.ports.len() == 0 ==> s.flushed() == s.done,
{
}

/// Reading goes on where it stopped.
proof fn lemma_one_more_line(lines: Seq<Seq<char>>, line: Seq<char>)
    ensures
        macos::lsof_after(lines.push(line)) == macos::lsof_after(lines).step(line),
{
    assert(lines.push(line).drop_last() =~= lines);
}

/// The addresses of a process are all its ports, however many there are.
proof fn lemma_addresses_are_read(before: Seq<Seq<char>>, v: Seq<Address>)
    ensures
        macos::lsof_after(before + addresses_lines(v)).ports == macos::lsof_after(before).ports
            + bindings(v),
        v.len() > 0 ==> macos::lsof_after(before + addresses_lines(v)).family is None,
        v.len() == 0 ==> macos::lsof_after(before + addresses_lines(v)).family
            == macos::lsof_after(before).family,
        macos::lsof_after(before + addresses_lines(v)).done == macos::lsof_after(before).done,
        macos::lsof_after(before + addresses_lines(v)).pid == macos::lsof_after(before).pid,
        macos::lsof_after(before + addresses_lines(v)).command == macos::lsof_after(before).command,
    decreases v.len(),
{
    if v.len() == 0 {
        assert(before + addresses_lines(v) =~= before);
        assert(bindings(v) =~= Seq::empty());
    } else {
        let front = v.drop_last();
        let a = v.last();
        lemma_addresses_are_read(before, front);
        let x = before + addresses_lines(front);
        let two = address_lines(a);
        assert(before + addresses_lines(v) =~= x.push(two[0]).push(two[1]));
        lemma_one_more_line(x, two[0]);
        lemma_one_more_line(x.push(two[0]), two[1]);
        lemma_address_adds_a_binding(macos::lsof_after(x), a);
        assert(bindings(v) =~= bindings(front).push(binding(a)));
    }
}

/// What the output says of each process is what is read of it: one entry for each, in the
/// order in which they are told of, with its command and with every one of its addresses.
#[verifier::rlimit(60)]
pub proof fn lemma_processes_are_read(v: Seq<Process>)
    requires
        forall|i: int| 0 <= i < v.len() ==> (#[trigger] v[i]).addresses.len() > 0,
    ensures
        macos::lsof_after(processes_lines(v)).flushed() == v.map_values(
            |p: Process|
                SocketsView { pid: p.pid, command: p.command, ports: bindings(p.addresses) },
        ),
    decreases v.len(),
{
    let f = |p: Process|
        SocketsView { pid: p.pid, command: p.command, ports: bindings(p.addresses) };
    if v.len() == 0 {
        assert(v.map_values(f) =~= Seq::empty());
        assert(macos::lsof_after(processes_lines(v)) == LsofState::initial());
    } else {
        let front = v.drop_last();
        let p = v.last();
        assert forall|i: int| 0 <= i < front.len() implies (#[trigger] front[i]).addresses.len()
            > 0 by {
            assert(front[i] == v[i]);
        }
        lemma_processes_are_read(front);
        let x = processes_lines(front);
        let first = seq!['p'] + numeral::decimal(p.pid as nat);
        let second = seq!['c'] + p.command;
        let y = x.push(first).push(second);
        assert(processes_lines(v) =~= y + addresses_lines(p.addresses));
        lemma_one_more_line(x, first);
        lemma_one_more_line(x.push(first), second);
        lemma_what_a_line_does(macos::lsof_after(x), 'p', numeral::decimal(p.pid as nat));
        lemma_what_a_line_does(macos::lsof_after(x.push(first)), 'c', p.command);
        lemma_number_written(p.pid as nat, 0, u32::MAX as nat);
        lemma_addresses_are_read(y, p.addresses);
        assert(v[v.len() - 1].addresses.len() > 0);
        assert(Seq::<PortBinding>::empty() + bindings(p.addresses) =~= bindings(p.addresses));
        assert(v.map_values(f) =~= front.map_values(f).push(f(p)));
    }
}

/// A process has as many bindings as it has addresses, whatever their number.
pub proof fn lemma_every_address_counts(v: Seq<Process>, i: int)
    requires
        0 <= i < v.len(),
        forall|j: int| 0 <= j < v.len() ==> (#[trigger] v[j]).addresses.len() > 0,
    ensures
        macos::lsof_after(processes_lines(v)).flushed().len() == v.len(),
        macos::lsof_after(processes_lines(v)).flushed()[i].pid == v[i].pid,
        macos::lsof_after(processes_lines(v)).flushed()[i].ports.len() == v[i].addresses.len(),
{
    lemma_processes_are_read(v);
}

/// The same of the whole output: it is read line by line.
pub proof fn lemma_output_is_read(v: Seq<Process>)
    requires
        forall|i: int| 0 <= i < v.len() ==> (#[trigger] v[i]).addresses.len() > 0,
        forall|i: int|
            0 <= i < processes_lines(v).len() ==> !(#[trigger] processes_lines(v)[i]).contains('\n')
                && processes_lines(v)[i].last() != '\r',
    ensures
        macos::lsof_sockets(written(processes_lines(v))) == v.map_values(
            |p: Process|
                SocketsView { pid: p.pid, command: p.command, ports: bindings(p.addresses) },
        ),
{
    lemma_lines_written_and_read(processes_lines(v));
    lemma_processes_are_read(v);
}

// ---------------------------------------------------------------------------------
// Where each process works.
// ---------------------------------------------------------------------------------

/// A line with `p` tells of which process the next lines are; one with `n` its directory,
/// where there is a process and the directory is not empty; other lines say nothing.
pub proof fn lemma_what_a_directory_line_does(s: CwdState, tag: char, value: Seq<char>)
    requires
        (tag as u32) < 0x80,
    ensures
        tag == 'p' ==> s.step(seq![tag] + value) == (CwdState {
            pid: match numeral::parsed(value, 0xffff_ffff) {
                Some(n) => Some(n as u32),
                None => None,
            },
            found: s.found,
        }),
        tag == 'n' && s.pid is Some && value.len() > 0 ==> s.step(seq![tag] + value) == (CwdState {
            pid: s.pid,
            found: s.found.insert(s.pid->0, value),
        }),
        tag == 'n' && (s.pid is None || value.len() == 0) ==> s.step(seq![tag] + value) == s,
        tag != 'p' && tag != 'n' ==> s.step(seq![tag] + value) == s,
{
    lemma_field(tag, value);
}

/// The lines that tell of the directories of processes.
pub open spec fn directory_lines(v: Seq<(u32, Seq<char>)>) -> Seq<Seq<char>>
    decreases v.len(),
{
    if v.len() == 0 {
        Seq::empty()
    } else {
        directory_lines(v.drop_last()) + one_directory(v.last().0, v.last().1)
    }
}

/// The lines that tell of the directory of one process.
pub open spec fn one_directory(pid: u32, dir: Seq<char>) -> Seq<Seq<char>> {
    seq![seq!['p'] + numeral::decimal(pid as nat), "fcwd"@, seq!['n'] + dir]
}

/// Three lines give a process its directory.
proof fn lemma_one_directory(x: Seq<Seq<char>>, q: u32, dir: Seq<char>)
    requires
        dir.len() > 0,
    ensures
        macos::cwd_after(x + one_directory(q, dir)).found == macos::cwd_after(x).found.insert(q, dir),
{
    let first = seq!['p'] + numeral::decimal(q as nat);
    let third = seq!['n'] + dir;
    let a = x.push(first);
    let b = a.push("fcwd"@);
    let all = b.push(third);
    assert(x + one_directory(q, dir) =~= all);
    assert(all.drop_last() =~= b);
    assert(b.drop_last() =~= a);
    assert(a.drop_last() =~= x);
    reveal_strlit("fcwd");
    assert("fcwd"@ =~= seq!['f'] + seq!['c', 'w', 'd']);
    lemma_what_a_directory_line_does(macos::cwd_after(x), 'p', numeral::decimal(q as nat));
    lemma_what_a_directory_line_does(macos::cwd_after(a), 'f', seq!['c', 'w', 'd']);
    lemma_what_a_directory_line_does(macos::cwd_after(b), 'n', dir);
    lemma_number_written(q as nat, 0, u32::MAX as nat);
}

/// Each process has the directory that is told of it last, and no other process has one.
#[verifier::rlimit(60)]
pub proof fn lemma_directories_are_read(v: Seq<(u32, Seq<char>)>, pid: u32)
    requires
        forall|i: int| 0 <= i < v.len() ==> (#[trigger] v[i]).1.len() > 0,
    ensures
        macos::cwd_after(directory_lines(v)).found.contains_key(pid) <==> exists|i: int|
            0 <= i < v.len() && (#[trigger] v[i]).0 == pid,
        forall|i: int|
            0 <= i < v.len() && (#[trigger] v[i]).0 == pid && (forall|j: int|
                i < j < v.len() ==> (#[trigger] v[j]).0 != pid) ==> macos::cwd_after(
                directory_lines(v),
            ).found[pid] == v[i].1,
    decreases v.len(),
{
    if v.len() > 0 {
        let front = v.drop_last();
        let (q, dir) = v.last();
        assert(v[v.len() - 1].1.len() > 0);
        assert forall|i: int| 0 <= i < front.len() implies (#[trigger] front[i]).1.len() > 0 by {
            assert(front[i] == v[i]);
        }
        lemma_directories_are_read(front, pid);
        let x = directory_lines(front);
        lemma_one_directory(x, q, dir);
        assert(directory_lines(v) =~= x + one_directory(q, dir));
        let before = macos::cwd_after(x).found;
        let found = macos::cwd_after(directory_lines(v)).found;
        assert(found == before.insert(q, dir));
        if before.contains_key(pid) {
            let i = choose|i: int| 0 <= i < front.len() && (#[trigger] front[i]).0 == pid;
            assert(v[i].0 == pid);
        }
        if q == pid {
            assert(v[v.len() - 1].0 == pid);
        }
        if exists|i: int| 0 <= i < v.len() && (#[trigger] v[i]).0 == pid {
            let i = choose|i: int| 0 <= i < v.len() && (#[trigger] v[i]).0 == pid;
            if i < front.len() {
                assert(front[i].0 == pid);
            }
        }
        assert forall|i: int|
            0 <= i < v.len() && (#[trigger] v[i]).0 == pid && (forall|j: int|
                i < j < v.len() ==> (#[trigger] v[j]).0 != pid) implies found[pid] == v[i].1 by {
            if i < front.len() {
                assert(v[v.len() - 1].0 != pid);
                assert(front[i].0 == pid);
                assert forall|j: int| i < j < front.len() implies (#[trigger] front[j]).0 != pid by {
                    assert(v[j].0 != pid);
                }
                assert(before[pid] == front[i].1);
            }
        }
    }
}

// ---------------------------------------------------------------------------------
// What each process is.
// ---------------------------------------------------------------------------------

/// The time a process has run is read as minutes and seconds, with hours and then days in
/// front of them, and is their sum in seconds.
#[verifier::rlimit(60)]
pub proof fn lemma_running_time(
    days: Seq<char>,
    hours: Seq<char>,
    minutes: Seq<char>,
    seconds: Seq<char>,
    d: nat,
    h: nat,
    m: nat,
    s: nat,
)
    requires
        !days.contains('-'),
        !hours.contains('-') && !hours.contains(':'),
        !minutes.contains('-') && !minutes.contains(':'),
        !seconds.contains('-') && !seconds.contains(':'),
        numeral::parsed(days, u64::MAX as nat) == Some(d),
        numeral::parsed(hours, u64::MAX as nat) == Some(h),
        numeral::parsed(minutes, u64::MAX as nat) == Some(m),
        numeral::parsed(seconds, u64::MAX as nat) == Some(s),
        86_400 * d + 3_600 * h + 60 * m + s <= u64::MAX,
    ensures
        macos::etime_seconds(minutes.push(':') + seconds) == Some(60 * m + s),
        macos::etime_seconds(hours.push(':') + (minutes.push(':') + seconds)) == Some(
            3_600 * h + 60 * m + s,
        ),
        macos::etime_seconds(days.push('-') + (hours.push(':') + (minutes.push(':') + seconds)))
            == Some(86_400 * d + 3_600 * h + 60 * m + s),
{
    let short = minutes.push(':') + seconds;
    let long = hours.push(':') + short;
    lemma_fields_of_a_time(hours, minutes, seconds);
    lemma_no_dash(minutes, seconds);
    lemma_no_dash(hours, short);
    lemma_days_of_a_time(days, short);
    lemma_days_of_a_time(days, long);
    assert(macos::seconds_of(0, 0, m, s) == 60 * m + s);
    assert(macos::seconds_of(0, h, m, s) == 3_600 * h + 60 * m + s);
    assert(macos::seconds_of(d, h, m, s) == 86_400 * d + 3_600 * h + 60 * m + s);
}

/// The days of a time stand before a dash.
proof fn lemma_days_of_a_time(days: Seq<char>, rest: Seq<char>)
    requires
        !days.contains('-'),
        !rest.contains('-'),
    ensures
        macos::etime_days(rest) == (Some(0nat), rest),
        macos::etime_days(days.push('-') + rest) == (
            numeral::parsed(days, u64::MAX as nat),
            rest,
        ),
{
    lemma_cut_again(rest, '-', Seq::empty());
    lemma_cut_again(days, '-', rest);
}

/// The fields of a time stand between colons.
proof fn lemma_fields_of_a_time(hours: Seq<char>, minutes: Seq<char>, seconds: Seq<char>)
    requires
        !hours.contains(':'),
        !minutes.contains(':'),
        !seconds.contains(':'),
    ensures
        text::split_on(minutes.push(':') + seconds, ':') == seq![minutes, seconds],
        text::split_on(hours.push(':') + (minutes.push(':') + seconds), ':') == seq![
            hours,
            minutes,
            seconds,
        ],
{
    let short = minutes.push(':') + seconds;
    lemma_cut_again(seconds, ':', Seq::empty());
    lemma_cut_again(minutes, ':', seconds);
    lemma_cut_again(hours, ':', short);
    assert(text::split_on(short, ':') =~= seq![minutes, seconds]);
    assert(seq![hours] + text::split_on(short, ':') =~= seq![hours, minutes, seconds]);
}

/// Two texts without a dash and a colon between them hold no dash.
proof fn lemma_no_dash(a: Seq<char>, b: Seq<char>)
    requires
        !a.contains('-'),
        !b.contains('-'),
    ensures
        !(a.push(':') + b).contains('-'),
{
    let s = a.push(':') + b;
    if s.contains('-') {
        let i = choose|i: int| 0 <= i < s.len() && s[i] == '-';
        if i < a.len() {
            assert(a[i] == '-');
        } else if i > a.len() {
            assert(b[i - a.len() - 1] == '-');
        }
    }
}

/// A time without a colon, or with a part that is no number, is not read.
pub proof fn lemma_no_running_time(minutes: Seq<char>, seconds: Seq<char>)
    requires
        !minutes.contains('-') && !minutes.contains(':'),
        !seconds.contains('-') && !seconds.contains(':'),
    ensures
        macos::etime_seconds(minutes) is None,
        numeral::parsed(minutes, u64::MAX as nat) is None ==> macos::etime_seconds(
            minutes.push(':') + seconds,
        ) is None,
        numeral::parsed(seconds, u64::MAX as nat) is None ==> macos::etime_seconds(
            minutes.push(':') + seconds,
        ) is None,
{
    let short = minutes.push(':') + seconds;
    lemma_no_dash(minutes, seconds);
    lemma_cut_again(minutes, '-', Seq::empty());
    lemma_cut_again(short, '-', Seq::empty());
    lemma_cut_again(seconds, ':', Seq::empty());
    lemma_cut_again(minutes, ':', seconds);
    assert(text::split_on(short, ':') =~= seq![minutes, seconds]);
    assert(text::split_on(minutes, ':') =~= seq![minutes]);
}

/// A process began as long before now as it has run.
pub proof fn lemma_beginning(now: Timestamp, elapsed: nat)
    requires
        now.secs - elapsed >= i64::MIN,
    ensures
        now.ns() - macos::started(now, elapsed).ns() == elapsed * 1_000_000_000,
        macos::started(now, elapsed).nanos == now.nanos,
{
    assert((now.secs - elapsed) * 1_000_000_000 == now.secs * 1_000_000_000 - elapsed
        * 1_000_000_000) by (nonlinear_arith);
}

/// A column ends at the first white space, and all the white space behind it is skipped.
pub proof fn lemma_column(head: Seq<char>, gap: Seq<char>, rest: Seq<char>)
    requires
        gap.len() > 0,
        forall|i: int| 0 <= i < gap.len() ==> text::is_space(#[trigger] gap[i]),
        forall|i: int| 0 <= i < head.len() ==> !text::is_space(#[trigger] head[i]),
        rest.len() > 0 && !text::is_space(rest[0]),
    ensures
        macos::column(head + gap + rest) == Some((head, rest)),
{
    let s = head + gap + rest;
    let f = text::is_space_fn();
    let n = head.len() as int;
    assert forall|j: int| 0 <= j < n implies !f(#[trigger] s[j]) by {
        assert(s[j] == head[j]);
    }
    assert(s[n] == gap[0]);
    text::lemma_first_where_is(s, f, 0, n);
    assert(s.take(n) =~= head);
    let tail = s.skip(n + 1);
    let k = gap.len() - 1;
    assert forall|j: int| 0 <= j < k implies text::is_space(#[trigger] tail[j]) by {
        assert(tail[j] == gap[j + 1]);
    }
    assert(tail[k] == rest[0]);
    text::lemma_trim_start(tail, k);
    assert(tail.skip(k) =~= rest);
}

/// Whether a text is made of white space, and not empty.
pub open spec fn is_gap(s: Seq<char>) -> bool {
    s.len() > 0 && forall|i: int| 0 <= i < s.len() ==> text::is_space(#[trigger] s[i])
}

/// Whether a text has no white space in it, and is not empty.
pub open spec fn is_word(s: Seq<char>) -> bool {
    s.len() > 0 && forall|i: int| 0 <= i < s.len() ==> !text::is_space(#[trigger] s[i])
}

/// A row of five columns, the first four of them words, tells of a process: its number,
/// its parent's, its user, how long it has run, and its program, which may hold spaces.
#[verifier::rlimit(60)]
pub proof fn lemma_row_is_read(
    pid: u32,
    ppid: u32,
    user: Seq<char>,
    etime: Seq<char>,
    elapsed: nat,
    comm: Seq<char>,
    gaps: Seq<Seq<char>>,
    now: Timestamp,
)
    requires
        is_word(user),
        is_word(etime),
        macos::etime_seconds(etime) == Some(elapsed),
        comm.len() > 0 && !text::is_space(comm[0]),
        gaps.len() == 4,
        forall|i: int| 0 <= i < 4 ==> is_gap(#[trigger] gaps[i]),
    ensures
        macos::ps_row(
            numeral::decimal(pid as nat) + gaps[0] + (numeral::decimal(ppid as nat) + gaps[1] + (user
                + gaps[2] + (etime + gaps[3] + comm))),
            now,
        ) == Some(
            (pid, MetaView { ppid, user, start_time: macos::started(now, elapsed), comm }),
        ),
{
    let a = numeral::decimal(pid as nat);
    let b = numeral::decimal(ppid as nat);
    lemma_digits_are_a_word(pid as nat);
    lemma_digits_are_a_word(ppid as nat);
    let four = etime + gaps[3] + comm;
    let three = user + gaps[2] + four;
    let two = b + gaps[1] + three;
    assert(is_gap(gaps[0]) && is_gap(gaps[1]) && is_gap(gaps[2]) && is_gap(gaps[3]));
    assert(four[0] == etime[0]);
    assert(three[0] == user[0]);
    assert(two[0] == b[0]);
    lemma_column(etime, gaps[3], comm);
    lemma_column(user, gaps[2], four);
    lemma_column(b, gaps[1], three);
    lemma_column(a, gaps[0], two);
    lemma_number_written(pid as nat, 0, u32::MAX as nat);
    lemma_number_written(ppid as nat, 0, u32::MAX as nat);
}

/// Digits are a word.
proof fn lemma_digits_are_a_word(n: nat)
    ensures
        is_word(numeral::decimal(n)),
{
    numeral::lemma_decimal(n);
    let d = numeral::decimal(n);
    assert forall|i: int| 0 <= i < d.len() implies !text::is_space(#[trigger] d[i]) by {
        assert(numeral::is_digit(d[i]));
    }
    lemma_digits_only(n, ' ');
}

/// White space round a row does not matter, and an empty row or one that begins with `#`
/// tells of nothing.
pub proof fn lemma_row_in_a_line(before: Seq<char>, row: Seq<char>, after: Seq<char>, now: Timestamp)
    requires
        forall|i: int| 0 <= i < before.len() ==> text::is_space(#[trigger] before[i]),
        forall|i: int| 0 <= i < after.len() ==> text::is_space(#[trigger] after[i]),
        row.len() > 0 ==> !text::is_space(row[0]) && !text::is_space(row.last()),
    ensures
        row.len() > 0 && row[0] != '#' ==> macos::ps_line(before + row + after, now)
            == macos::ps_row(row, now),
        row.len() == 0 || row[0] == '#' ==> macos::ps_line(before + row + after, now) is None,
{
    lemma_trimmed(before, row, after);
}

/// A process is what the last row that tells of it says; rows that tell of nothing change
/// nothing.
pub proof fn lemma_rows_are_read(lines: Seq<Seq<char>>, line: Seq<char>, now: Timestamp)
    ensures
        macos::ps_after(Seq::empty(), now) == Map::<u32, MetaView>::empty(),
        macos::ps_line(line, now) is None ==> macos::ps_after(lines.push(line), now)
            == macos::ps_after(lines, now),
        macos::ps_line(line, now) matches Some((pid, meta)) ==> macos::ps_after(lines.push(line), now)
            == macos::ps_after(lines, now).insert(pid, meta),
{
    assert(lines.push(line).drop_last() =~= lines);
}

// ---------------------------------------------------------------------------------
// Putting it together.
// ---------------------------------------------------------------------------------

/// Every process that listens and is known to be running is listed, in order, with its own
/// ports and command, its parent, program, user and beginning, and its directory where it
/// has one; and nothing else is listed.
pub proof fn lemma_listing_joins_what_was_read(
    sockets: Seq<SocketsView>,
    ps: Map<u32, MetaView>,
    cwds: Map<u32, Seq<char>>,
)
    ensures
        macos::joined_listeners(sockets, ps, cwds) == sockets.filter(
            |s: SocketsView| ps.contains_key(s.pid),
        ).map_values(
            |s: SocketsView|
                RawListenerView {
                    pid: s.pid,
                    ppid: ps[s.pid].ppid,
                    command: s.command,
                    exe_path: ps[s.pid].comm,
                    cwd: if cwds.contains_key(s.pid) {
                        Some(cwds[s.pid])
                    } else {
                        None
                    },
                    ports: s.ports,
                    start_time: ps[s.pid].start_time,
                    user: ps[s.pid].user,
                    usage: ResourceSample { cpu_tenths_percent: None, memory_bytes: None },
                },
        ),
    decreases sockets.len(),
{
    reveal(Seq::filter);
    let f = |s: SocketsView| ps.contains_key(s.pid);
    let g = |s: SocketsView|
        RawListenerView {
            pid: s.pid,
            ppid: ps[s.pid].ppid,
            command: s.command,
            exe_path: ps[s.pid].comm,
            cwd: if cwds.contains_key(s.pid) {
                Some(cwds[s.pid])
            } else {
                None
            },
            ports: s.ports,
            start_time: ps[s.pid].start_time,
            user: ps[s.pid].user,
            usage: ResourceSample { cpu_tenths_percent: None, memory_bytes: None },
        };
    if sockets.len() == 0 {
        assert(sockets.filter(f).map_values(g) =~= Seq::empty());
    } else {
        let front = sockets.drop_last();
        lemma_listing_joins_what_was_read(front, ps, cwds);
        let s = sockets.last();
        if ps.contains_key(s.pid) {
            assert(sockets.filter(f) == front.filter(f).push(s));
            assert(front.filter(f).push(s).map_values(g) =~= front.filter(f).map_values(g).push(
                g(s),
            ));
        }
    }
}

/// A tool has failed where it could not be run, or where it ended badly and said why;
/// otherwise what it wrote is its answer.
pub proof fn lemma_answer_of_a_tool(tool: Tool, run: ToolRun, why: String)
    ensures
        run.success || run.stderr@.len() == 0 ==> gather::output_of(tool, Ok(run)) == Ok::<
            Seq<char>,
            Seq<char>,
        >(run.stdout@),
        !run.success && run.stderr@.len() > 0 ==> gather::output_of(tool, Ok(run)) == Err::<
            Seq<char>,
            Seq<char>,
        >(gather::label_of(tool) + " exited with "@ + run.status@ + ": "@ + run.stderr@),
        gather::output_of(tool, Err(why)) == Err::<Seq<char>, Seq<char>>(
            "failed to run "@ + gather::label_of(tool) + ": "@ + why@,
        ),
{
}

/// The tools, as they are run and as they are called where they fail.
pub proof fn lemma_tools(pids: Seq<char>)
    ensures
        gather::program_of(Tool::Listeners) == "lsof"@,
        gather::program_of(Tool::Metadata) == "ps"@,
        gather::program_of(Tool::Directories) == "lsof"@,
        gather::label_of(Tool::Listeners) == "lsof"@,
        gather::label_of(Tool::Metadata) == "ps"@,
        gather::label_of(Tool::Directories) == "lsof (cwd)"@,
        gather::args_of(Tool::Listeners, pids) == seq![
            "-nP"@,
            "-iTCP"@,
            "-sTCP:LISTEN"@,
            "-F"@,
            "pcnt"@,
        ],
        gather::args_of(Tool::Metadata, pids) == seq![
            "-o"@,
            "pid=,ppid=,user=,etime=,comm="@,
            "-p"@,
            pids,
        ],
        gather::args_of(Tool::Directories, pids) == seq![
            "-a"@,
            "-p"@,
            pids,
            "-d"@,
            "cwd"@,
            "-F"@,
            "pn"@,
        ],
{
}

/// A list of processes is written with commas between them.
pub proof fn lemma_list_of_processes(pids: Seq<u32>)
    ensures
        gather::comma_list(pids) == joined_by(
            pids.map_values(|p: u32| numeral::decimal(p as nat)),
            ',',
        ),
        pids.len() > 0 ==> text::split_on(gather::comma_list(pids), ',') == pids.map_values(
            |p: u32| numeral::decimal(p as nat),
        ),
    decreases pids.len(),
{
    let f = |p: u32| numeral::decimal(p as nat);
    let parts = pids.map_values(f);
    if pids.len() == 1 {
        lemma_digits_only(pids[0] as nat, ',');
        lemma_cut_again(numeral::decimal(pids[0] as nat), ',', Seq::empty());
        assert(parts =~= seq![numeral::decimal(pids[0] as nat)]);
    } else if pids.len() > 1 {
        lemma_list_of_processes(pids.drop_last());
        let front = pids.drop_last().map_values(f);
        assert(parts =~= front.push(numeral::decimal(pids.last() as nat)));
        assert forall|i: int| 0 <= i < front.len() implies !(#[trigger] front[i]).contains(',') by {
            lemma_digits_only(pids[i] as nat, ',');
        }
        lemma_digits_only(pids.last() as nat, ',');
        lemma_joined_at_the_end(front, numeral::decimal(pids.last() as nat), ',');
    }
}

/// One more text behind joined ones.
proof fn lemma_joined_at_the_end(parts: Seq<Seq<char>>, last: Seq<char>, c: char)
    requires
        parts.len() > 0,
        !last.contains(c),
        forall|i: int| 0 <= i < parts.len() ==> !(#[trigger] parts[i]).contains(c),
    ensures
        joined_by(parts.push(last), c) == joined_by(parts, c).push(c) + last,
        text::split_on(joined_by(parts.push(last), c), c) == parts.push(last),
    decreases parts.len(),
{
    let all = parts.push(last);
    assert(!parts[0].contains(c));
    if parts.len() == 1 {
        assert(all.skip(1) =~= seq![last]);
        assert(joined_by(all.skip(1), c) == last);
        lemma_cut_again(parts[0], c, last);
        lemma_cut_again(last, c, Seq::empty());
        assert(seq![parts[0]] + seq![last] =~= all);
    } else {
        let rest = parts.skip(1);
        assert forall|i: int| 0 <= i < rest.len() implies !(#[trigger] rest[i]).contains(c) by {
            assert(rest[i] == parts[i + 1]);
        }
        lemma_joined_at_the_end(rest, last, c);
        assert(all.skip(1) =~= rest.push(last));
        assert(all[0] == parts[0]);
        lemma_cut_again(parts[0], c, joined_by(rest.push(last), c));
        assert(parts[0].push(c) + (joined_by(rest, c).push(c) + last) =~= (parts[0].push(c)
            + joined_by(rest, c)).push(c) + last);
        assert(seq![parts[0]] + rest.push(last) =~= all);
    }
}

/// What is asked of the tools, in turn: the listeners; then, of all the processes that
/// listen, what they are and where they work. What is listed is what they answered, put
/// together.
#[verifier::rlimit(60)]
pub proof fn lemma_what_is_asked<
    R: Fn(Tool, &str) -> Result<ToolRun, String>,
    C: Fn() -> Timestamp,
>(
    run: R,
    clock: C,
    sockets: ToolRun,
    metadata: ToolRun,
    directories: ToolRun,
    now: Timestamp,
    result: Result<Seq<RawListenerView>, Seq<char>>,
)
    requires
        gather::gathered(run, clock, Ok(sockets), Ok(metadata), Ok(directories), now, result),
        sockets.success && metadata.success && directories.success,
        macos::lsof_sockets(sockets.stdout@).len() > 0,
    ensures
        ({
            let found = macos::lsof_sockets(sockets.stdout@);
            let pids = joined_by(
                found.map_values(|s: SocketsView| numeral::decimal(s.pid as nat)),
                ',',
            );
            &&& exists|p: &str| #[trigger]
                call_ensures(run, (Tool::Listeners, p), Ok(sockets)) && p@ == Seq::<char>::empty()
            &&& exists|p: &str| #[trigger]
                call_ensures(run, (Tool::Metadata, p), Ok(metadata)) && p@ == pids
            &&& exists|p: &str| #[trigger]
                call_ensures(run, (Tool::Directories, p), Ok(directories)) && p@ == pids
            &&& call_ensures(clock, (), now)
            &&& result == Ok::<Seq<RawListenerView>, Seq<char>>(
                macos::joined_listeners(
                    found,
                    macos::ps_map(metadata.stdout@, now),
                    macos::cwd_map(directories.stdout@),
                ),
            )
        }),
{
    let found = macos::lsof_sockets(sockets.stdout@);
    let pids = gather::pids_of(found);
    lemma_list_of_processes(pids);
    assert(pids.map_values(|p: u32| numeral::decimal(p as nat)) =~= found.map_values(
        |s: SocketsView| numeral::decimal(s.pid as nat),
    ));
    assert(gather::found_sockets(Ok(sockets)) == found);
    assert(gather::ran(run, Tool::Metadata, gather::comma_list(pids), Ok(metadata)));
    assert(gather::ran(run, Tool::Directories, gather::comma_list(pids), Ok(directories)));
    assert(gather::ran(run, Tool::Listeners, Seq::empty(), Ok(sockets)));
}

/// Where nothing listens, nothing more is needed and the listing is empty.
pub proof fn lemma_nothing_listens(
    sockets: ToolRun,
    metadata: Result<ToolRun, String>,
    directories: Result<ToolRun, String>,
    now: Timestamp,
)
    requires
        sockets.success || sockets.stderr@.len() == 0,
        macos::lsof_sockets(sockets.stdout@).len() == 0,
    ensures
        gather::listing(Ok(sockets), metadata, directories, now) == Ok::<
            Seq<RawListenerView>,
            Seq<char>,
        >(Seq::empty()),
{
}

} // verus!
