//! What changes from one scan to the next.
use super::scans::last_answer;
use crate::domain::model::{Health, Kind};
use crate::find;
use crate::platform::{PortBinding, RawListenerView, ResourceSample};
use crate::scanner::pipeline::{ClassifyDeps, Judged, ProbeDeps};
use crate::scanner::pressure;
use crate::scanner::pressure::{Metric, MetricPressure, Pressure, Reading, TrackedPressure};
use crate::scanner::refresh;
use crate::scanner::refresh::Refresh;
use crate::scanner::renew;
use crate::scanner::server;
use crate::scanner::server::{distinct_ids, ScannedView};
use crate::scanner::state;
use crate::scanner::state::{PanelState, ScanOutcome, Scanned};
use crate::scanner::stop;
use crate::scanner::titles;
use crate::scanner::titles::Titles;
use crate::scanner::turn;
use crate::scanner::usage;
use crate::time;
use crate::time::Timestamp;
use crate::scanner::snapshot;
use vstd::prelude::*;

verus! {

/// Whether two times are no more than two seconds apart.
pub open spec fn close(a: Timestamp, b: Timestamp) -> bool {
    -2_000_000_000 <= a.ns() - b.ns() <= 2_000_000_000
}

/// The reading of a process is its last in the listing.
pub open spec fn is_reading(listeners: Seq<RawListenerView>, pid: u32, k: int) -> bool {
    &&& 0 <= k < listeners.len()
    &&& listeners[k].pid == pid
    &&& forall|j: int| k < j < listeners.len() ==> (#[trigger] listeners[j]).pid != pid
}

/// Whether another process has taken over the number of the one that is known.
pub open spec fn is_another(s: ScannedView, listeners: Seq<RawListenerView>) -> bool {
    exists|k: int|
        #[trigger] is_reading(listeners, s.pid, k) && !close(s.start_time, listeners[k].start_time)
}

/// Where the last process with a number stands.
proof fn lemma_reading(listeners: Seq<RawListenerView>, pid: u32)
    ensures
        match refresh::reading_of(listeners, pid) {
            Some(l) => exists|k: int| #[trigger] is_reading(listeners, pid, k) && listeners[k] == l,
            None => forall|k: int|
                0 <= k < listeners.len() ==> (#[trigger] listeners[k]).pid != pid,
        },
        forall|k: int| #[trigger]
            is_reading(listeners, pid, k) ==> refresh::reading_of(listeners, pid) == Some(
                listeners[k],
            ),
    decreases listeners.len(),
{
    let f = stop::has_pid(pid);
    if listeners.len() > 0 {
        let front = listeners.drop_last();
        lemma_reading(front, pid);
        let n = listeners.len() - 1;
        if listeners.last().pid == pid {
            assert(is_reading(listeners, pid, n));
        } else {
            match refresh::reading_of(front, pid) {
                Some(l) => {
                    let k = choose|k: int| #[trigger] is_reading(front, pid, k) && front[k] == l;
                    assert forall|j: int| k < j < listeners.len() implies (
                    #[trigger] listeners[j]).pid != pid by {
                        if j < n {
                            assert(front[j].pid != pid);
                        }
                    }
                    assert(listeners[k] == front[k]);
                    assert(is_reading(listeners, pid, k));
                },
                None => {
                    assert forall|k: int| 0 <= k < listeners.len() implies (
                    #[trigger] listeners[k]).pid != pid by {
                        if k < n {
                            assert(front[k].pid != pid);
                        }
                    }
                },
            }
        }
    }
    assert forall|k: int| #[trigger] is_reading(listeners, pid, k) implies refresh::reading_of(
        listeners,
        pid,
    ) == Some(listeners[k]) by {
        find::lemma_last_such_is(listeners, f, k);
    }
}

/// Another process shows by the time it began.
proof fn lemma_another(s: ScannedView, listeners: Seq<RawListenerView>)
    ensures
        refresh::replaced(s, listeners) <==> is_another(s, listeners),
{
    lemma_reading(listeners, s.pid);
    if refresh::replaced(s, listeners) {
        let l = refresh::reading_of(listeners, s.pid)->0;
        let k = choose|k: int| #[trigger] is_reading(listeners, s.pid, k) && listeners[k] == l;
        assert(!close(s.start_time, listeners[k].start_time));
    }
}

/// A known Server takes over what was just measured of its process, and nothing else,
/// unless the process began at another time: then that time, and no title.
pub proof fn lemma_readings_are_taken_over(
    servers: Seq<ScannedView>,
    listeners: Seq<RawListenerView>,
    i: int,
    k: int,
)
    requires
        0 <= i < servers.len(),
    ensures
        refresh::reread_all(servers, listeners).len() == servers.len(),
        is_reading(listeners, servers[i].pid, k) && close(
            servers[i].start_time,
            listeners[k].start_time,
        ) ==> refresh::reread_all(servers, listeners)[i] == (ScannedView {
            usage: listeners[k].usage,
            ..servers[i]
        }),
        is_reading(listeners, servers[i].pid, k) && !close(
            servers[i].start_time,
            listeners[k].start_time,
        ) ==> refresh::reread_all(servers, listeners)[i] == (ScannedView {
            usage: listeners[k].usage,
            start_time: listeners[k].start_time,
            title: None,
            ..servers[i]
        }),
        (forall|j: int| 0 <= j < listeners.len() ==> (#[trigger] listeners[j]).pid != servers[i].pid)
            ==> refresh::reread_all(servers, listeners)[i] == servers[i],
{
    lemma_reading(listeners, servers[i].pid);
    if forall|j: int| 0 <= j < listeners.len() ==> (#[trigger] listeners[j]).pid != servers[i].pid {
        find::lemma_last_such_is(listeners, stop::has_pid(servers[i].pid), -1);
    }
}

/// What is remembered of titles is forgotten of the Servers whose process is another now,
/// and of no others.
#[verifier::rlimit(60)]
pub proof fn lemma_titles_that_are_forgotten(
    servers: Seq<ScannedView>,
    listeners: Seq<RawListenerView>,
    cache: Titles,
    place: (u32, u16),
)
    ensures
        ({
            let kept = refresh::titles_kept(servers, listeners, cache);
            &&& kept.contains_key(place) <==> cache.contains_key(place) && forall|i: int|
                0 <= i < servers.len() && (#[trigger] servers[i]).ports.len() > 0 && (
                servers[i].pid,
                servers[i].ports[0].port,
            ) == place ==> !is_another(servers[i], listeners)
            &&& kept.contains_key(place) ==> kept[place] == cache[place]
        }),
    decreases servers.len(),
{
    if servers.len() > 0 {
        let front = servers.drop_last();
        let s = servers.last();
        lemma_titles_that_are_forgotten(front, listeners, cache, place);
        lemma_another(s, listeners);
        let before = refresh::titles_kept(front, listeners, cache);
        let kept = refresh::titles_kept(servers, listeners, cache);
        if kept.contains_key(place) {
            assert forall|i: int|
                0 <= i < servers.len() && (#[trigger] servers[i]).ports.len() > 0 && (
                servers[i].pid,
                servers[i].ports[0].port,
            ) == place implies !is_another(servers[i], listeners) by {
                if i < front.len() {
                    assert(front[i] == servers[i]);
                }
            }
        } else if cache.contains_key(place) {
            if before.contains_key(place) {
                assert(servers[servers.len() - 1] == s);
            } else {
                let i = choose|i: int|
                    0 <= i < front.len() && (#[trigger] front[i]).ports.len() > 0 && (
                    front[i].pid,
                    front[i].ports[0].port,
                ) == place && is_another(front[i], listeners);
                assert(servers[i] == front[i]);
            }
        }
    }
}

/// One answer gives one Server its health, and touches no other Server; a development
/// server that answers has the title that is remembered of it or else the one that was
/// found, which is then remembered; one that does not has none, and is forgotten.
pub proof fn lemma_one_answer(r: Refresh, i: usize, live: bool, found: Option<Seq<char>>, j: int)
    requires
        0 <= j < r.servers.len(),
    ensures
        ({
            let after = refresh::refresh_step(r, (i, live), found);
            let s = r.servers[i as int];
            let t = after.servers[i as int];
            let place = (s.pid, s.ports[0].port);
            &&& after.servers.len() == r.servers.len()
            &&& i >= r.servers.len() ==> after == r
            &&& j != i ==> after.servers[j] == r.servers[j]
            &&& i < r.servers.len() ==> {
                &&& t == (ScannedView { health: t.health, title: t.title, ..s })
                &&& live ==> t.health == Health::Responding
                &&& !live ==> t.health == Health::NotResponding
                &&& s.kind != Kind::DevServer ==> t.title == s.title && after.titles == r.titles
                &&& s.kind == Kind::DevServer && s.ports.len() > 0 && live && r.titles.contains_key(
                    place,
                ) ==> t.title == r.titles[place] && after.titles == r.titles
                &&& s.kind == Kind::DevServer && s.ports.len() > 0 && live && !r.titles.contains_key(
                    place,
                ) ==> t.title == found && after.titles == r.titles.insert(place, found)
                &&& s.kind == Kind::DevServer && s.ports.len() > 0 && !live ==> t.title is None
                    && after.titles == r.titles.remove(place)
            }
        }),
{
}

/// A title is asked for of a development server that answers and of which none is
/// remembered, and of no other.
pub proof fn lemma_when_a_refresh_asks(r: Refresh, i: usize, live: bool)
    requires
        i < r.servers.len(),
        r.servers[i as int].ports.len() > 0,
    ensures
        refresh::asks(r, (i, live)) <==> live && r.servers[i as int].kind == Kind::DevServer
            && !r.titles.contains_key(
            (r.servers[i as int].pid, r.servers[i as int].ports[0].port),
        ),
{
}

/// After all answers each Server has the health that was answered last of it, and keeps
/// what it had where nothing was answered.
pub proof fn lemma_health_after_answers(
    r: Refresh,
    answers: Seq<(usize, bool)>,
    found: Seq<Option<Seq<char>>>,
    i: int,
)
    requires
        0 <= i < r.servers.len(),
    ensures
        refresh::refresh_all(r, answers, found).servers.len() == r.servers.len(),
        refresh::refresh_all(r, answers, found).servers[i].health == match last_answer(answers, i) {
            Some(true) => Health::Responding,
            Some(false) => Health::NotResponding,
            None => r.servers[i].health,
        },
    decreases answers.len(),
{
    if answers.len() > 0 {
        lemma_health_after_answers(r, answers.drop_last(), found.drop_last(), i);
    }
}

/// A fresh scan keeps the time at which a Server is known to have begun where the new
/// reading is no more than two seconds off, and takes the new one otherwise.
pub proof fn lemma_beginning_is_kept(
    before: Seq<ScannedView>,
    servers: Seq<ScannedView>,
    i: int,
    j: int,
)
    requires
        0 <= j < servers.len(),
        distinct_ids(before),
        0 <= i < before.len(),
    ensures
        before[i].id == servers[j].id && close(before[i].start_time, servers[j].start_time)
            ==> renew::anchored_all(before, servers)[j] == (ScannedView {
            start_time: before[i].start_time,
            ..servers[j]
        }),
        before[i].id == servers[j].id && !close(before[i].start_time, servers[j].start_time)
            ==> renew::anchored_all(before, servers)[j] == servers[j],
        (forall|k: int| 0 <= k < before.len() ==> (#[trigger] before[k]).id != servers[j].id)
            ==> renew::anchored_all(before, servers)[j] == servers[j],
{
    let f = server::has_id(servers[j].id);
    if before[i].id == servers[j].id {
        assert forall|k: int| i < k < before.len() implies !f(#[trigger] before[k]) by {
            assert(before[i].id != before[k].id);
        }
        find::lemma_last_such_is(before, f, i);
    }
    if forall|k: int| 0 <= k < before.len() ==> (#[trigger] before[k]).id != servers[j].id {
        find::lemma_last_such_is(before, f, -1);
    }
}

// ---------------------------------------------------------------------------------
// Pressure.
// ---------------------------------------------------------------------------------

/// Whether a reading is high: a share of the processor, in tenths of a percent, of at
/// least the threshold, or at least a gibibyte of memory.
pub open spec fn is_high(m: Metric, sample: ResourceSample, threshold: u32) -> bool {
    match m {
        Metric::Cpu => sample.cpu_tenths_percent is Some && sample.cpu_tenths_percent->0 >= threshold,
        Metric::Memory => sample.memory_bytes is Some && sample.memory_bytes->0 >= 1024 * 1024 * 1024,
    }
}

/// How long a reading has to be high before it is reported, in seconds.
pub open spec fn patience(m: Metric) -> int {
    match m {
        Metric::Cpu => 30,
        Metric::Memory => 10,
    }
}

/// The threshold is a hundred percent of one processor, and fifteen of each where that is
/// more.
pub proof fn lemma_processor_threshold(cpus: u32)
    ensures
        cpus <= 6 ==> pressure::cpu_threshold(cpus) == 1000,
        cpus > 6 && 150 * cpus <= u32::MAX ==> pressure::cpu_threshold(cpus) == 150 * cpus,
        150 * cpus > u32::MAX ==> pressure::cpu_threshold(cpus) == u32::MAX,
{
}

/// The start that is remembered of steady readings is the first one's, and a run begins
/// with the first high reading after a low one.
proof fn lemma_run_of_readings(m: Metric, readings: Seq<Reading>, threshold: u32, i: int)
    requires
        0 <= i < readings.len(),
        forall|j: int|
            0 <= j < readings.len() ==> close(
                readings[0].start_time,
                (#[trigger] readings[j]).start_time,
            ),
        forall|j: int|
            i <= j < readings.len() ==> is_high(m, (#[trigger] readings[j]).sample, threshold),
        i > 0 ==> !is_high(m, readings[i - 1].sample, threshold),
    ensures
        pressure::tracked_after(readings, threshold).start_time == readings[0].start_time,
        pressure::run_of(m, pressure::tracked_after(readings, threshold)).elevated_since == Some(
            readings[i].now,
        ),
    decreases readings.len(),
{
    let front = readings.drop_last();
    let n = readings.len() - 1;
    assert(close(readings[0].start_time, readings[n].start_time));
    assert(is_high(m, readings[n].sample, threshold));
    if n > 0 {
        assert forall|j: int| 0 <= j < front.len() implies close(
            front[0].start_time,
            (#[trigger] front[j]).start_time,
        ) by {
            assert(readings[j] == front[j]);
        }
        if i < n {
            assert forall|j: int| i <= j < front.len() implies is_high(
                m,
                (#[trigger] front[j]).sample,
                threshold,
            ) by {
                assert(readings[j] == front[j]);
            }
            lemma_run_of_readings(m, front, threshold, i);
        } else {
            assert(!is_high(m, front[n - 1].sample, threshold));
            lemma_low_reading_ends_a_run(m, front, threshold);
        }
    }
}

/// After a low reading there is no run.
proof fn lemma_low_reading_ends_a_run(m: Metric, readings: Seq<Reading>, threshold: u32)
    requires
        readings.len() > 0,
        !is_high(m, readings.last().sample, threshold),
        forall|j: int|
            0 <= j < readings.len() ==> close(
                readings[0].start_time,
                (#[trigger] readings[j]).start_time,
            ),
    ensures
        pressure::run_of(m, pressure::tracked_after(readings, threshold)).elevated_since is None,
        pressure::tracked_after(readings, threshold).start_time == readings[0].start_time,
    decreases readings.len(),
{
    let n = readings.len() - 1;
    assert(close(readings[0].start_time, readings[n].start_time));
    if n > 0 {
        lemma_start_of_readings(readings.drop_last(), threshold, readings[0].start_time);
    }
}

/// The start that is remembered is the first one's while the readings stay close to it.
proof fn lemma_start_of_readings(readings: Seq<Reading>, threshold: u32, first: Timestamp)
    requires
        readings.len() > 0,
        readings[0].start_time == first,
        forall|j: int|
            0 <= j < readings.len() ==> close(first, (#[trigger] readings[j]).start_time),
    ensures
        pressure::tracked_after(readings, threshold).start_time == first,
    decreases readings.len(),
{
    let n = readings.len() - 1;
    assert(close(first, readings[n].start_time));
    if n > 0 {
        let front = readings.drop_last();
        assert forall|j: int| 0 <= j < front.len() implies close(
            first,
            (#[trigger] front[j]).start_time,
        ) by {
            assert(readings[j] == front[j]);
        }
        lemma_start_of_readings(front, threshold, first);
    }
}

/// Pressure is reported of a process exactly where its readings have been high for long
/// enough without a break: for thirty seconds of the processor, and for ten of memory.
/// Here `i` is the first reading of the present run.
pub proof fn lemma_pressure_is_reported_in_time(
    m: Metric,
    readings: Seq<Reading>,
    threshold: u32,
    i: int,
)
    requires
        0 <= i < readings.len(),
        forall|j: int|
            0 <= j < readings.len() ==> close(
                readings[0].start_time,
                (#[trigger] readings[j]).start_time,
            ),
        forall|j: int|
            i <= j < readings.len() ==> is_high(m, (#[trigger] readings[j]).sample, threshold),
        i > 0 ==> !is_high(m, readings[i - 1].sample, threshold),
    ensures
        ({
            let p = pressure::tracked_after(readings, threshold).pressure(readings.last().now);
            let long = readings.last().now.ns() - readings[i].now.ns() >= patience(m)
                * 1_000_000_000;
            match m {
                Metric::Cpu => long <==> p == Pressure::Cpu || p == Pressure::Both,
                Metric::Memory => long <==> p == Pressure::Memory || p == Pressure::Both,
            }
        }),
{
    lemma_run_of_readings(m, readings, threshold, i);
}

/// A low reading ends the report at once.
pub proof fn lemma_pressure_ends_at_once(m: Metric, readings: Seq<Reading>, threshold: u32)
    requires
        readings.len() > 0,
        !is_high(m, readings.last().sample, threshold),
        forall|j: int|
            0 <= j < readings.len() ==> close(
                readings[0].start_time,
                (#[trigger] readings[j]).start_time,
            ),
    ensures
        ({
            let p = pressure::tracked_after(readings, threshold).pressure(readings.last().now);
            match m {
                Metric::Cpu => p == Pressure::Normal || p == Pressure::Memory,
                Metric::Memory => p == Pressure::Normal || p == Pressure::Cpu,
            }
        }),
{
    lemma_low_reading_ends_a_run(m, readings, threshold);
}

/// After a scan each Server's run is the one that was known of it, where it began at the
/// same time, and a new one otherwise, with the new reading added; its pressure is that
/// run's; nothing else of it changes; and only the Servers that there are have runs.
#[verifier::rlimit(60)]
pub proof fn lemma_each_run_goes_on(
    s: Scanned,
    servers: Seq<ScannedView>,
    kept: Titles,
    print: Option<u64>,
    threshold: u32,
    now: Timestamp,
    i: int,
    id: Seq<char>,
)
    requires
        distinct_ids(servers),
        0 <= i < servers.len(),
    ensures
        ({
            let after = state::with_usage(s, servers, kept, print, threshold, now);
            let v = servers[i];
            let nothing = MetricPressure { elevated_since: None };
            let run = if s.runs.contains_key(v.id) && close(
                s.runs[v.id].start_time,
                v.start_time,
            ) {
                s.runs[v.id]
            } else {
                TrackedPressure { start_time: v.start_time, cpu: nothing, memory: nothing }
            };
            let next = run.after(v.usage, threshold, now);
            &&& after.servers.len() == servers.len()
            &&& after.runs.contains_key(v.id) && after.runs[v.id] == next
            &&& after.servers[i] == (ScannedView { pressure: next.pressure(now), ..v })
            &&& after.titles == kept
            &&& after.fingerprint == print
            &&& after.runs.contains_key(id) <==> exists|j: int|
                0 <= j < servers.len() && (#[trigger] servers[j]).id == id
        }),
{
    let runs = usage::live_runs(s.runs, servers);
    usage::lemma_each_server_has_its_own_run(runs, servers, threshold, now);
    usage::lemma_pressed_keeps_the_rest(runs, servers, threshold, now);
    let v = servers[i];
    let all = usage::ids(servers);
    assert(all[i] == v.id);
    assert(all.contains(v.id));
    let after = usage::runs_after(runs, servers, threshold, now);
    if after.contains_key(id) && !all.contains(id) {
        assert(runs.contains_key(id));
    }
    if all.contains(id) {
        let j = choose|j: int| 0 <= j < all.len() && all[j] == id;
        assert(servers[j].id == id);
        assert(after.contains_key(servers[j].id));
    }
    if exists|j: int| 0 <= j < servers.len() && (#[trigger] servers[j]).id == id {
        let j = choose|j: int| 0 <= j < servers.len() && (#[trigger] servers[j]).id == id;
        assert(all[j] == id);
    }
}

/// A reading that is high keeps a run or begins it; one that is not ends it.
pub proof fn lemma_reading_and_run(run: TrackedPressure, sample: ResourceSample, threshold: u32, now: Timestamp)
    ensures
        run.after(sample, threshold, now).start_time == run.start_time,
        run.after(sample, threshold, now).cpu.elevated_since == (if is_high(
            Metric::Cpu,
            sample,
            threshold,
        ) {
            match run.cpu.elevated_since {
                Some(t) => Some(t),
                None => Some(now),
            }
        } else {
            None
        }),
        run.after(sample, threshold, now).memory.elevated_since == (if is_high(
            Metric::Memory,
            sample,
            threshold,
        ) {
            match run.memory.elevated_since {
                Some(t) => Some(t),
                None => Some(now),
            }
        } else {
            None
        }),
{
}

/// The pressure of a run: what has been high for long enough.
pub proof fn lemma_pressure_of_a_run(run: TrackedPressure, now: Timestamp)
    ensures
        ({
            let p = run.pressure(now);
            &&& p == Pressure::Cpu || p == Pressure::Both <==> (run.cpu.elevated_since matches Some(t)
                && now.ns() - t.ns() >= 30 * 1_000_000_000)
            &&& p == Pressure::Memory || p == Pressure::Both <==> (
            run.memory.elevated_since matches Some(t) && now.ns() - t.ns() >= 10 * 1_000_000_000)
        }),
{
}

// ---------------------------------------------------------------------------------
// What is told.
// ---------------------------------------------------------------------------------

/// After a short look something is told exactly where a process is another now, or the
/// health or the pressure of a Server has changed.
#[verifier::rlimit(60)]
pub proof fn lemma_short_look_tells_changes<
    L: Fn(&Vec<Vec<PortBinding>>) -> Vec<(usize, bool)>,
    B: Fn(&Vec<(usize, PortBinding)>) -> Vec<(usize, Option<String>)>,
    T: Fn(&PortBinding) -> Option<String>,
>(
    before: Scanned,
    listeners: Seq<RawListenerView>,
    probes: ProbeDeps<L, B, T>,
    threshold: u32,
    now: Timestamp,
    answers: Seq<(usize, bool)>,
    found: Seq<Option<Seq<char>>>,
    after: Scanned,
    outcome: ScanOutcome,
)
    requires
        state::refresh_scan_leads_to(
            before,
            listeners,
            probes,
            threshold,
            now,
            answers,
            found,
            after,
            outcome,
        ),
    ensures
        outcome.resources,
        after.servers.len() == before.servers.len(),
        after.fingerprint == before.fingerprint,
        outcome.structural <==> exists|i: int|
            0 <= i < before.servers.len() && (is_another(#[trigger] before.servers[i], listeners)
                || after.servers[i].health != before.servers[i].health || after.servers[i].pressure
                != before.servers[i].pressure),
        forall|i: int|
            0 <= i < before.servers.len() ==> {
                let s = before.servers[i];
                let t = #[trigger] after.servers[i];
                &&& t.id == s.id && t.pid == s.pid && t.command == s.command && t.ports == s.ports
                &&& t.unattended == s.unattended && t.kind == s.kind
                &&& t.attribution == s.attribution && t.belongs_to == s.belongs_to
                &&& t.health == match last_answer(answers, i) {
                    Some(true) => Health::Responding,
                    Some(false) => Health::NotResponding,
                    None => s.health,
                }
                &&& forall|k: int| #[trigger]
                    is_reading(listeners, s.pid, k) ==> t.usage == listeners[k].usage && (if close(
                        s.start_time,
                        listeners[k].start_time,
                    ) {
                        t.start_time == s.start_time
                    } else {
                        t.start_time == listeners[k].start_time
                    })
            },
{
    let start = state::refresh_start(before, listeners);
    let end = refresh::refresh_all(start, answers, found);
    refresh::lemma_refresh_keeps_identity(start, answers, found);
    let runs = usage::live_runs(before.runs, end.servers);
    usage::lemma_pressed_keeps_the_rest(runs, end.servers, threshold, now);
    assert forall|i: int| 0 <= i < before.servers.len() implies {
        let s = before.servers[i];
        let t = #[trigger] after.servers[i];
        &&& t.id == s.id && t.pid == s.pid && t.command == s.command && t.ports == s.ports
        &&& t.unattended == s.unattended && t.kind == s.kind
        &&& t.attribution == s.attribution && t.belongs_to == s.belongs_to
        &&& t.health == match last_answer(answers, i) {
            Some(true) => Health::Responding,
            Some(false) => Health::NotResponding,
            None => s.health,
        }
        &&& forall|k: int| #[trigger]
            is_reading(listeners, s.pid, k) ==> t.usage == listeners[k].usage && (if close(
                s.start_time,
                listeners[k].start_time,
            ) {
                t.start_time == s.start_time
            } else {
                t.start_time == listeners[k].start_time
            })
    } by {
        let t = after.servers[i];
        let e = end.servers[i];
        let b = start.servers[i];
        assert((ScannedView { pressure: e.pressure, ..t }) == e);
        assert((ScannedView { health: b.health, title: b.title, ..e }) == b);
        lemma_health_after_answers(start, answers, found, i);
        lemma_reading(listeners, before.servers[i].pid);
    }
    if outcome.structural {
        if refresh::any_replaced(before.servers, listeners) {
            let i = choose|i: int|
                0 <= i < before.servers.len() && refresh::replaced(
                    #[trigger] before.servers[i],
                    listeners,
                );
            lemma_another(before.servers[i], listeners);
        } else if refresh::health_differs(start.servers, end.servers) {
            let i = choose|i: int|
                0 <= i < start.servers.len() && (#[trigger] start.servers[i]).health
                    != end.servers[i].health;
            let t = after.servers[i];
            assert((ScannedView { pressure: end.servers[i].pressure, ..t }) == end.servers[i]);
            assert(start.servers[i].health == before.servers[i].health);
            assert(after.servers[i].health != before.servers[i].health);
        } else {
            let i = choose|i: int|
                0 <= i < end.servers.len() && (#[trigger] end.servers[i]).pressure
                    != after.servers[i].pressure;
            let b = start.servers[i];
            let e = end.servers[i];
            assert((ScannedView { health: b.health, title: b.title, ..e }) == b);
            assert(before.servers[i].pressure == e.pressure);
            assert(after.servers[i].pressure != before.servers[i].pressure);
        }
    }
    if exists|i: int|
        0 <= i < before.servers.len() && (is_another(#[trigger] before.servers[i], listeners)
            || after.servers[i].health != before.servers[i].health || after.servers[i].pressure
            != before.servers[i].pressure) {
        let i = choose|i: int|
            0 <= i < before.servers.len() && (is_another(#[trigger] before.servers[i], listeners)
                || after.servers[i].health != before.servers[i].health || after.servers[i].pressure
                != before.servers[i].pressure);
        lemma_another(before.servers[i], listeners);
        let b = start.servers[i];
        let e = end.servers[i];
        let t = after.servers[i];
        assert((ScannedView { pressure: e.pressure, ..t }) == e);
        assert((ScannedView { health: b.health, title: b.title, ..e }) == b);
        if is_another(before.servers[i], listeners) {
            assert(refresh::any_replaced(before.servers, listeners));
        } else if t.health != before.servers[i].health {
            assert(start.servers[i].health != end.servers[i].health);
            assert(refresh::health_differs(start.servers, end.servers));
        } else {
            assert(end.servers[i].pressure != after.servers[i].pressure);
            assert(usage::pressure_differs(end.servers, after.servers));
        }
    }
}

/// After a full look something is told where it was asked for, and otherwise exactly where
/// a Server has come or gone, or the health, the kind or the pressure of one has changed;
/// and a look that was asked for remembers no title from before.
pub proof fn lemma_full_look_tells_changes<
    O: Fn(&str) -> Option<String>,
    F: Fn(&str) -> bool,
    L: Fn(&Vec<Vec<PortBinding>>) -> Vec<(usize, bool)>,
    B: Fn(&Vec<(usize, PortBinding)>) -> Vec<(usize, Option<String>)>,
    T: Fn(&PortBinding) -> Option<String>,
>(
    before: Scanned,
    listeners: Seq<RawListenerView>,
    self_pids: crate::domain::model::SelfPids,
    deps: ClassifyDeps<O, F>,
    probes: ProbeDeps<L, B, T>,
    force_full: bool,
    threshold: u32,
    now: Timestamp,
    judged: Seq<Judged>,
    answers: Seq<(usize, bool)>,
    found: Seq<(usize, Option<Seq<char>>)>,
    servers: Seq<ScannedView>,
    after: Scanned,
    outcome: ScanOutcome,
)
    requires
        state::full_scan_leads_to(
            before,
            listeners,
            self_pids,
            deps,
            probes,
            force_full,
            threshold,
            now,
            judged,
            answers,
            found,
            servers,
            after,
            outcome,
        ),
        distinct_ids(before.servers),
        distinct_ids(after.servers),
    ensures
        outcome.resources,
        after.fingerprint == Some(state::fingerprint_of(listeners)),
        outcome.structural <==> force_full || refresh::shown_differently(
            before.servers,
            after.servers,
        ),
{
    refresh::lemma_difference_is_exact(before.servers, after.servers);
}

/// Whether two lists of Servers are shown differently: an id is in one alone, or a Server
/// of both has another health, kind or pressure.
pub proof fn lemma_what_is_shown_differently(a: Seq<ScannedView>, b: Seq<ScannedView>, i: int, j: int)
    requires
        0 <= i < a.len(),
        0 <= j < b.len(),
    ensures
        a[i].id == b[j].id && (a[i].health != b[j].health || a[i].kind != b[j].kind
            || a[i].pressure != b[j].pressure) ==> refresh::shown_differently(a, b),
        (forall|k: int| 0 <= k < b.len() ==> (#[trigger] b[k]).id != a[i].id)
            ==> refresh::shown_differently(a, b),
        (forall|k: int| 0 <= k < a.len() ==> (#[trigger] a[k]).id != b[j].id)
            ==> refresh::shown_differently(a, b),
{
    let x = usage::ids(a);
    let y = usage::ids(b);
    assert(x[i] == a[i].id && y[j] == b[j].id);
    assert(x.to_set().contains(a[i].id) && y.to_set().contains(b[j].id));
    if forall|k: int| 0 <= k < b.len() ==> (#[trigger] b[k]).id != a[i].id {
        if y.contains(a[i].id) {
            let k = choose|k: int| 0 <= k < y.len() && y[k] == a[i].id;
            assert(b[k].id == a[i].id);
        }
        assert(!y.to_set().contains(a[i].id));
    }
    if forall|k: int| 0 <= k < a.len() ==> (#[trigger] a[k]).id != b[j].id {
        if x.contains(b[j].id) {
            let k = choose|k: int| 0 <= k < x.len() && x[k] == b[j].id;
            assert(a[k].id == b[j].id);
        }
        assert(!x.to_set().contains(b[j].id));
    }
}

/// Lists with the same ids, and with the same health, kind and pressure for each, are not
/// shown differently.
pub proof fn lemma_what_is_shown_the_same(a: Seq<ScannedView>, b: Seq<ScannedView>)
    requires
        a.len() == b.len(),
        distinct_ids(a),
        forall|i: int|
            0 <= i < a.len() ==> (#[trigger] a[i]).id == b[i].id && a[i].health == b[i].health
                && a[i].kind == b[i].kind && a[i].pressure == b[i].pressure,
    ensures
        !refresh::shown_differently(a, b),
{
    assert(usage::ids(a) =~= usage::ids(b)) by {
        assert forall|i: int| 0 <= i < a.len() implies usage::ids(a)[i] == usage::ids(b)[i] by {
            assert(a[i].id == b[i].id);
        }
    }
    assert forall|i: int, j: int|
        0 <= i < a.len() && 0 <= j < b.len() && (#[trigger] a[i]).id == (#[trigger] b[j]).id implies a[i].health
        == b[j].health && a[i].kind == b[j].kind && a[i].pressure == b[j].pressure by {
        assert(a[j].id == b[j].id);
        if i < j {
            assert(a[i].id != a[j].id);
        } else if j < i {
            assert(a[j].id != a[i].id);
        }
    }
}

/// Scans follow each other every three seconds while the panel is open; every fifteen
/// while it is closed; and every sixty once it has been closed for five minutes.
pub proof fn lemma_how_often_scans_follow(closed_at: Timestamp, now: Timestamp, any: Option<Timestamp>)
    ensures
        state::cadence(PanelState::Open, any, now) == 3,
        state::cadence(PanelState::Closed, None, now) == 15,
        now.ns() - closed_at.ns() < 300_000_000_000 ==> state::cadence(
            PanelState::Closed,
            Some(closed_at),
            now,
        ) == 15,
        now.ns() - closed_at.ns() >= 300_000_000_000 ==> state::cadence(
            PanelState::Closed,
            Some(closed_at),
            now,
        ) == 60,
{
}

/// A scan that fails is told where the last did not, and a scan that does not fail is told
/// where the last did or where it found a change; figures are told of scans that do not
/// fail.
pub proof fn lemma_what_a_turn_tells(failed_before: bool, o: ScanOutcome, e: String)
    ensures
        turn::turn_outcome(failed_before, Ok(o)).structural <==> o.structural || failed_before,
        turn::turn_outcome(failed_before, Ok(o)).resources <==> o.resources,
        turn::turn_outcome(failed_before, Err(e)).structural <==> !failed_before,
        !turn::turn_outcome(failed_before, Err(e)).resources,
{
}

/// The title of a process is remembered by its number and its first port: known where it
/// is remembered, asked for where it is not and the process answers, and forgotten where
/// it does not answer.
pub proof fn lemma_looking_up_a_title(
    cache: Titles,
    pid: u32,
    ports: Seq<PortBinding>,
    found: Option<Seq<char>>,
    health: Health,
)
    requires
        ports.len() > 0,
    ensures
        ({
            let place = (pid, ports[0].port);
            let look = titles::lookup(cache, pid, ports, health);
            &&& health == Health::Responding && cache.contains_key(place) ==> look.title
                == cache[place] && !look.needs_fetch && look.titles == cache
            &&& health == Health::Responding && !cache.contains_key(place) ==> look.title is None
                && look.needs_fetch && look.titles == cache
            &&& health != Health::Responding ==> look.title is None && !look.needs_fetch
                && look.titles == cache.remove(place)
            &&& health == Health::Responding && !cache.contains_key(place) ==> titles::answered(
                cache,
                pid,
                ports,
                health,
                found,
            ) == (cache.insert(place, found), found)
            &&& titles::forgotten(cache, pid, ports) == cache.remove(place)
        }),
{
}

/// The time between two moments is counted in whole seconds, and is none where the second
/// comes first.
pub proof fn lemma_seconds_between(a: Timestamp, b: Timestamp, k: u64, rest: int)
    requires
        b.ns() - a.ns() == k * 1_000_000_000 + rest,
        0 <= rest < 1_000_000_000,
    ensures
        time::seconds_between(a, b) == k,
        k > 0 || rest > 0 ==> time::seconds_between(b, a) == 0,
        time::drift(a, b) == k * 1_000_000_000 + rest,
        time::drift(b, a) == k * 1_000_000_000 + rest,
{
}

/// A known Server is asked about with its own ports.
pub proof fn lemma_known_servers_are_asked(servers: Seq<ScannedView>, i: int)
    requires
        0 <= i < servers.len(),
    ensures
        refresh::server_ports(servers).len() == servers.len(),
        refresh::server_ports(servers)[i] == servers[i].ports,
{
}

/// The run of a Server goes on where one is known of it that began at the same time, and
/// begins anew otherwise.
pub proof fn lemma_run_that_goes_on(
    runs: Map<Seq<char>, TrackedPressure>,
    id: Seq<char>,
    start: Timestamp,
)
    ensures
        runs.contains_key(id) && close(runs[id].start_time, start) ==> pressure::carried(
            runs,
            id,
            start,
        ) == runs[id],
        !(runs.contains_key(id) && close(runs[id].start_time, start)) ==> {
            let fresh = pressure::carried(runs, id, start);
            fresh.start_time == start && fresh.cpu.elevated_since is None
                && fresh.memory.elevated_since is None
        },
{
}

/// What is shown of a state is what is shown of its Servers, and whether the scan failed.
pub proof fn lemma_what_is_shown_of_a_state(
    s: state::ScannerState,
    failed: bool,
    now: Timestamp,
)
    ensures
        ({
            let shown = turn::shown_of(s, failed, now);
            let all = snapshot::shown(server::server_views(s.servers@), s.keeplist@, now);
            &&& shown.scan_failed == failed
            &&& shown.projects == all.projects
            &&& shown.watch_only == all.watch_only
            &&& shown.others == all.others
            &&& shown.scanned_at == all.scanned_at
        }),
{
}

/// A scan that was asked for is answered with what it found, or with why it failed; all
/// others are told where scans have begun or ceased to fail, and only there.
pub proof fn lemma_answer_to_a_refresh(
    s: state::ScannerState,
    result: Result<ScanOutcome, String>,
    now: Timestamp,
    r: turn::Refreshed,
)
    requires
        turn::answers_refresh(s, result, now, r),
    ensures
        r.answer is Ok <==> result is Ok,
        result matches Err(e) ==> r.answer == Err::<crate::ipc::Snapshot, String>(e),
        r.answer matches Ok(a) ==> !a.scan_failed && a@.projects == snapshot::shown(
            server::server_views(s.servers@),
            s.keeplist@,
            now,
        ).projects,
        r.told is Some <==> (s.scan_failed <==> result is Ok),
        r.told matches Some(t) ==> (t.scan_failed <==> result is Err),
{
    match r.answer {
        Ok(a) => {
            assert(a@.scan_failed == a.scan_failed);
        },
        Err(_) => {},
    }
    match r.told {
        Some(t) => {
            assert(t@.scan_failed == t.scan_failed);
        },
        None => {},
    }
}

/// The titles that a short look finds: one answer for each that tells of liveness, and
/// each that was asked for came from the first port of its Server.
pub proof fn lemma_titles_a_short_look_finds<T: Fn(&PortBinding) -> Option<String>>(
    fetch: T,
    r: Refresh,
    answers: Seq<(usize, bool)>,
    found: Seq<Option<Seq<char>>>,
    k: int,
)
    requires
        refresh::refresh_explained(fetch, r, answers, found),
        0 <= k < answers.len(),
    ensures
        found.len() == answers.len(),
        ({
            let before = refresh::refresh_all(r, answers.take(k), found.take(k));
            refresh::asks(before, answers[k]) ==> exists|t: Option<String>| #[trigger]
                call_ensures(fetch, (&before.servers[answers[k].0 as int].ports[0],), t)
                    && t.deep_view() == found[k]
        }),
{
    let before = refresh::refresh_all(r, answers.take(k), found.take(k));
    if refresh::asks(before, answers[k]) {
        assert(titles::came_from(fetch, before.servers[answers[k].0 as int].ports[0], found[k]));
    }
}

/// A short look asks whether the known Servers live with their ports, in order.
pub proof fn lemma_what_a_short_look_asks<L: Fn(&Vec<Vec<PortBinding>>) -> Vec<(usize, bool)>>(
    liveness: L,
    servers: Seq<ScannedView>,
    answers: Seq<(usize, bool)>,
)
    requires
        state::may_answer_for(liveness, servers, answers),
    ensures
        exists|q: Vec<Vec<PortBinding>>, a: Vec<(usize, bool)>|
            #[trigger] call_ensures(liveness, (&q,), a) && a@ == answers && q@.len()
                == servers.len() && forall|i: int|
                0 <= i < q@.len() ==> (#[trigger] q@[i])@ == servers[i].ports,
{
    let (q, a) = choose|q: Vec<Vec<PortBinding>>, a: Vec<(usize, bool)>| #[trigger]
        call_ensures(liveness, (&q,), a) && crate::scanner::pipeline::binding_lists(q@)
            == refresh::server_ports(servers) && a@ == answers;
    let views = crate::scanner::pipeline::binding_lists(q@);
    assert(views.len() == q@.len());
    assert forall|i: int| 0 <= i < q@.len() implies (#[trigger] q@[i])@ == servers[i].ports by {
        assert(views[i] == q@[i]@);
    }
    assert(call_ensures(liveness, (&q,), a));
}

/// A scan looks closely where it is told to, where it is the first, and where the
/// fingerprint has changed; otherwise it looks shortly, at the Servers it knows.
pub proof fn lemma_short_or_full<
    O: Fn(&str) -> Option<String>,
    F: Fn(&str) -> bool,
    L: Fn(&Vec<Vec<PortBinding>>) -> Vec<(usize, bool)>,
    B: Fn(&Vec<(usize, PortBinding)>) -> Vec<(usize, Option<String>)>,
    T: Fn(&PortBinding) -> Option<String>,
>(
    before: Scanned,
    listeners: Seq<RawListenerView>,
    self_pids: crate::domain::model::SelfPids,
    deps: ClassifyDeps<O, F>,
    probes: ProbeDeps<L, B, T>,
    force_full: bool,
    threshold: u32,
    now: Timestamp,
    after: Scanned,
    outcome: ScanOutcome,
)
    requires
        state::scan_leads_to(
            before,
            listeners,
            self_pids,
            deps,
            probes,
            force_full,
            threshold,
            now,
            after,
            outcome,
        ),
    ensures
        !force_full && before.fingerprint == Some(state::fingerprint_of(listeners))
            ==> after.servers.len() == before.servers.len() && after.fingerprint
            == before.fingerprint,
        force_full || before.fingerprint != Some(state::fingerprint_of(listeners))
            ==> after.servers.len() == super::scans::with_ports(listeners).len()
            && after.fingerprint == Some(state::fingerprint_of(listeners)),
        force_full ==> outcome.structural,
        outcome.resources,
{
    if state::unchanged(before, listeners, force_full) {
        let (answers, found) = choose|
            answers: Seq<(usize, bool)>,
            found: Seq<Option<Seq<char>>>,
        | #[trigger]
            state::refresh_scan_leads_to(
                before,
                listeners,
                probes,
                threshold,
                now,
                answers,
                found,
                after,
                outcome,
            );
        lemma_short_look_tells_changes(
            before,
            listeners,
            probes,
            threshold,
            now,
            answers,
            found,
            after,
            outcome,
        );
    } else {
        let (judged, answers, found, servers) = choose|
            judged: Seq<Judged>,
            answers: Seq<(usize, bool)>,
            found: Seq<(usize, Option<Seq<char>>)>,
            servers: Seq<ScannedView>,
        | #[trigger]
            state::full_scan_leads_to(
                before,
                listeners,
                self_pids,
                deps,
                probes,
                force_full,
                threshold,
                now,
                judged,
                answers,
                found,
                servers,
                after,
                outcome,
            );
        super::scans::lemma_full_scan_finds_every_process(
            before,
            listeners,
            self_pids,
            deps,
            probes,
            force_full,
            threshold,
            now,
            judged,
            answers,
            found,
            servers,
            after,
            outcome,
        );
    }
}

/// A scan that the user asks for looks closely: afterwards there is one Server for each
/// process that holds a port. One that fails changes no Server and is remembered as failed.
pub proof fn lemma_refresh_looks_closely<
    S: crate::platform::ProcessSource,
    O: Fn(&str) -> Option<String>,
    F: Fn(&str) -> bool,
    L: Fn(&Vec<Vec<PortBinding>>) -> Vec<(usize, bool)>,
    B: Fn(&Vec<(usize, PortBinding)>) -> Vec<(usize, Option<String>)>,
    T: Fn(&PortBinding) -> Option<String>,
    C: Fn() -> Timestamp,
>(
    before: state::ScannerState,
    source: &S,
    self_pids: crate::domain::model::SelfPids,
    deps: ClassifyDeps<O, F>,
    probes: ProbeDeps<L, B, T>,
    clock: C,
    listed: Result<Vec<crate::platform::RawListener>, String>,
    now: Timestamp,
    scanned: state::ScannerState,
    result: Result<ScanOutcome, String>,
    shown_at: Timestamp,
    after: state::ScannerState,
    r: turn::Refreshed,
)
    requires
        turn::refresh_now_leads_to(
            before,
            source,
            self_pids,
            deps,
            probes,
            clock,
            listed,
            now,
            scanned,
            result,
            shown_at,
            after,
            r,
        ),
    ensures
        result is Ok <==> listed is Ok,
        after.scan_failed <==> listed is Err,
        r.answer is Ok <==> listed is Ok,
        listed matches Ok(l) ==> after.servers@.len() == super::scans::with_ports(
            crate::platform::listener_views(l@),
        ).len(),
        listed is Err ==> after.servers == before.servers,
        after.panel == before.panel,
        after.keeplist == before.keeplist,
        after.failed_polite_stops == before.failed_polite_stops,
{
    match listed {
        Ok(l) => {
            lemma_short_or_full(
                state::scanned(before),
                crate::platform::listener_views(l@),
                self_pids,
                deps,
                probes,
                true,
                before.pressure_history.threshold(),
                now,
                state::scanned(scanned),
                result->Ok_0,
            );
            assert(server::server_views(scanned.servers@).len() == scanned.servers@.len());
        },
        Err(_) => {},
    }
}

} // verus!
