//! Folding the latest readings into every Server.
use crate::scanner::pressure;
use crate::scanner::pressure::{PressureHistory, TrackedPressure};
use crate::scanner::server::{distinct_ids, server_views, ScannedServer, ScannedView};
use crate::text;
use crate::time::Timestamp;
use vstd::prelude::*;

verus! {

/// Runs of elevated readings, by Server.
pub type Runs = Map<Seq<char>, TrackedPressure>;

/// The ids of Servers.
pub open spec fn ids(servers: Seq<ScannedView>) -> Seq<Seq<char>> {
    servers.map_values(|s: ScannedView| s.id)
}

/// A Server's run after its latest reading.
pub open spec fn run_after(runs: Runs, s: ScannedView, threshold: u32, now: Timestamp) -> TrackedPressure {
    pressure::carried(runs, s.id, s.start_time).after(s.usage, threshold, now)
}

/// The runs after the latest readings of `servers`, one after the other.
pub open spec fn runs_after(
    runs: Runs,
    servers: Seq<ScannedView>,
    threshold: u32,
    now: Timestamp,
) -> Runs
    decreases servers.len(),
{
    if servers.len() == 0 {
        runs
    } else {
        let before = runs_after(runs, servers.drop_last(), threshold, now);
        before.insert(servers.last().id, run_after(before, servers.last(), threshold, now))
    }
}

/// A Server whose pressure is that of its run after its latest reading.
pub open spec fn with_pressure(runs: Runs, s: ScannedView, threshold: u32, now: Timestamp) -> ScannedView {
    ScannedView { pressure: run_after(runs, s, threshold, now).pressure(now), ..s }
}

/// The Servers with the pressure that their latest readings give, one after the other.
pub open spec fn pressed(
    runs: Runs,
    servers: Seq<ScannedView>,
    threshold: u32,
    now: Timestamp,
) -> Seq<ScannedView>
    decreases servers.len(),
{
    if servers.len() == 0 {
        servers
    } else {
        let front = servers.drop_last();
        pressed(runs, front, threshold, now).push(
            with_pressure(runs_after(runs, front, threshold, now), servers.last(), threshold, now),
        )
    }
}

/// The runs that are still tracked: those of Servers that are still there.
pub open spec fn live_runs(runs: Runs, servers: Seq<ScannedView>) -> Runs {
    runs.restrict(ids(servers).to_set())
}

/// Whether some Server's pressure differs between two lists.
pub open spec fn pressure_differs(a: Seq<ScannedView>, b: Seq<ScannedView>) -> bool {
    exists|i: int| 0 <= i < a.len() && (#[trigger] a[i]).pressure != b[i].pressure
}

/// The ids of Servers.
pub fn collect_ids(servers: &Vec<ScannedServer>) -> (r: Vec<String>)
    ensures
        text::views(r@) == ids(server_views(servers@)),
{
    let mut r: Vec<String> = Vec::new();
    let mut i: usize = 0;
    let ghost all = ids(server_views(servers@));
    while i < servers.len()
        invariant
            0 <= i <= servers@.len(),
            all == ids(server_views(servers@)),
            text::views(r@) == all.take(i as int),
        decreases servers@.len() - i,
    {
        let ghost before = text::views(r@);
        let id = servers[i].id.clone();
        let ghost t = id@;
        r.push(id);
        i = i + 1;
        proof {
            assert(text::views(r@) =~= before.push(t));
            assert(all.take(i as int) =~= all.take(i - 1).push(all[i - 1]));
        }
    }
    proof {
        assert(all.take(i as int) =~= all);
    }
    r
}

/// Give every Server the pressure that its latest reading leads to, and tell whether
/// that of any Server changed. What is tracked of Servers that are gone is dropped.
///
/// The figures themselves change all the time and are no reason to redraw; a change of
/// pressure is.
pub fn apply_usage(servers: &mut Vec<ScannedServer>, now: Timestamp, history: &mut PressureHistory) -> (r:
    bool)
    ensures
        final(history).threshold() == old(history).threshold(),
        ({
            let before = server_views(old(servers)@);
            let runs = live_runs(old(history)@, before);
            let t = old(history).threshold();
            &&& server_views(final(servers)@) == pressed(runs, before, t, now)
            &&& final(history)@ == runs_after(runs, before, t, now)
            &&& r == pressure_differs(before, pressed(runs, before, t, now))
        }),
{
    let live = collect_ids(servers);
    history.retain_ids(&live);
    let ghost before = server_views(servers@);
    let ghost runs = history@;
    let ghost t = history.threshold();
    let mut changed = false;
    let mut i: usize = 0;
    proof {
        assert(runs == live_runs(old(history)@, before));
        assert(before.take(0) =~= Seq::<ScannedView>::empty());
        assert(server_views(servers@).take(0) =~= Seq::<ScannedView>::empty());
    }
    while i < servers.len()
        invariant
            0 <= i <= servers@.len(),
            before == server_views(old(servers)@),
            servers@.len() == before.len(),
            history.threshold() == t,
            history@ == runs_after(runs, before.take(i as int), t, now),
            server_views(servers@).take(i as int) == pressed(runs, before.take(i as int), t, now),
            forall|k: int|
                i <= k < servers@.len() ==> (#[trigger] server_views(servers@)[k]) == before[k],
            changed == pressure_differs(
                before.take(i as int),
                server_views(servers@).take(i as int),
            ),
        decreases servers@.len() - i,
    {
        let ghost shown = server_views(servers@);
        proof {
            assert(before.take(i + 1).drop_last() =~= before.take(i as int));
            assert(shown[i as int] == before[i as int]);
        }
        let sample = servers[i].usage;
        let start_time = servers[i].start_time;
        let old_pressure = servers[i].pressure;
        let new_pressure = history.observe(servers[i].id.as_str(), &sample, start_time, now);
        servers[i].pressure = new_pressure;
        let ghost after = server_views(servers@);
        proof {
            assert(after =~= shown.update(
                i as int,
                ScannedView { pressure: new_pressure, ..before[i as int] },
            ));
            assert(after.take(i as int) =~= shown.take(i as int));
            assert(after.take(i + 1) =~= after.take(i as int).push(after[i as int]));
            assert(after.take(i + 1) =~= pressed(runs, before.take(i + 1), t, now));
            let a0 = before.take(i as int);
            let b0 = after.take(i as int);
            let a1 = before.take(i + 1);
            let b1 = after.take(i + 1);
            if pressure_differs(a0, b0) {
                let k = choose|k: int| 0 <= k < a0.len() && (#[trigger] a0[k]).pressure != b0[k].pressure;
                assert(a1[k].pressure != b1[k].pressure);
            }
            if pressure_differs(a1, b1) {
                let k = choose|k: int| 0 <= k < a1.len() && (#[trigger] a1[k]).pressure != b1[k].pressure;
                if k < i {
                    assert(a0[k].pressure != b0[k].pressure);
                }
            }
            assert(a1[i as int].pressure == old_pressure);
            assert(b1[i as int].pressure == new_pressure);
        }
        if old_pressure != new_pressure {
            changed = true;
        }
        i = i + 1;
    }
    proof {
        assert(before.take(i as int) =~= before);
        assert(server_views(servers@).take(i as int) =~= server_views(servers@));
    }
    changed
}

/// Pressure is all that the readings change: everything else about every Server stays.
pub proof fn lemma_pressed_keeps_the_rest(
    runs: Runs,
    servers: Seq<ScannedView>,
    threshold: u32,
    now: Timestamp,
)
    ensures
        pressed(runs, servers, threshold, now).len() == servers.len(),
        forall|i: int|
            0 <= i < servers.len() ==> (ScannedView {
                pressure: servers[i].pressure,
                ..(#[trigger] pressed(runs, servers, threshold, now)[i])
            }) == servers[i],
    decreases servers.len(),
{
    if servers.len() > 0 {
        let front = servers.drop_last();
        lemma_pressed_keeps_the_rest(runs, front, threshold, now);
        assert forall|i: int| 0 <= i < servers.len() implies (ScannedView {
            pressure: servers[i].pressure,
            ..(#[trigger] pressed(runs, servers, threshold, now)[i])
        }) == servers[i] by {
            if i < front.len() {
                assert(front[i] == servers[i]);
                assert(pressed(runs, servers, threshold, now)[i] == pressed(
                    runs,
                    front,
                    threshold,
                    now,
                )[i]);
            }
        }
    }
}

/// Where no two Servers have the same id, each has a run of its own: what one reading
/// leads to depends on that Server alone, and runs of ids that are not among the Servers
/// stay as they were.
pub proof fn lemma_each_server_has_its_own_run(
    runs: Runs,
    servers: Seq<ScannedView>,
    threshold: u32,
    now: Timestamp,
)
    requires
        distinct_ids(servers),
    ensures
        forall|i: int|
            0 <= i < servers.len() ==> runs_after(runs, servers, threshold, now).contains_key(
                (#[trigger] servers[i]).id,
            ) && runs_after(runs, servers, threshold, now)[servers[i].id] == run_after(
                runs,
                servers[i],
                threshold,
                now,
            ) && pressed(runs, servers, threshold, now)[i] == with_pressure(
                runs,
                servers[i],
                threshold,
                now,
            ),
        forall|id: Seq<char>|
            !ids(servers).contains(id) ==> (#[trigger] runs_after(
                runs,
                servers,
                threshold,
                now,
            ).contains_key(id)) == runs.contains_key(id) && (runs.contains_key(id) ==> runs_after(
                runs,
                servers,
                threshold,
                now,
            )[id] == runs[id]),
    decreases servers.len(),
{
    if servers.len() > 0 {
        let front = servers.drop_last();
        let last = servers.last();
        let n = servers.len() - 1;
        assert(distinct_ids(front)) by {
            assert forall|i: int, j: int| 0 <= i < j < front.len() implies (
            #[trigger] front[i]).id != (#[trigger] front[j]).id by {
                assert(servers[i].id != servers[j].id);
            }
        }
        lemma_each_server_has_its_own_run(runs, front, threshold, now);
        lemma_pressed_keeps_the_rest(runs, front, threshold, now);
        let before = runs_after(runs, front, threshold, now);
        assert(!ids(front).contains(last.id)) by {
            if ids(front).contains(last.id) {
                let k = choose|k: int| 0 <= k < ids(front).len() && ids(front)[k] == last.id;
                assert(servers[k].id != servers[n].id);
            }
        }
        assert(before.contains_key(last.id) == runs.contains_key(last.id));
        assert(run_after(before, last, threshold, now) == run_after(runs, last, threshold, now));
        assert forall|i: int| 0 <= i < servers.len() implies runs_after(
            runs,
            servers,
            threshold,
            now,
        ).contains_key((#[trigger] servers[i]).id) && runs_after(
            runs,
            servers,
            threshold,
            now,
        )[servers[i].id] == run_after(runs, servers[i], threshold, now) && pressed(
            runs,
            servers,
            threshold,
            now,
        )[i] == with_pressure(runs, servers[i], threshold, now) by {
            if i < n {
                assert(front[i] == servers[i]);
                assert(servers[i].id != servers[n].id);
            }
        }
        assert forall|id: Seq<char>| !ids(servers).contains(id) implies (#[trigger] runs_after(
            runs,
            servers,
            threshold,
            now,
        ).contains_key(id)) == runs.contains_key(id) && (runs.contains_key(id) ==> runs_after(
            runs,
            servers,
            threshold,
            now,
        )[id] == runs[id]) by {
            assert(ids(servers)[n] == last.id);
            if ids(front).contains(id) {
                let k = choose|k: int| 0 <= k < ids(front).len() && ids(front)[k] == id;
                assert(ids(servers)[k] == id);
            }
            assert(before.contains_key(id) == runs.contains_key(id));
        }
    }
}

} // verus!
