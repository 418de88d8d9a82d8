//! Sustained resource pressure.
//!
//! Purely observational: nothing here feeds a stop decision. A reading above a
//! threshold means little by itself, since a compiling dev server crosses it all the
//! time; what is reported is a run of such readings that has lasted.
use crate::platform::ResourceSample;
use crate::time;
use crate::time::Timestamp;
use vstd::hash_map::StringHashMap;
use vstd::prelude::*;

verus! {

/// The least that counts as elevated: one whole core, in tenths of a percent.
pub const CPU_ELEVATED_FLOOR_TENTHS_PERCENT: u32 = 1000;

/// The share of the machine's cores that counts as elevated where it exceeds one core:
/// fifteen percent, in tenths of a percent for each core.
pub const CPU_ELEVATED_SHARE_TENTHS_PER_CPU: u32 = 150;

/// The resident memory from which on a process counts as elevated: one GiB.
pub const MEMORY_ELEVATED_BYTES: u64 = 1_073_741_824;

/// How many seconds a run of elevated CPU readings must last to be reported. Time and
/// not a count of readings, because the scan's rhythm changes.
pub const CPU_SUSTAIN_FOR: u64 = 30;

/// How many seconds a run of elevated memory readings must last to be reported. Shorter
/// than for CPU: memory moves slowly.
pub const MEMORY_SUSTAIN_FOR: u64 = 10;

/// How far apart two readings of one process's start may be, in seconds. The start is
/// computed from a running time in whole seconds, so that it differs a little from
/// reading to reading.
pub const START_TIME_TOLERANCE: u64 = 2;

/// From which CPU reading on a process on a machine with this many cores counts as
/// elevated: the larger of one core and fifteen percent of them all. No machine has
/// fewer than one core, and the threshold is at most what a reading can be.
pub open spec fn cpu_threshold(logical_cpus: u32) -> u32 {
    let cpus: int = if logical_cpus == 0 {
        1
    } else {
        logical_cpus as int
    };
    let share = cpus * CPU_ELEVATED_SHARE_TENTHS_PER_CPU;
    if share > u32::MAX {
        u32::MAX
    } else if share > CPU_ELEVATED_FLOOR_TENTHS_PERCENT {
        share as u32
    } else {
        CPU_ELEVATED_FLOOR_TENTHS_PERCENT
    }
}

/// From which CPU reading on a process on a machine with this many cores counts as
/// elevated, in tenths of a percent of one core.
pub fn cpu_elevated_tenths_percent(logical_cpus: u32) -> (r: u32)
    ensures
        r == cpu_threshold(logical_cpus),
{
    let cpus: u64 = if logical_cpus == 0 {
        1
    } else {
        logical_cpus as u64
    };
    let share: u64 = cpus * (CPU_ELEVATED_SHARE_TENTHS_PER_CPU as u64);
    if share > u32::MAX as u64 {
        u32::MAX
    } else if share > CPU_ELEVATED_FLOOR_TENTHS_PERCENT as u64 {
        share as u32
    } else {
        CPU_ELEVATED_FLOOR_TENTHS_PERCENT
    }
}

/// The threshold is never below one core, and more cores never lower it.
pub proof fn lemma_cpu_threshold(a: u32, b: u32)
    requires
        a <= b,
    ensures
        CPU_ELEVATED_FLOOR_TENTHS_PERCENT <= cpu_threshold(a) <= cpu_threshold(b),
{
}

/// Which resources a Server has been heavy on for a while.
#[derive(Debug, Clone, Copy, PartialEq, Eq, Structural)]
pub enum Pressure {
    Normal,
    Cpu,
    Memory,
    Both,
}

impl Default for Pressure {
    fn default() -> (r: Pressure)
        ensures
            r == Pressure::Normal,
    {
        Pressure::Normal
    }
}

impl Pressure {
    /// The pressure with these two parts.
    pub open spec fn of_flags(cpu: bool, memory: bool) -> Pressure {
        if cpu && memory {
            Pressure::Both
        } else if cpu {
            Pressure::Cpu
        } else if memory {
            Pressure::Memory
        } else {
            Pressure::Normal
        }
    }

    /// The pressure with these two parts.
    pub fn from_flags(cpu: bool, memory: bool) -> (r: Pressure)
        ensures
            r == Pressure::of_flags(cpu, memory),
    {
        match (cpu, memory) {
            (true, true) => Pressure::Both,
            (true, false) => Pressure::Cpu,
            (false, true) => Pressure::Memory,
            (false, false) => Pressure::Normal,
        }
    }
}

/// One metric's way to being reported: since when it has been above its threshold
/// without a break, if it is.
#[derive(Debug, Clone, Copy, PartialEq, Eq, Structural)]
pub struct MetricPressure {
    pub elevated_since: Option<Timestamp>,
}

impl MetricPressure {
    /// No run is under way.
    pub open spec fn idle() -> MetricPressure {
        MetricPressure { elevated_since: None }
    }

    /// The metric after one more reading. A reading that is not elevated, or that could
    /// not be had, ends the run at once; the first elevated one starts it.
    pub open spec fn after(self, is_elevated: bool, now: Timestamp) -> MetricPressure {
        if !is_elevated {
            MetricPressure { elevated_since: None }
        } else if self.elevated_since is Some {
            self
        } else {
            MetricPressure { elevated_since: Some(now) }
        }
    }

    /// Whether the run has lasted `sustain_for` seconds at `now`. Where the clock was
    /// set back before the run's start it has not.
    pub open spec fn lasted(self, sustain_for: u64, now: Timestamp) -> bool {
        match self.elevated_since {
            Some(since) => now.ns() - since.ns() >= sustain_for * 1_000_000_000,
            None => false,
        }
    }

    /// Fold one reading in, and tell whether the metric is now to be reported.
    pub fn observe(&mut self, is_elevated: bool, sustain_for: u64, now: Timestamp) -> (r: bool)
        ensures
            *final(self) == old(self).after(is_elevated, now),
            r == final(self).lasted(sustain_for, now),
    {
        if !is_elevated {
            self.elevated_since = None;
            return false;
        }
        let since = match self.elevated_since {
            Some(s) => s,
            None => now,
        };
        self.elevated_since = Some(since);
        now.at_least_after(since, sustain_for)
    }
}

/// One Server's runs, and the process they were seen on.
#[derive(Debug, Clone, Copy, PartialEq, Eq, Structural)]
pub struct TrackedPressure {
    /// When that process was started, as first read. It is not replaced by later
    /// readings, so that their small differences never add up.
    pub start_time: Timestamp,
    pub cpu: MetricPressure,
    pub memory: MetricPressure,
}

/// Whether two readings of a start time can be of one process.
pub open spec fn same_start(a: Timestamp, b: Timestamp) -> bool {
    time::drift(a, b) <= START_TIME_TOLERANCE * 1_000_000_000
}

/// Whether two readings of a start time can be of one process.
pub fn is_same_start(a: Timestamp, b: Timestamp) -> (r: bool)
    ensures
        r == same_start(a, b),
{
    time::drift_between(a, b) <= (START_TIME_TOLERANCE as u128) * 1_000_000_000
}

impl TrackedPressure {
    /// A process of which nothing has been seen.
    pub open spec fn fresh(start_time: Timestamp) -> TrackedPressure {
        TrackedPressure {
            start_time,
            cpu: MetricPressure::idle(),
            memory: MetricPressure::idle(),
        }
    }

    /// The runs after one more reading.
    pub open spec fn after(self, sample: ResourceSample, threshold: u32, now: Timestamp) -> TrackedPressure {
        TrackedPressure {
            start_time: self.start_time,
            cpu: self.cpu.after(cpu_elevated(sample, threshold), now),
            memory: self.memory.after(memory_elevated(sample), now),
        }
    }

    /// What is reported of the runs at `now`.
    pub open spec fn pressure(self, now: Timestamp) -> Pressure {
        Pressure::of_flags(
            self.cpu.lasted(CPU_SUSTAIN_FOR, now),
            self.memory.lasted(MEMORY_SUSTAIN_FOR, now),
        )
    }
}

/// Whether a reading's CPU figure was had and is elevated.
pub open spec fn cpu_elevated(sample: ResourceSample, threshold: u32) -> bool {
    sample.cpu_tenths_percent matches Some(v) && v >= threshold
}

/// Whether a reading's memory figure was had and is elevated.
pub open spec fn memory_elevated(sample: ResourceSample) -> bool {
    sample.memory_bytes matches Some(v) && v >= MEMORY_ELEVATED_BYTES
}

/// What was tracked under an id, where that is still the same process; otherwise
/// nothing has been seen of the process that is there now.
pub open spec fn carried(
    runs: Map<Seq<char>, TrackedPressure>,
    id: Seq<char>,
    start_time: Timestamp,
) -> TrackedPressure {
    if runs.contains_key(id) && same_start(runs[id].start_time, start_time) {
        runs[id]
    } else {
        TrackedPressure::fresh(start_time)
    }
}

/// The runs of every Server, by id.
///
/// An id alone does not tell a process: a number can be given out again, and the new
/// process can bind the same port. So each run carries the start time of the process it
/// was seen on, and a reading from another process starts afresh.
pub struct PressureHistory {
    by_id: StringHashMap<TrackedPressure>,
    cpu_elevated_tenths_percent: u32,
}

impl View for PressureHistory {
    type V = Map<Seq<char>, TrackedPressure>;

    closed spec fn view(&self) -> Map<Seq<char>, TrackedPressure> {
        self.by_id@
    }
}

impl PressureHistory {
    /// From which CPU reading on a process counts as elevated here.
    pub closed spec fn threshold(&self) -> u32 {
        self.cpu_elevated_tenths_percent
    }

    /// An empty history for a machine with this many cores.
    pub fn for_logical_cpus(logical_cpus: u32) -> (r: PressureHistory)
        ensures
            r@ == Map::<Seq<char>, TrackedPressure>::empty(),
            r.threshold() == cpu_threshold(logical_cpus),
    {
        PressureHistory {
            by_id: StringHashMap::new(),
            cpu_elevated_tenths_percent: cpu_elevated_tenths_percent(logical_cpus),
        }
    }

    /// Fold a Server's latest reading in and tell its pressure.
    ///
    /// `start_time` is that of the process as just read. Where it is another process
    /// than the one tracked under this id, all that was tracked is dropped first.
    pub fn observe(
        &mut self,
        id: &str,
        sample: &ResourceSample,
        start_time: Timestamp,
        now: Timestamp,
    ) -> (r: Pressure)
        ensures
            final(self).threshold() == old(self).threshold(),
            ({
                let next = carried(old(self)@, id@, start_time).after(
                    *sample,
                    old(self).threshold(),
                    now,
                );
                &&& final(self)@ == old(self)@.insert(id@, next)
                &&& r == next.pressure(now)
            }),
    {
        let fresh = TrackedPressure {
            start_time,
            cpu: MetricPressure { elevated_since: None },
            memory: MetricPressure { elevated_since: None },
        };
        let mut entry: TrackedPressure = match self.by_id.get(id) {
            Some(t) => if is_same_start(t.start_time, start_time) {
                *t
            } else {
                fresh
            },
            None => fresh,
        };
        let cpu_now = match sample.cpu_tenths_percent {
            Some(v) => v >= self.cpu_elevated_tenths_percent,
            None => false,
        };
        let memory_now = match sample.memory_bytes {
            Some(v) => v >= MEMORY_ELEVATED_BYTES,
            None => false,
        };
        let mut cpu = entry.cpu;
        let mut memory = entry.memory;
        let cpu_lasted = cpu.observe(cpu_now, CPU_SUSTAIN_FOR, now);
        let memory_lasted = memory.observe(memory_now, MEMORY_SUSTAIN_FOR, now);
        entry = TrackedPressure { start_time: entry.start_time, cpu, memory };
        self.by_id.insert(id.to_owned(), entry);
        Pressure::from_flags(cpu_lasted, memory_lasted)
    }

    /// Drop what is tracked of every id that is not among `live`.
    pub fn retain_ids(&mut self, live: &Vec<String>)
        ensures
            final(self).threshold() == old(self).threshold(),
            final(self)@ == old(self)@.restrict(crate::text::views(live@).to_set()),
    {
        let mut kept: StringHashMap<TrackedPressure> = StringHashMap::new();
        let mut i: usize = 0;
        let ghost ids = crate::text::views(live@);
        proof {
            assert(kept@ =~= self@.restrict(ids.take(0).to_set()));
        }
        while i < live.len()
            invariant
                0 <= i <= live@.len(),
                ids == crate::text::views(live@),
                kept@ == self@.restrict(ids.take(i as int).to_set()),
                *self == *old(self),
            decreases live@.len() - i,
        {
            let ghost before = kept@;
            let id = &live[i];
            match self.by_id.get(id.as_str()) {
                Some(t) => {
                    let entry = *t;
                    kept.insert(id.clone(), entry);
                },
                None => {},
            }
            i = i + 1;
            proof {
                let s = ids.take(i - 1);
                assert(ids.take(i as int) =~= s.push(id@));
                assert forall|x: Seq<char>| #[trigger]
                    s.push(id@).to_set().contains(x) <==> s.to_set().contains(x) || x == id@ by {
                    if s.contains(x) {
                        let k = choose|k: int| 0 <= k < s.len() && s[k] == x;
                        assert(s.push(id@)[k] == x);
                    }
                    assert(s.push(id@)[s.len() as int] == id@);
                }
                assert(kept@ =~= self@.restrict(s.push(id@).to_set()));
            }
        }
        proof {
            assert(ids.take(i as int) =~= ids);
        }
        self.by_id = kept;
    }

    /// How many ids are tracked.
    pub fn tracked_ids(&self) -> (r: usize)
        ensures
            r == self@.len(),
    {
        self.by_id.len()
    }
}

// ---------------------------------------------------------------------------------
// What holds over many readings.
// ---------------------------------------------------------------------------------

/// One reading of a Server.
pub struct Reading {
    pub sample: ResourceSample,
    pub start_time: Timestamp,
    pub now: Timestamp,
}

/// The runs of a Server after its readings, from the first on.
pub open spec fn tracked_after(readings: Seq<Reading>, threshold: u32) -> TrackedPressure
    decreases readings.len(),
{
    if readings.len() == 0 {
        arbitrary()
    } else {
        let r = readings.last();
        let before = tracked_after(readings.drop_last(), threshold);
        let kept = if readings.len() > 1 && same_start(before.start_time, r.start_time) {
            before
        } else {
            TrackedPressure::fresh(r.start_time)
        };
        kept.after(r.sample, threshold, r.now)
    }
}

/// Observing a Server's readings one after the other tracks exactly this.
pub proof fn lemma_history_follows_readings(
    by_id: Map<Seq<char>, TrackedPressure>,
    id: Seq<char>,
    readings: Seq<Reading>,
    threshold: u32,
)
    requires
        readings.len() > 0,
        readings.len() == 1 ==> !by_id.contains_key(id),
        readings.len() > 1 ==> by_id.contains_key(id) && by_id[id] == tracked_after(
            readings.drop_last(),
            threshold,
        ),
    ensures
        carried(by_id, id, readings.last().start_time).after(
            readings.last().sample,
            threshold,
            readings.last().now,
        ) == tracked_after(readings, threshold),
{
}

/// One of the two resources that are watched.
pub enum Metric {
    Cpu,
    Memory,
}

/// Whether a reading's figure for a resource was had and is elevated.
pub open spec fn elevated(m: Metric, sample: ResourceSample, threshold: u32) -> bool {
    match m {
        Metric::Cpu => cpu_elevated(sample, threshold),
        Metric::Memory => memory_elevated(sample),
    }
}

/// The run of a resource.
pub open spec fn run_of(m: Metric, runs: TrackedPressure) -> MetricPressure {
    match m {
        Metric::Cpu => runs.cpu,
        Metric::Memory => runs.memory,
    }
}

/// How many seconds a run of a resource must last to be reported.
pub open spec fn sustain_for(m: Metric) -> u64 {
    match m {
        Metric::Cpu => CPU_SUSTAIN_FOR,
        Metric::Memory => MEMORY_SUSTAIN_FOR,
    }
}

/// Whether a pressure reports a resource.
pub open spec fn reports(p: Pressure, m: Metric) -> bool {
    match m {
        Metric::Cpu => p == Pressure::Cpu || p == Pressure::Both,
        Metric::Memory => p == Pressure::Memory || p == Pressure::Both,
    }
}

/// Whether the readings from `i` on are all of the process that is tracked at the end,
/// and their figures all elevated.
pub open spec fn unbroken(m: Metric, readings: Seq<Reading>, threshold: u32, i: int) -> bool {
    forall|j: int|
        i <= j < readings.len() ==> elevated(m, (#[trigger] readings[j]).sample, threshold)
            && same_start(tracked_after(readings, threshold).start_time, readings[j].start_time)
}

/// A run under way began at one of the readings, and every reading since is of the same
/// process and elevated.
pub proof fn lemma_run_is_unbroken(m: Metric, readings: Seq<Reading>, threshold: u32)
    requires
        readings.len() > 0,
        run_of(m, tracked_after(readings, threshold)).elevated_since is Some,
    ensures
        exists|i: int|
            0 <= i < readings.len() && Some((#[trigger] readings[i]).now) == run_of(
                m,
                tracked_after(readings, threshold),
            ).elevated_since && unbroken(m, readings, threshold, i),
    decreases readings.len(),
{
    let n = readings.len() as int;
    let r = readings.last();
    let front = readings.drop_last();
    let before = tracked_after(front, threshold);
    let t = tracked_after(readings, threshold);
    assert(readings[n - 1] == r);
    if n > 1 && same_start(before.start_time, r.start_time) && run_of(
        m,
        before,
    ).elevated_since is Some {
        lemma_run_is_unbroken(m, front, threshold);
        let i = choose|i: int|
            0 <= i < front.len() && Some((#[trigger] front[i]).now) == run_of(
                m,
                before,
            ).elevated_since && unbroken(m, front, threshold, i);
        assert(readings[i] == front[i]);
        assert forall|j: int| i <= j < n implies elevated(
            m,
            (#[trigger] readings[j]).sample,
            threshold,
        ) && same_start(t.start_time, readings[j].start_time) by {
            if j < n - 1 {
                assert(front[j] == readings[j]);
            }
        }
        assert(unbroken(m, readings, threshold, i));
    } else {
        assert(same_start(t.start_time, r.start_time));
        assert(unbroken(m, readings, threshold, n - 1));
        assert(Some(readings[n - 1].now) == run_of(m, t).elevated_since);
    }
}

/// Pressure is reported only where the readings end in a run of elevated ones, all of
/// one process, that has lasted long enough: a spike is never reported.
pub proof fn lemma_pressure_is_sustained(m: Metric, readings: Seq<Reading>, threshold: u32)
    requires
        readings.len() > 0,
        reports(tracked_after(readings, threshold).pressure(readings.last().now), m),
    ensures
        exists|i: int|
            0 <= i < readings.len() && readings.last().now.ns() - (
            #[trigger] readings[i]).now.ns() >= sustain_for(m) * 1_000_000_000 && unbroken(
                m,
                readings,
                threshold,
                i,
            ),
{
    lemma_run_is_unbroken(m, readings, threshold);
}

/// As soon as one reading is not elevated, or could not be had, no pressure is
/// reported.
pub proof fn lemma_recovery_is_immediate(
    runs: TrackedPressure,
    sample: ResourceSample,
    threshold: u32,
    now: Timestamp,
)
    requires
        !cpu_elevated(sample, threshold),
        !memory_elevated(sample),
    ensures
        runs.after(sample, threshold, now).pressure(now) == Pressure::Normal,
{
}

/// The first reading of a process never reports pressure, whatever was tracked under
/// its id before: neither for a new id nor for a process that took over an old one.
pub proof fn lemma_new_process_starts_afresh(
    runs: Map<Seq<char>, TrackedPressure>,
    id: Seq<char>,
    sample: ResourceSample,
    threshold: u32,
    start_time: Timestamp,
    now: Timestamp,
)
    requires
        !runs.contains_key(id) || !same_start(runs[id].start_time, start_time),
    ensures
        carried(runs, id, start_time).after(sample, threshold, now).pressure(now)
            == Pressure::Normal,
{
}

/// Readings of one process whose start times differ from the first by no more than the
/// tolerance never interrupt a run: with elevated readings only, the run goes back to
/// the first, and it is reported once it has lasted long enough.
pub proof fn lemma_jitter_keeps_the_run(m: Metric, readings: Seq<Reading>, threshold: u32)
    requires
        readings.len() > 0,
        forall|j: int|
            0 <= j < readings.len() ==> elevated(m, (#[trigger] readings[j]).sample, threshold)
                && same_start(readings[0].start_time, readings[j].start_time),
    ensures
        tracked_after(readings, threshold).start_time == readings[0].start_time,
        run_of(m, tracked_after(readings, threshold)).elevated_since == Some(readings[0].now),
        reports(tracked_after(readings, threshold).pressure(readings.last().now), m)
            == (readings.last().now.ns() - readings[0].now.ns() >= sustain_for(m) * 1_000_000_000),
    decreases readings.len(),
{
    let n = readings.len() as int;
    let front = readings.drop_last();
    if n > 1 {
        assert forall|j: int| 0 <= j < front.len() implies elevated(
            m,
            (#[trigger] front[j]).sample,
            threshold,
        ) && same_start(front[0].start_time, front[j].start_time) by {
            assert(front[j] == readings[j]);
        }
        lemma_jitter_keeps_the_run(m, front, threshold);
        assert(readings[n - 1] == readings.last());
    }
}

} // verus!
