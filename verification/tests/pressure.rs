//! When a server's use of the machine is reported: thresholds, windows and the
//! identity a window belongs to.

use portside::platform::ResourceSample;
use portside::scanner::{
    cpu_elevated_tenths_percent, Pressure, PressureHistory, CPU_ELEVATED_FLOOR_TENTHS_PERCENT, CPU_SUSTAIN_FOR,
    MEMORY_ELEVATED_BYTES, MEMORY_SUSTAIN_FOR,
};
use portside::scanner::pressure::{is_same_start, MetricPressure, START_TIME_TOLERANCE};
use portside::time::{drift_between, Timestamp};

fn at(seconds: u64) -> Timestamp {
    Timestamp::new(1_760_000_000 + seconds as i64, 250_000_000)
}

fn sample(cpu_tenths: Option<u32>, memory_bytes: Option<u64>) -> ResourceSample {
    ResourceSample { cpu_tenths_percent: cpu_tenths, memory_bytes }
}

fn started_at() -> Timestamp {
    Timestamp::new(1_700_000_000, 0)
}

fn started_after(millis: i64) -> Timestamp {
    let total: i64 = 1_700_000_000_000 + millis;
    Timestamp::new(total / 1000, (total % 1000) as u32 * 1_000_000)
}

const TEST_CPUS: u32 = 10;

fn hot_cpu() -> ResourceSample {
    sample(Some(cpu_elevated_tenths_percent(TEST_CPUS)), None)
}

fn history() -> PressureHistory {
    PressureHistory::for_logical_cpus(TEST_CPUS)
}

#[test]
fn cpu_threshold_scales_with_the_machine_but_never_below_one_core() {
    assert_eq!(cpu_elevated_tenths_percent(4), 1000, "4 CPUs -> 100% of one core");
    assert_eq!(cpu_elevated_tenths_percent(8), 1200, "8 CPUs -> 120%");
    assert_eq!(cpu_elevated_tenths_percent(10), 1500, "10 CPUs -> 150%");
    assert_eq!(cpu_elevated_tenths_percent(12), 1800, "12 CPUs -> 180%");
}

#[test]
fn cpu_threshold_never_degrades_to_zero() {
    assert_eq!(cpu_elevated_tenths_percent(0), 1000);
    assert_eq!(cpu_elevated_tenths_percent(1), 1000);
}

#[test]
fn a_brief_cpu_spike_never_reports_pressure() {
    let mut history = history();
    let spike = sample(Some(4000), None);

    assert_eq!(history.observe("1:3000", &spike, started_at(), at(0)), Pressure::Normal);
    assert_eq!(history.observe("1:3000", &sample(Some(20), None), started_at(), at(3)), Pressure::Normal);
    assert_eq!(history.observe("1:3000", &spike, started_at(), at(60)), Pressure::Normal);
}

#[test]
fn a_twenty_second_burst_of_work_never_reports_pressure() {
    let mut history = history();
    let hot = hot_cpu();
    history.observe("1:3000", &hot, started_at(), at(0));
    assert_eq!(history.observe("1:3000", &hot, started_at(), at(20)), Pressure::Normal);
    assert_eq!(history.observe("1:3000", &sample(Some(30), None), started_at(), at(23)), Pressure::Normal);
}

#[test]
fn cpu_reports_pressure_only_once_sustained_for_the_full_window() {
    let mut history = history();
    let hot = hot_cpu();

    assert_eq!(history.observe("1:3000", &hot, started_at(), at(0)), Pressure::Normal);
    assert_eq!(history.observe("1:3000", &hot, started_at(), at(CPU_SUSTAIN_FOR - 1)), Pressure::Normal);
    assert_eq!(history.observe("1:3000", &hot, started_at(), at(CPU_SUSTAIN_FOR)), Pressure::Cpu);
}

#[test]
fn cpu_and_memory_windows_are_different_durations() {
    assert_eq!(CPU_SUSTAIN_FOR, 30);
    assert_eq!(MEMORY_SUSTAIN_FOR, 10);

    let mut history = history();
    let heavy = sample(Some(cpu_elevated_tenths_percent(TEST_CPUS)), Some(2 * MEMORY_ELEVATED_BYTES));

    history.observe("1:3000", &heavy, started_at(), at(0));
    assert_eq!(history.observe("1:3000", &heavy, started_at(), at(MEMORY_SUSTAIN_FOR)), Pressure::Memory);
    assert_eq!(history.observe("1:3000", &heavy, started_at(), at(CPU_SUSTAIN_FOR)), Pressure::Both);
}

#[test]
fn cpu_threshold_boundary_is_inclusive() {
    let later = at(CPU_SUSTAIN_FOR);
    let threshold = cpu_elevated_tenths_percent(TEST_CPUS);

    let mut exactly = history();
    exactly.observe("a", &sample(Some(threshold), None), started_at(), at(0));
    assert_eq!(exactly.observe("a", &sample(Some(threshold), None), started_at(), later), Pressure::Cpu);

    let mut just_under = history();
    just_under.observe("b", &sample(Some(threshold - 1), None), started_at(), at(0));
    assert_eq!(just_under.observe("b", &sample(Some(threshold - 1), None), started_at(), later), Pressure::Normal);
}

#[test]
fn memory_threshold_boundary_is_inclusive_at_one_gibibyte() {
    assert_eq!(MEMORY_ELEVATED_BYTES, 1024 * 1024 * 1024);
    let later = at(MEMORY_SUSTAIN_FOR);

    let mut exactly = history();
    exactly.observe("a", &sample(None, Some(MEMORY_ELEVATED_BYTES)), started_at(), at(0));
    assert_eq!(exactly.observe("a", &sample(None, Some(MEMORY_ELEVATED_BYTES)), started_at(), later), Pressure::Memory);

    let mut just_under = history();
    just_under.observe("b", &sample(None, Some(MEMORY_ELEVATED_BYTES - 1)), started_at(), at(0));
    assert_eq!(
        just_under.observe("b", &sample(None, Some(MEMORY_ELEVATED_BYTES - 1)), started_at(), later),
        Pressure::Normal
    );
}

#[test]
fn both_metrics_sustained_reports_both() {
    let mut history = history();
    let heavy = sample(Some(4000), Some(2 * MEMORY_ELEVATED_BYTES));
    history.observe("1:3000", &heavy, started_at(), at(0));
    assert_eq!(history.observe("1:3000", &heavy, started_at(), at(CPU_SUSTAIN_FOR)), Pressure::Both);
}

#[test]
fn the_two_metrics_are_tracked_independently() {
    let mut history = history();
    let heavy_memory_idle_cpu = sample(Some(10), Some(2 * MEMORY_ELEVATED_BYTES));
    history.observe("1:3000", &heavy_memory_idle_cpu, started_at(), at(0));
    assert_eq!(
        history.observe("1:3000", &heavy_memory_idle_cpu, started_at(), at(CPU_SUSTAIN_FOR)),
        Pressure::Memory
    );
}

#[test]
fn a_reading_below_threshold_clears_an_established_pressure_immediately() {
    let mut history = history();
    let hot = sample(Some(4000), None);
    history.observe("1:3000", &hot, started_at(), at(0));
    assert_eq!(history.observe("1:3000", &hot, started_at(), at(CPU_SUSTAIN_FOR)), Pressure::Cpu);

    assert_eq!(
        history.observe("1:3000", &sample(Some(5), None), started_at(), at(CPU_SUSTAIN_FOR + 3)),
        Pressure::Normal
    );
    assert_eq!(history.observe("1:3000", &hot, started_at(), at(CPU_SUSTAIN_FOR + 6)), Pressure::Normal);
}

#[test]
fn an_absent_reading_clears_pressure_rather_than_sustaining_it() {
    let mut history = history();
    let hot = sample(Some(4000), None);
    history.observe("1:3000", &hot, started_at(), at(0));
    assert_eq!(history.observe("1:3000", &hot, started_at(), at(CPU_SUSTAIN_FOR)), Pressure::Cpu);
    assert_eq!(
        history.observe("1:3000", &sample(None, None), started_at(), at(CPU_SUSTAIN_FOR + 3)),
        Pressure::Normal
    );
}

#[test]
fn absent_readings_alone_never_produce_pressure() {
    let mut history = history();
    history.observe("1:3000", &sample(None, None), started_at(), at(0));
    assert_eq!(
        history.observe("1:3000", &sample(None, None), started_at(), at(CPU_SUSTAIN_FOR * 10)),
        Pressure::Normal
    );
}

#[test]
fn history_does_not_leak_across_server_identities() {
    let mut history = history();
    let hot = sample(Some(4000), None);
    history.observe("1:3000", &hot, started_at(), at(0));
    assert_eq!(history.observe("1:3000", &hot, started_at(), at(CPU_SUSTAIN_FOR)), Pressure::Cpu);

    // Same port, new pid: a restart.
    assert_eq!(history.observe("2:3000", &hot, started_at(), at(CPU_SUSTAIN_FOR)), Pressure::Normal);
}

#[test]
fn history_resets_when_the_process_behind_the_same_id_changed() {
    let mut history = history();
    let hot = sample(Some(4000), None);

    history.observe("1:3000", &hot, started_at(), at(0));
    assert_eq!(history.observe("1:3000", &hot, started_at(), at(CPU_SUSTAIN_FOR)), Pressure::Cpu);

    let recycled = started_after(45_000);
    assert_eq!(
        history.observe("1:3000", &hot, recycled, at(CPU_SUSTAIN_FOR)),
        Pressure::Normal,
        "a different process behind the same id must serve the full window itself"
    );
    assert_eq!(history.observe("1:3000", &hot, recycled, at(CPU_SUSTAIN_FOR + 29)), Pressure::Normal);
    assert_eq!(history.observe("1:3000", &hot, recycled, at(CPU_SUSTAIN_FOR * 2)), Pressure::Cpu);
}

#[test]
fn history_resets_a_pending_run_when_identity_changes() {
    let mut history = history();
    let hot = sample(Some(4000), None);

    history.observe("1:3000", &hot, started_at(), at(0));
    assert_eq!(history.observe("1:3000", &hot, started_at(), at(29)), Pressure::Normal);

    let recycled = started_after(45_000);
    assert_eq!(
        history.observe("1:3000", &hot, recycled, at(30)),
        Pressure::Normal,
        "a pending run must not carry across an identity change"
    );
}

#[test]
fn history_resets_a_pending_memory_run_when_identity_changes() {
    let mut history = history();
    let heavy = sample(None, Some(2 * MEMORY_ELEVATED_BYTES));

    history.observe("1:3000", &heavy, started_at(), at(0));
    assert_eq!(history.observe("1:3000", &heavy, started_at(), at(9)), Pressure::Normal);

    let recycled = started_after(45_000);
    assert_eq!(history.observe("1:3000", &heavy, recycled, at(MEMORY_SUSTAIN_FOR)), Pressure::Normal);
}

#[test]
fn ordinary_etime_jitter_does_not_reset_the_window() {
    let mut history = history();
    let hot = sample(Some(4000), None);

    history.observe("1:3000", &hot, started_at(), at(0));
    history.observe("1:3000", &hot, started_after(1200), at(10));
    history.observe("1:3000", &hot, started_after(-1200), at(20));
    assert_eq!(
        history.observe("1:3000", &hot, started_after(900), at(CPU_SUSTAIN_FOR)),
        Pressure::Cpu,
        "etime jitter within tolerance must not restart the sustain window"
    );
}

#[test]
fn history_is_pruned_when_a_server_disappears() {
    let mut history = history();
    let hot = sample(Some(4000), None);
    history.observe("1:3000", &hot, started_at(), at(0));
    history.observe("2:4000", &hot, started_at(), at(0));
    assert_eq!(history.tracked_ids(), 2);

    history.retain_ids(&vec!["2:4000".to_string()]);
    assert_eq!(history.tracked_ids(), 1);

    assert_eq!(history.observe("1:3000", &hot, started_at(), at(CPU_SUSTAIN_FOR)), Pressure::Normal);
}

#[test]
fn ordinary_etime_jitter_is_not_treated_as_a_replacement() {
    let tolerance: u128 = START_TIME_TOLERANCE as u128 * 1_000_000_000;
    for jitter in [1200, 1900, 0] {
        assert!(
            drift_between(started_at(), started_after(jitter)) <= tolerance,
            "jitter of {jitter} ms must not read as a replacement and force a title re-fetch every tick"
        );
        assert!(drift_between(started_at(), started_after(-jitter)) <= tolerance, "jitter is sign-independent");
    }
    assert!(drift_between(started_at(), started_after(45_000)) > tolerance);
}

/// The tolerance is inclusive to the nanosecond, in both directions.
#[test]
fn start_times_are_the_same_up_to_two_seconds() {
    assert_eq!(START_TIME_TOLERANCE, 2);
    assert!(is_same_start(started_at(), started_after(2000)));
    assert!(is_same_start(started_after(2000), started_at()));
    assert!(!is_same_start(started_at(), Timestamp::new(1_700_000_002, 1)));
    assert!(!is_same_start(Timestamp::new(1_700_000_002, 1), started_at()));
    assert_eq!(drift_between(started_at(), Timestamp::new(1_700_000_002, 1)), 2_000_000_001);
}

/// The count saturates in place of wrapping around on an absurd machine.
#[test]
fn cpu_threshold_is_capped_by_the_type() {
    assert_eq!(CPU_ELEVATED_FLOOR_TENTHS_PERCENT, 1000);
    assert_eq!(cpu_elevated_tenths_percent(6), 1000);
    assert_eq!(cpu_elevated_tenths_percent(7), 1050);
    assert_eq!(cpu_elevated_tenths_percent(u32::MAX), u32::MAX);
}

/// The four combinations of what is sustained.
#[test]
fn pressure_names_what_is_sustained() {
    assert_eq!(Pressure::from_flags(false, false), Pressure::Normal);
    assert_eq!(Pressure::from_flags(true, false), Pressure::Cpu);
    assert_eq!(Pressure::from_flags(false, true), Pressure::Memory);
    assert_eq!(Pressure::from_flags(true, true), Pressure::Both);
    assert_eq!(Pressure::default(), Pressure::Normal);
}

/// A clock that stepped back neither reports the run nor loses its start.
#[test]
fn a_clock_that_stepped_back_waits() {
    let mut metric = MetricPressure { elevated_since: None };
    assert!(!metric.observe(true, 10, at(100)));
    assert!(!metric.observe(true, 10, at(50)));
    assert!(!metric.observe(true, 10, at(109)));
    assert!(metric.observe(true, 10, at(110)));
    assert!(!metric.observe(false, 10, at(111)));
    assert_eq!(metric.elevated_since, None);
}

/// Two servers observed in turn keep their own windows.
#[test]
fn windows_do_not_disturb_each_other() {
    let mut history = history();
    let hot = hot_cpu();
    history.observe("1:1", &hot, started_at(), at(0));
    history.observe("2:2", &hot, started_at(), at(15));
    assert_eq!(history.observe("1:1", &hot, started_at(), at(30)), Pressure::Cpu);
    assert_eq!(history.observe("2:2", &hot, started_at(), at(30)), Pressure::Normal);
    assert_eq!(history.observe("2:2", &hot, started_at(), at(45)), Pressure::Cpu);
}
