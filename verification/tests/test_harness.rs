use enginesim::test_harness::{GridChecks, SweepChecks, TestProfileChecks};

fn grid(has_throttle: bool, has_map_kpa: bool, dwell_not_positive: bool) -> Option<GridChecks> {
    Some(GridChecks {
        has_throttle,
        has_map_kpa,
        dwell_not_positive,
    })
}

fn sweep(runs: usize) -> SweepChecks {
    SweepChecks {
        runs,
        duration_not_positive: false,
        rpm_range_not_positive: false,
        rpm_bin_not_positive: false,
    }
}

#[test]
fn profile_without_grid_or_sweep_is_rejected() {
    let checks = TestProfileChecks {
        grid: None,
        sweep: None,
    };
    assert_eq!(
        checks.validate(),
        Err("test profile defines neither a `grid` nor a `sweep`".to_string())
    );
}

#[test]
fn grid_needs_exactly_one_load_axis_and_positive_dwell() {
    let both = TestProfileChecks {
        grid: grid(true, true, false),
        sweep: None,
    };
    assert_eq!(
        both.validate(),
        Err("grid must specify either `throttle` or `map_kpa`, not both".to_string())
    );
    let neither = TestProfileChecks {
        grid: grid(false, false, true),
        sweep: None,
    };
    assert_eq!(
        neither.validate(),
        Err("grid must specify either `throttle` or `map_kpa`".to_string())
    );
    let no_dwell = TestProfileChecks {
        grid: grid(false, true, true),
        sweep: Some(sweep(0)),
    };
    assert_eq!(
        no_dwell.validate(),
        Err("grid `dwell_seconds` must be positive".to_string())
    );
    let fine = TestProfileChecks {
        grid: grid(true, false, false),
        sweep: None,
    };
    assert_eq!(fine.validate(), Ok(()));
}

#[test]
fn sweep_checks_run_in_order() {
    let mut s = sweep(0);
    s.duration_not_positive = true;
    let checks = |s: SweepChecks| TestProfileChecks {
        grid: None,
        sweep: Some(s),
    };
    assert_eq!(
        checks(s).validate(),
        Err("sweep `runs` must be at least 1".to_string())
    );
    s.runs = 3;
    assert_eq!(
        checks(s).validate(),
        Err("sweep `duration_seconds` must be positive".to_string())
    );
    s.duration_not_positive = false;
    s.rpm_range_not_positive = true;
    s.rpm_bin_not_positive = true;
    assert_eq!(
        checks(s).validate(),
        Err("sweep `rpm_max` must exceed `rpm_min`".to_string())
    );
    s.rpm_range_not_positive = false;
    assert_eq!(
        checks(s).validate(),
        Err("sweep `rpm_bin` must be positive".to_string())
    );
    s.rpm_bin_not_positive = false;
    assert_eq!(checks(s).validate(), Ok(()));
}
