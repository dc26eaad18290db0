//! Settings of the JSON-configured headless test harness.
use vstd::prelude::*;

verus! {

/// Which built-in simulation profile (timestep / resolution) the test uses.
#[derive(Debug, Clone, Copy, PartialEq, Eq, Structural)]
pub enum ProfileSelection {
    RealTime,
    Render,
}

impl Default for ProfileSelection {
    /// The real-time profile.
    fn default() -> (r: Self)
        ensures
            r == ProfileSelection::RealTime,
    {
        ProfileSelection::RealTime
    }
}

/// How a parameter axis spaces its points between `min` and `max`.
#[derive(Debug, Clone, Copy, PartialEq, Eq, Structural)]
pub enum Spacing {
    Linear,
    /// Natural-log (geometric) spacing; requires positive bounds.
    Log,
}

impl Default for Spacing {
    /// Linear spacing.
    fn default() -> (r: Self)
        ensures
            r == Spacing::Linear,
    {
        Spacing::Linear
    }
}

/// What validation reads of a grid test: which load axis it sets and whether
/// its dwell fails to be positive (`dwell_seconds <= 0`).
#[derive(Debug, Clone, Copy, PartialEq, Eq, Structural)]
pub struct GridChecks {
    pub has_throttle: bool,
    pub has_map_kpa: bool,
    pub dwell_not_positive: bool,
}

/// What validation reads of a sweep test: its run count and which of its
/// quantities fail their checks (`duration_seconds <= 0`, `rpm_max <= rpm_min`,
/// `rpm_bin <= 0`).
#[derive(Debug, Clone, Copy, PartialEq, Eq, Structural)]
pub struct SweepChecks {
    pub runs: usize,
    pub duration_not_positive: bool,
    pub rpm_range_not_positive: bool,
    pub rpm_bin_not_positive: bool,
}

/// What validation reads of a test profile.
#[derive(Debug, Clone, Copy, PartialEq, Eq, Structural)]
pub struct TestProfileChecks {
    pub grid: Option<GridChecks>,
    pub sweep: Option<SweepChecks>,
}

/// The first reason a test profile cannot be run, if any.
pub open spec fn profile_error(checks: TestProfileChecks) -> Option<Seq<char>> {
    if checks.grid is None && checks.sweep is None {
        Some("test profile defines neither a `grid` nor a `sweep`"@)
    } else if checks.grid matches Some(g) && g.has_throttle && g.has_map_kpa {
        Some("grid must specify either `throttle` or `map_kpa`, not both"@)
    } else if checks.grid matches Some(g) && !g.has_throttle && !g.has_map_kpa {
        Some("grid must specify either `throttle` or `map_kpa`"@)
    } else if checks.grid matches Some(g) && g.dwell_not_positive {
        Some("grid `dwell_seconds` must be positive"@)
    } else if checks.sweep matches Some(w) && w.runs == 0 {
        Some("sweep `runs` must be at least 1"@)
    } else if checks.sweep matches Some(w) && w.duration_not_positive {
        Some("sweep `duration_seconds` must be positive"@)
    } else if checks.sweep matches Some(w) && w.rpm_range_not_positive {
        Some("sweep `rpm_max` must exceed `rpm_min`"@)
    } else if checks.sweep matches Some(w) && w.rpm_bin_not_positive {
        Some("sweep `rpm_bin` must be positive"@)
    } else {
        None
    }
}

impl TestProfileChecks {
    /// Reject configurations that cannot be run before any simulation starts.
    pub fn validate(&self) -> (r: Result<(), String>)
        ensures
            match profile_error(*self) {
                Some(message) => r matches Err(m) && m@ == message,
                None => r is Ok,
            },
    {
        if self.grid.is_none() && self.sweep.is_none() {
            return Err(String::from_str("test profile defines neither a `grid` nor a `sweep`"));
        }
        if let Some(grid) = &self.grid {
            if grid.has_throttle && grid.has_map_kpa {
                return Err(
                    String::from_str("grid must specify either `throttle` or `map_kpa`, not both"),
                );
            }
            if !grid.has_throttle && !grid.has_map_kpa {
                return Err(String::from_str("grid must specify either `throttle` or `map_kpa`"));
            }
            if grid.dwell_not_positive {
                return Err(String::from_str("grid `dwell_seconds` must be positive"));
            }
        }
        if let Some(sweep) = &self.sweep {
            if sweep.runs == 0 {
                return Err(String::from_str("sweep `runs` must be at least 1"));
            }
            if sweep.duration_not_positive {
                return Err(String::from_str("sweep `duration_seconds` must be positive"));
            }
            if sweep.rpm_range_not_positive {
                return Err(String::from_str("sweep `rpm_max` must exceed `rpm_min`"));
            }
            if sweep.rpm_bin_not_positive {
                return Err(String::from_str("sweep `rpm_bin` must be positive"));
            }
        }
        Ok(())
    }
}

/// True when a grid passes its checks: exactly one load axis, positive dwell.
pub open spec fn grid_passes(g: GridChecks) -> bool {
    g.has_throttle != g.has_map_kpa && !g.dwell_not_positive
}

/// True when a sweep passes its checks: at least one run, positive duration,
/// a rising rpm range and a positive rpm bin.
pub open spec fn sweep_passes(w: SweepChecks) -> bool {
    w.runs > 0 && !w.duration_not_positive && !w.rpm_range_not_positive && !w.rpm_bin_not_positive
}

/// A profile is accepted exactly when it defines a grid or a sweep and every
/// part it defines passes its checks.
pub proof fn lemma_accepted_exactly_when_parts_pass(checks: TestProfileChecks)
    ensures
        profile_error(checks) is None <==> (checks.grid is Some || checks.sweep is Some) && (
        checks.grid matches Some(g) ==> grid_passes(g)) && (checks.sweep matches Some(w)
            ==> sweep_passes(w)),
{
}

/// The grid and the sweep are checked independently, the grid first: when the
/// grid passes, the error is the sweep's, as for the sweep alone; when the
/// sweep passes (or is absent), the error is the grid's, as for the grid alone.
pub proof fn lemma_parts_checked_independently(checks: TestProfileChecks)
    ensures
        (checks.grid matches Some(g) && grid_passes(g)) && checks.sweep is Some ==> profile_error(
            checks,
        ) == profile_error(TestProfileChecks { grid: None, sweep: checks.sweep }),
        (checks.grid matches Some(g) && !grid_passes(g)) ==> profile_error(checks) == profile_error(
            TestProfileChecks { grid: checks.grid, sweep: None },
        ),
        (checks.sweep matches Some(w) && sweep_passes(w)) && checks.grid is Some ==> profile_error(
            checks,
        ) == profile_error(TestProfileChecks { grid: checks.grid, sweep: None }),
{
}

} // verus!
