//! Totals over session summaries: by activity type, over the last thirty days,
//! the current year and all time.
use vstd::prelude::*;

verus! {

/// Seconds in the thirty days that the monthly totals cover.
pub const MONTH_SECONDS: i64 = 2592000;

/// The kind of an activity.
#[derive(Debug, Clone, Copy, PartialEq, Eq, Structural)]
pub enum ActivityType {
    Cycling,
    Running,
    Other,
}

impl ActivityType {
    pub fn is_cycling(&self) -> (r: bool)
        ensures
            r == (*self == ActivityType::Cycling),
    {
        matches!(self, ActivityType::Cycling)
    }

    pub fn is_running(&self) -> (r: bool)
        ensures
            r == (*self == ActivityType::Running),
    {
        matches!(self, ActivityType::Running)
    }
}

/// What the totals read of a session: its kind, its start as seconds since the
/// Unix epoch and as a calendar year, its distance in millimetres when known, and
/// its active duration in milliseconds.
#[derive(Debug, Clone, Copy, PartialEq, Eq, Structural)]
pub struct SessionSummary {
    pub activity_type: ActivityType,
    pub start_time: i64,
    pub start_year: i32,
    pub distance: Option<u64>,
    pub duration_active: u64,
}

/// Distance, active duration and number of sessions.
#[derive(Debug, Clone, Copy, PartialEq, Eq, Structural)]
pub struct Totals {
    pub distance: u128,
    pub duration: u128,
    pub count: u64,
}

#[derive(Debug, Clone, Copy, PartialEq, Eq, Structural)]
pub struct UserTotals {
    pub cycling_month: Totals,
    pub cycling_year: Totals,
    pub cycling_all: Totals,
    pub running_month: Totals,
    pub running_year: Totals,
    pub running_all: Totals,
}

/// Which sessions a total covers, beside their kind.
#[derive(Debug, Clone, Copy, PartialEq, Eq, Structural)]
pub enum Window {
    /// Every session.
    All,
    /// Sessions that start less than thirty days before the given time.
    Month(i64),
    /// Sessions that start in the given year.
    Year(i32),
}

pub open spec fn in_window(s: SessionSummary, w: Window) -> bool {
    match w {
        Window::All => true,
        Window::Month(now) => s.start_time > now - MONTH_SECONDS,
        Window::Year(y) => s.start_year == y,
    }
}

pub open spec fn selected(s: SessionSummary, k: ActivityType, w: Window) -> bool {
    s.activity_type == k && in_window(s, w)
}

/// Distance that a session adds: none counts as zero.
pub open spec fn distance_of(s: SessionSummary) -> nat {
    match s.distance {
        Some(d) => d as nat,
        None => 0,
    }
}

/// Sum of distances of the selected sessions.
pub open spec fn sum_distance(ss: Seq<SessionSummary>, k: ActivityType, w: Window) -> nat
    decreases ss.len(),
{
    if ss.len() == 0 {
        0
    } else {
        sum_distance(ss.drop_last(), k, w) + if selected(ss.last(), k, w) { distance_of(ss.last()) } else { 0 }
    }
}

/// Sum of active durations of the selected sessions.
pub open spec fn sum_duration(ss: Seq<SessionSummary>, k: ActivityType, w: Window) -> nat
    decreases ss.len(),
{
    if ss.len() == 0 {
        0
    } else {
        sum_duration(ss.drop_last(), k, w) + if selected(ss.last(), k, w) { ss.last().duration_active as nat } else { 0 }
    }
}

/// Number of selected sessions.
pub open spec fn count_of(ss: Seq<SessionSummary>, k: ActivityType, w: Window) -> nat
    decreases ss.len(),
{
    if ss.len() == 0 {
        0
    } else {
        count_of(ss.drop_last(), k, w) + if selected(ss.last(), k, w) { 1nat } else { 0 }
    }
}

pub open spec fn totals_of(ss: Seq<SessionSummary>, k: ActivityType, w: Window) -> Totals {
    Totals {
        distance: sum_distance(ss, k, w) as u128,
        duration: sum_duration(ss, k, w) as u128,
        count: count_of(ss, k, w) as u64,
    }
}

proof fn lemma_sums_bounded(ss: Seq<SessionSummary>, k: ActivityType, w: Window)
    ensures
        sum_distance(ss, k, w) <= ss.len() * 0xffff_ffff_ffff_ffff,
        sum_duration(ss, k, w) <= ss.len() * 0xffff_ffff_ffff_ffff,
        count_of(ss, k, w) <= ss.len(),
    decreases ss.len(),
{
    if ss.len() > 0 {
        lemma_sums_bounded(ss.drop_last(), k, w);
        assert((ss.len() - 1) * 0xffff_ffff_ffff_ffff + 0xffff_ffff_ffff_ffff == ss.len() * 0xffff_ffff_ffff_ffff)
            by (nonlinear_arith);
    }
}

fn in_window_exec(s: &SessionSummary, w: Window) -> (r: bool)
    ensures
        r == in_window(*s, w),
{
    match w {
        Window::All => true,
        Window::Month(now) => (s.start_time as i128) > (now as i128) - (MONTH_SECONDS as i128),
        Window::Year(y) => s.start_year == y,
    }
}

/// Distance, duration and count of the sessions of kind `k` in window `w`.
pub fn fold_totals(sessions: &Vec<SessionSummary>, k: ActivityType, w: Window) -> (r: Totals)
    ensures
        r == totals_of(sessions@, k, w),
{
    let mut distance: u128 = 0;
    let mut duration: u128 = 0;
    let mut count: u64 = 0;
    let mut i: usize = 0;
    while i < sessions.len()
        invariant
            i <= sessions@.len(),
            distance == sum_distance(sessions@.subrange(0, i as int), k, w),
            duration == sum_duration(sessions@.subrange(0, i as int), k, w),
            count == count_of(sessions@.subrange(0, i as int), k, w),
        decreases sessions@.len() - i,
    {
        let s = sessions[i];
        let ghost pre = sessions@.subrange(0, i as int);
        let ghost next = sessions@.subrange(0, i + 1);
        proof {
            assert(next.drop_last() =~= pre);
            assert(next.last() == s);
            lemma_sums_bounded(pre, k, w);
            assert(i * 0xffff_ffff_ffff_ffff <= 0xffff_ffff_ffff_ffff * 0xffff_ffff_ffff_ffff) by (nonlinear_arith)
                requires i <= 0xffff_ffff_ffff_ffff;
        }
        if s.activity_type == k && in_window_exec(&s, w) {
            let d: u64 = match s.distance {
                Some(d) => d,
                None => 0,
            };
            distance = distance + d as u128;
            duration = duration + s.duration_active as u128;
            count = count + 1;
        }
        i = i + 1;
    }
    proof {
        assert(sessions@.subrange(0, sessions@.len() as int) =~= sessions@);
    }
    Totals { distance, duration, count }
}

/// Totals of cycling and running over the thirty days before `now`, the year
/// `year` and all time. `now` is in seconds since the Unix epoch.
pub fn user_totals(sessions: &Vec<SessionSummary>, now: i64, year: i32) -> (r: UserTotals)
    ensures
        r.cycling_month == totals_of(sessions@, ActivityType::Cycling, Window::Month(now)),
        r.cycling_year == totals_of(sessions@, ActivityType::Cycling, Window::Year(year)),
        r.cycling_all == totals_of(sessions@, ActivityType::Cycling, Window::All),
        r.running_month == totals_of(sessions@, ActivityType::Running, Window::Month(now)),
        r.running_year == totals_of(sessions@, ActivityType::Running, Window::Year(year)),
        r.running_all == totals_of(sessions@, ActivityType::Running, Window::All),
{
    UserTotals {
        cycling_month: fold_totals(sessions, ActivityType::Cycling, Window::Month(now)),
        cycling_year: fold_totals(sessions, ActivityType::Cycling, Window::Year(year)),
        cycling_all: fold_totals(sessions, ActivityType::Cycling, Window::All),
        running_month: fold_totals(sessions, ActivityType::Running, Window::Month(now)),
        running_year: fold_totals(sessions, ActivityType::Running, Window::Year(year)),
        running_all: fold_totals(sessions, ActivityType::Running, Window::All),
    }
}

/// Sum of distance of every session.
pub open spec fn all_distance(ss: Seq<SessionSummary>) -> nat
    decreases ss.len(),
{
    if ss.len() == 0 {
        0
    } else {
        all_distance(ss.drop_last()) + distance_of(ss.last())
    }
}

/// Sum of active duration of every session.
pub open spec fn all_duration(ss: Seq<SessionSummary>) -> nat
    decreases ss.len(),
{
    if ss.len() == 0 {
        0
    } else {
        all_duration(ss.drop_last()) + ss.last().duration_active as nat
    }
}

proof fn lemma_all_bounded(ss: Seq<SessionSummary>)
    ensures
        all_distance(ss) <= ss.len() * 0xffff_ffff_ffff_ffff,
        all_duration(ss) <= ss.len() * 0xffff_ffff_ffff_ffff,
    decreases ss.len(),
{
    if ss.len() > 0 {
        lemma_all_bounded(ss.drop_last());
        assert((ss.len() - 1) * 0xffff_ffff_ffff_ffff + 0xffff_ffff_ffff_ffff == ss.len() * 0xffff_ffff_ffff_ffff)
            by (nonlinear_arith);
    }
}

/// Distance and active duration summed over the sessions on one piece of gear.
pub fn gear_totals(sessions: &Vec<SessionSummary>) -> (r: (u128, u128))
    ensures
        r.0 == all_distance(sessions@),
        r.1 == all_duration(sessions@),
{
    let mut distance: u128 = 0;
    let mut duration: u128 = 0;
    let mut i: usize = 0;
    while i < sessions.len()
        invariant
            i <= sessions@.len(),
            distance == all_distance(sessions@.subrange(0, i as int)),
            duration == all_duration(sessions@.subrange(0, i as int)),
        decreases sessions@.len() - i,
    {
        let s = sessions[i];
        let ghost pre = sessions@.subrange(0, i as int);
        proof {
            assert(sessions@.subrange(0, i + 1).drop_last() =~= pre);
            lemma_all_bounded(pre);
            assert(i * 0xffff_ffff_ffff_ffff <= 0xffff_ffff_ffff_ffff * 0xffff_ffff_ffff_ffff) by (nonlinear_arith)
                requires i <= 0xffff_ffff_ffff_ffff;
        }
        let d: u64 = match s.distance {
            Some(d) => d,
            None => 0,
        };
        distance = distance + d as u128;
        duration = duration + s.duration_active as u128;
        i = i + 1;
    }
    proof {
        assert(sessions@.subrange(0, sessions@.len() as int) =~= sessions@);
    }
    (distance, duration)
}

} // verus!
