use tf_viewer::totals::{gear_totals, user_totals, ActivityType, SessionSummary, Totals};

const DAY: i64 = 86400;
const NOW: i64 = 1_700_000_000;

fn session(kind: ActivityType, days_ago: i64, year: i32, distance: Option<u64>, duration: u64) -> SessionSummary {
    SessionSummary {
        activity_type: kind,
        start_time: NOW - days_ago * DAY,
        start_year: year,
        distance,
        duration_active: duration,
    }
}

#[test]
fn user_totals_by_type_and_window() {
    let sessions = vec![
        session(ActivityType::Cycling, 2, 2023, Some(10_000), 600_000),
        session(ActivityType::Cycling, 5, 2023, Some(15_000), 900_000),
        session(ActivityType::Running, 40, 2023, Some(5_000), 300_000),
    ];
    let t = user_totals(&sessions, NOW, 2023);
    let cycling = Totals { distance: 25_000, duration: 1_500_000, count: 2 };
    assert_eq!(t.cycling_all, cycling);
    assert_eq!(t.cycling_month, cycling);
    assert_eq!(t.cycling_year, cycling);
    assert_eq!(t.running_all, Totals { distance: 5_000, duration: 300_000, count: 1 });
    assert_eq!(t.running_month, Totals { distance: 0, duration: 0, count: 0 });
    assert_eq!(t.running_year, Totals { distance: 5_000, duration: 300_000, count: 1 });
}

#[test]
fn missing_distance_still_counts() {
    let sessions = vec![
        session(ActivityType::Running, 1, 2023, None, 1000),
        session(ActivityType::Running, 31, 2022, Some(7), 2000),
        session(ActivityType::Other, 1, 2023, Some(9), 3000),
    ];
    let t = user_totals(&sessions, NOW, 2023);
    assert_eq!(t.running_all, Totals { distance: 7, duration: 3000, count: 2 });
    assert_eq!(t.running_month, Totals { distance: 0, duration: 1000, count: 1 });
    assert_eq!(t.running_year, Totals { distance: 0, duration: 1000, count: 1 });
    assert_eq!(t.cycling_all, Totals { distance: 0, duration: 0, count: 0 });
}

#[test]
fn month_window_is_exclusive_at_thirty_days() {
    let sessions = vec![session(ActivityType::Cycling, 30, 2023, Some(1), 1)];
    let t = user_totals(&sessions, NOW, 2023);
    assert_eq!(t.cycling_month.count, 0);
    assert_eq!(t.cycling_all.count, 1);
}

#[test]
fn totals_of_nothing_are_zero() {
    let t = user_totals(&Vec::new(), NOW, 2023);
    assert_eq!(t.cycling_all, Totals { distance: 0, duration: 0, count: 0 });
    assert_eq!(gear_totals(&Vec::new()), (0, 0));
}

#[test]
fn gear_totals_sum_everything() {
    let sessions = vec![
        session(ActivityType::Cycling, 400, 2022, Some(10), 20),
        session(ActivityType::Running, 1, 2023, None, 5),
        session(ActivityType::Other, 1, 2023, Some(u64::MAX), u64::MAX),
    ];
    let max = u64::MAX as u128;
    assert_eq!(gear_totals(&sessions), (10 + max, 25 + max));
}

#[test]
fn activity_type_predicates() {
    assert!(ActivityType::Cycling.is_cycling());
    assert!(!ActivityType::Cycling.is_running());
    assert!(ActivityType::Running.is_running());
    assert!(!ActivityType::Other.is_cycling());
}
