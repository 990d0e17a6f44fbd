use github_win_app::lookup::today_contributions;
use github_win_app::model::{ContributionCalendar, ContributionDay, Week};

fn day(date: &str, count: u32) -> ContributionDay {
    ContributionDay {
        date: date.to_string(),
        contribution_count: count,
        color: "#ebedf0".to_string(),
    }
}

#[test]
fn finds_todays_count() {
    let cal = ContributionCalendar {
        total_contributions: 4,
        weeks: vec![
            Week { contribution_days: vec![day("2024-05-31", 1)] },
            Week { contribution_days: vec![day("2024-06-01", 3)] },
        ],
    };
    let today = "2024-06-01".to_string();
    assert_eq!(today_contributions(&cal, &today), Some(3));
}

#[test]
fn absent_date_reports_no_data() {
    let cal = ContributionCalendar {
        total_contributions: 4,
        weeks: vec![Week { contribution_days: vec![day("2024-06-01", 3)] }],
    };
    let today = "2024-06-02".to_string();
    assert_eq!(today_contributions(&cal, &today), None);
}

#[test]
fn zero_count_day_is_still_found() {
    let cal = ContributionCalendar {
        total_contributions: 0,
        weeks: vec![Week { contribution_days: vec![day("2024-06-01", 0)] }],
    };
    let today = "2024-06-01".to_string();
    assert_eq!(today_contributions(&cal, &today), Some(0));
}

#[test]
fn first_match_in_stored_order_wins() {
    let cal = ContributionCalendar {
        total_contributions: 5,
        weeks: vec![
            Week { contribution_days: vec![day("2024-06-01", 2)] },
            Week { contribution_days: vec![day("2024-06-01", 9)] },
        ],
    };
    let today = "2024-06-01".to_string();
    assert_eq!(today_contributions(&cal, &today), Some(2));
}

#[test]
fn empty_calendar_reports_no_data() {
    let cal = ContributionCalendar { total_contributions: 0, weeks: vec![] };
    let today = "2024-06-01".to_string();
    assert_eq!(today_contributions(&cal, &today), None);
}
