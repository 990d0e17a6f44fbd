use github_win_app::codec::{parse_calendar_at, parse_envelope_text, serialize_calendar};
use github_win_app::model::{ContributionCalendar, ContributionDay, Week};

fn sample_calendar() -> ContributionCalendar {
    ContributionCalendar {
        total_contributions: 407,
        weeks: vec![
            Week {
                contribution_days: vec![
                    ContributionDay {
                        date: "2024-01-01".to_string(),
                        contribution_count: 5,
                        color: "#40c463".to_string(),
                    },
                    ContributionDay {
                        date: "2024-01-02".to_string(),
                        contribution_count: 0,
                        color: "#ebedf0".to_string(),
                    },
                ],
            },
            Week { contribution_days: vec![] },
            Week {
                contribution_days: vec![ContributionDay {
                    date: "2024-01-15".to_string(),
                    contribution_count: 12,
                    color: "#216e39".to_string(),
                }],
            },
        ],
    }
}

#[test]
fn serializes_the_compact_wire_form() {
    let cal = ContributionCalendar {
        total_contributions: 5,
        weeks: vec![Week {
            contribution_days: vec![ContributionDay {
                date: "2024-01-01".to_string(),
                contribution_count: 5,
                color: "#40c463".to_string(),
            }],
        }],
    };
    let s = serialize_calendar(&cal);
    assert_eq!(
        s,
        "{\"totalContributions\":5,\"weeks\":[{\"contributionDays\":[{\"date\":\"2024-01-01\",\"contributionCount\":5,\"color\":\"#40c463\"}]}]}"
    );
}

#[test]
fn round_trip_preserves_the_calendar() {
    let cal = sample_calendar();
    let s = serialize_calendar(&cal);
    let (back, end) = parse_calendar_at(&s, 0).expect("serialized text must parse");
    assert_eq!(end, s.chars().count());
    assert_eq!(back.total_contributions, cal.total_contributions);
    assert_eq!(back.weeks.len(), cal.weeks.len());
    for (bw, cw) in back.weeks.iter().zip(cal.weeks.iter()) {
        assert_eq!(bw.contribution_days.len(), cw.contribution_days.len());
        for (bd, cd) in bw.contribution_days.iter().zip(cw.contribution_days.iter()) {
            assert_eq!(bd.date, cd.date);
            assert_eq!(bd.contribution_count, cd.contribution_count);
            assert_eq!(bd.color, cd.color);
        }
    }
}

#[test]
fn round_trip_of_an_empty_calendar() {
    let cal = ContributionCalendar { total_contributions: 0, weeks: vec![] };
    let s = serialize_calendar(&cal);
    assert_eq!(s, "{\"totalContributions\":0,\"weeks\":[]}");
    let (back, end) = parse_calendar_at(&s, 0).expect("serialized text must parse");
    assert_eq!(end, s.chars().count());
    assert_eq!(back.total_contributions, 0);
    assert_eq!(back.weeks.len(), 0);
}

#[test]
fn large_total_survives_the_round_trip() {
    let cal = ContributionCalendar { total_contributions: u32::MAX, weeks: vec![] };
    let s = serialize_calendar(&cal);
    assert_eq!(s, "{\"totalContributions\":4294967295,\"weeks\":[]}");
    let (back, _) = parse_calendar_at(&s, 0).expect("serialized text must parse");
    assert_eq!(back.total_contributions, u32::MAX);
}

#[test]
fn number_above_u32_fails_to_parse() {
    let s = "{\"totalContributions\":4294967296,\"weeks\":[]}";
    assert!(parse_calendar_at(s, 0).is_none());
}

#[test]
fn empty_object_envelope_decodes_to_nothing() {
    let env = parse_envelope_text("{}").expect("empty object is a valid envelope");
    assert!(env.data.is_none());
    assert!(env.errors.is_none());
}

#[test]
fn trailing_garbage_is_rejected() {
    assert!(parse_envelope_text("{\"data\":null,\"errors\":null}x").is_none());
}

#[test]
fn whitespace_is_outside_the_supported_subset() {
    assert!(parse_envelope_text("{ \"data\": null, \"errors\": null }").is_none());
}
