use github_win_app::color::{decode_color, Rgb};
use github_win_app::fetch::{classify_response, transport_failure, FetchCoordinator, FetchState};

const FULL_ENVELOPE: &str = "{\"data\":{\"user\":{\"contributionsCollection\":{\"contributionCalendar\":{\"totalContributions\":5,\"weeks\":[{\"contributionDays\":[{\"date\":\"2024-01-01\",\"contributionCount\":5,\"color\":\"#40c463\"}]}]}}}},\"errors\":null}";

#[test]
fn full_envelope_reaches_succeeded_state() {
    let r = classify_response(FULL_ENVELOPE.to_string());
    let mut c = FetchCoordinator::new();
    c.apply_result(r);
    match c.state {
        FetchState::Succeeded(cal) => {
            assert_eq!(cal.total_contributions, 5);
            assert_eq!(cal.weeks.len(), 1);
            assert_eq!(cal.weeks[0].contribution_days.len(), 1);
            let day = &cal.weeks[0].contribution_days[0];
            assert_eq!(day.date, "2024-01-01");
            assert_eq!(day.contribution_count, 5);
            assert_eq!(day.color, "#40c463");
            assert_eq!(decode_color(&day.color), Rgb { r: 64, g: 196, b: 99 });
        }
        _ => panic!("expected Succeeded"),
    }
    assert_eq!(c.raw_log.as_deref(), Some(FULL_ENVELOPE));
}

#[test]
fn total_is_taken_verbatim_from_the_envelope() {
    let text = "{\"data\":{\"user\":{\"contributionsCollection\":{\"contributionCalendar\":{\"totalContributions\":123,\"weeks\":[{\"contributionDays\":[{\"date\":\"2024-01-01\",\"contributionCount\":1,\"color\":\"#ebedf0\"}]}]}}}},\"errors\":null}";
    match classify_response(text.to_string()) {
        Ok((cal, raw)) => {
            // the reported aggregate, not the sum of the day counts
            assert_eq!(cal.total_contributions, 123);
            assert_eq!(raw, text);
        }
        Err(e) => panic!("expected success, got {}", e),
    }
}

#[test]
fn errors_take_precedence_over_data() {
    let text = "{\"data\":{\"user\":{\"contributionsCollection\":{\"contributionCalendar\":{\"totalContributions\":5,\"weeks\":[]}}}},\"errors\":[{\"message\":\"boom\"},{\"message\":\"bad token\"}]}";
    match classify_response(text.to_string()) {
        Err(m) => {
            assert_eq!(m, "API errors: [\"boom\", \"bad token\"]");
            assert!(m.contains("boom"));
            assert!(m.contains("bad token"));
        }
        Ok(_) => panic!("errors must win over data"),
    }
}

#[test]
fn reported_errors_become_failed_state() {
    let text = "{\"data\":null,\"errors\":[{\"message\":\"rate limited\"}]}";
    let r = classify_response(text.to_string());
    let mut c = FetchCoordinator::new();
    c.apply_result(r);
    match &c.state {
        FetchState::Failed(m) => {
            assert_eq!(m, "API errors: [\"rate limited\"]");
        }
        _ => panic!("expected Failed"),
    }
    assert!(c.raw_log.is_none());
}

#[test]
fn empty_errors_list_does_not_fail_classification() {
    let text = "{\"data\":null,\"errors\":[]}";
    match classify_response(text.to_string()) {
        Err(m) => assert_eq!(m, "No data returned"),
        Ok(_) => panic!("no data was present"),
    }
}

#[test]
fn null_user_reports_no_user_data() {
    let text = "{\"data\":{\"user\":null},\"errors\":null}";
    match classify_response(text.to_string()) {
        Err(m) => assert_eq!(m, "No user data returned"),
        Ok(_) => panic!("no user was present"),
    }
}

#[test]
fn null_data_reports_no_data() {
    let text = "{\"data\":null,\"errors\":null}";
    match classify_response(text.to_string()) {
        Err(m) => assert_eq!(m, "No data returned"),
        Ok(_) => panic!("no data was present"),
    }
}

#[test]
fn errors_first_member_order_is_accepted() {
    let text = "{\"errors\":[{\"message\":\"oops\"}],\"data\":null}";
    match classify_response(text.to_string()) {
        Err(m) => assert_eq!(m, "API errors: [\"oops\"]"),
        Ok(_) => panic!("errors must fail the fetch"),
    }
}

#[test]
fn malformed_text_is_a_parse_error() {
    let text = "not json at all";
    match classify_response(text.to_string()) {
        Err(m) => assert!(m.starts_with("JSON parse error")),
        Ok(_) => panic!("malformed text must not succeed"),
    }
}

#[test]
fn truncated_envelope_is_a_parse_error() {
    let text = "{\"data\":{\"user\":null},\"errors\":null";
    match classify_response(text.to_string()) {
        Err(m) => assert!(m.starts_with("JSON parse error")),
        Ok(_) => panic!("truncated text must not succeed"),
    }
}

#[test]
fn transport_failure_keeps_the_details() {
    let m = transport_failure("connection refused");
    assert_eq!(m, "Request error: connection refused");
}

#[test]
fn trigger_moves_idle_to_in_flight() {
    let mut c = FetchCoordinator::new();
    assert!(matches!(c.state, FetchState::Idle));
    let req = c.trigger("octocat");
    assert!(req.is_some());
    assert!(matches!(c.state, FetchState::InFlight));
}

#[test]
fn trigger_while_in_flight_is_a_no_op() {
    let mut c = FetchCoordinator::new();
    let first = c.trigger("octocat");
    assert!(first.is_some());
    let second = c.trigger("octocat");
    assert!(second.is_none());
    assert!(matches!(c.state, FetchState::InFlight));
}

#[test]
fn terminal_states_can_be_retriggered() {
    let mut c = FetchCoordinator::new();
    let _ = c.trigger("octocat");
    c.apply_result(Err("Request error: timeout".to_string()));
    assert!(matches!(c.state, FetchState::Failed(_)));
    let req = c.trigger("octocat");
    assert!(req.is_some());
    assert!(matches!(c.state, FetchState::InFlight));
}
