use github_win_app::query::{build_query, json_escape, request_body};

#[test]
fn query_document_embeds_the_login() {
    let q = build_query("octocat");
    assert_eq!(
        q,
        "{ user(login: \"octocat\") { contributionsCollection { contributionCalendar { totalContributions weeks { contributionDays { date contributionCount color } } } } } }"
    );
}

#[test]
fn body_wraps_the_escaped_document() {
    let body = request_body("octocat");
    let expected = format!(
        "{{\"query\":\"{}\"}}",
        build_query("octocat").replace('\\', "\\\\").replace('"', "\\\"")
    );
    assert_eq!(body, expected);
    assert!(body.starts_with("{\"query\":\"{ user(login: \\\"octocat\\\")"));
    assert!(body.ends_with("\"}"));
}

#[test]
fn escape_handles_quotes_and_backslashes() {
    assert_eq!(json_escape("plain"), "plain");
    assert_eq!(json_escape("a\"b"), "a\\\"b");
    assert_eq!(json_escape("a\\b"), "a\\\\b");
    assert_eq!(json_escape(""), "");
    assert_eq!(json_escape("\"\\\""), "\\\"\\\\\\\"");
}

#[test]
fn hostile_login_stays_inside_the_json_string() {
    // the document level is a known injection surface; the body level
    // still escapes whatever the document holds
    let body = request_body("x\") { viewer { login } } #");
    assert!(body.contains("x\\\")"));
    let expected = format!(
        "{{\"query\":\"{}\"}}",
        build_query("x\") { viewer { login } } #").replace('\\', "\\\\").replace('"', "\\\"")
    );
    assert_eq!(body, expected);
}
