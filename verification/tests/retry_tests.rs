use ata::retry::retry_decision;
use ata::retry::should_retry;

#[test]
fn transient_error_retries_below_ceiling() {
    let line = "{\"error\":{\"type\":\"server_error\",\"message\":\"overloaded\"}}";
    assert!(should_retry(line, 1));
    assert!(should_retry(line, 2));
    assert!(!should_retry(line, 3));
}

#[test]
fn non_json_line_never_retries() {
    assert!(!should_retry("service unavailable", 1));
    assert!(!should_retry("<html>502</html>", 1));
    assert!(!should_retry("", 1));
}

#[test]
fn other_error_kinds_do_not_retry() {
    let line = "{\"error\":{\"type\":\"invalid_request_error\",\"message\":\"bad key\"}}";
    assert!(!should_retry(line, 1));
    let no_error = "{\"status\":\"ok\"}";
    assert!(!should_retry(no_error, 1));
    let no_kind = "{\"error\":{\"message\":\"hm\"}}";
    assert!(!should_retry(no_kind, 1));
    let numeric_kind = "{\"error\":{\"type\":7}}";
    assert!(!should_retry(numeric_kind, 1));
}

#[test]
fn decision_follows_kind_and_count() {
    assert!(retry_decision(&Some("server_error".to_string()), 1));
    assert!(retry_decision(&Some("server_error".to_string()), 2));
    assert!(!retry_decision(&Some("server_error".to_string()), 3));
    assert!(!retry_decision(&Some("rate_limit".to_string()), 1));
    assert!(!retry_decision(&None, 1));
}
