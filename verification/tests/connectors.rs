use subgraph_extraction::connectors::{
    aggregate_apply_to_errors, debugging_enabled, request_debugging_enabled, select_connector,
    ApplyError,
    ConnectorContext, ConnectorDebugHttpRequest, ErrorGroup,
};

fn error(message: &str, path: &str) -> ApplyError {
    ApplyError { message: message.to_string(), path: path.to_string() }
}

fn group(message: &str, path: &str, count: usize) -> ErrorGroup {
    ErrorGroup { message: message.to_string(), path: path.to_string(), count }
}

#[test]
fn debugging_is_switched_on_by_configuration_or_environment() {
    assert!(debugging_enabled(true, None));
    assert!(debugging_enabled(true, Some("false")));
    assert!(debugging_enabled(false, Some("true")));
    assert!(!debugging_enabled(false, Some("TRUE")));
    assert!(!debugging_enabled(false, Some("")));
    assert!(!debugging_enabled(false, None));
}

#[test]
fn a_request_is_debugged_where_debugging_is_on_and_the_header_says_so() {
    assert!(request_debugging_enabled(true, Some("true")));
    assert!(!request_debugging_enabled(false, Some("true")));
    assert!(!request_debugging_enabled(true, Some("1")));
    assert!(!request_debugging_enabled(true, None));
}

#[test]
fn errors_that_follow_one_another_are_counted_together() {
    assert_eq!(aggregate_apply_to_errors(&vec![]), vec![]);
    assert_eq!(
        aggregate_apply_to_errors(&vec![
            error("m", "a"),
            error("m", "a"),
            error("m", "b"),
            error("n", "b"),
            error("m", "a"),
            error("m", "a"),
            error("m", "a"),
        ]),
        vec![group("m", "a", 2), group("m", "b", 1), group("n", "b", 1), group("m", "a", 3)]
    );
}

#[test]
fn the_record_gathers_requests_responses_and_selections() {
    let mut context = ConnectorContext::new();
    assert_eq!(context.complete_entries(), 0);
    for url in ["http://a/1", "http://a/2", "http://a/3"] {
        context.push_request(ConnectorDebugHttpRequest {
            url: url.to_string(),
            method: "GET".to_string(),
            headers: vec![("accept".to_string(), "*/*".to_string())],
            body: None,
        });
    }
    context.push_response(200, vec![], "{\"a\":1}".to_string());
    assert_eq!(context.complete_entries(), 0);
    context.push_mapping(
        "a".to_string(),
        Some("1".to_string()),
        vec![error("m", "p"), error("m", "p")],
    );
    assert_eq!(context.complete_entries(), 1);
    context.push_invalid_response(502, vec![("x".to_string(), "y".to_string())], "\"oops\"".to_string());
    assert_eq!(context.complete_entries(), 2);
    assert_eq!(context.responses[0].body.kind, "json");
    assert_eq!(context.responses[0].body.content, "{\"a\":1}");
    assert_eq!(context.responses[1].status, 502);
    assert_eq!(context.responses[1].body.kind, "invalid");
    assert_eq!(context.selections.len(), 2);
    let first = context.selections[0].as_ref().expect("a selection was applied");
    assert_eq!(first.source, "a");
    assert_eq!(first.result, Some("1".to_string()));
    assert_eq!(first.errors, vec![group("m", "p", 2)]);
    assert!(context.selections[1].is_none());
}

#[test]
fn a_request_needs_a_connector_and_a_client() {
    assert_eq!(select_connector(Some(1u8), Some("h")), Ok((1u8, "h")));
    assert_eq!(select_connector(None::<u8>, Some("h")), Err("no connector found".to_string()));
    assert_eq!(select_connector(None::<u8>, None::<&str>), Err("no connector found".to_string()));
    assert_eq!(select_connector(Some(1u8), None::<&str>), Err("no http client found".to_string()));
}
