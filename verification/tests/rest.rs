use snarkvm_kit::rest::{
    after_call, answered_failure, async_outcome, block_height_route, body_kind, fetch_failure, program_route,
    state_path_route, state_paths_route, state_root_route, transaction_route, unreadable_body, Attempt, BodyKind,
    CallAction, CallOutcome, ErrorBody, RestError, RestQuery, Timeouts, UriParts, UrlError,
};

const SECOND: u128 = 1_000_000_000;

fn query(url: &str) -> RestQuery {
    match RestQuery::from_str(url) {
        Ok(query) => query,
        Err(error) => panic!("{}", error.message()),
    }
}

fn refusal(url: &str) -> UrlError {
    match RestQuery::from_str(url) {
        Ok(_) => panic!("{url} was accepted"),
        Err(error) => error,
    }
}

/// An empty path is written as `/`, and no second slash is put behind an existing one.
#[test]
fn test_rest_url_parse() {
    let noslash = "http://localhost:3030";
    let withslash = format!("{noslash}/");
    let route = "some/route";

    let rest = query(noslash);
    assert_eq!(rest.path_and_query().unwrap(), "/");
    assert_eq!(rest.base_url(), withslash);
    assert_eq!(rest.build_endpoint("testnet", route).unwrap(), format!("{noslash}/testnet/{route}"));

    let rest = query(&withslash);
    assert_eq!(rest.path_and_query().unwrap(), "/");
    assert_eq!(rest.base_url(), withslash);
    assert_eq!(rest.build_endpoint("testnet", route).unwrap(), format!("{noslash}/testnet/{route}"));
}

#[test]
fn test_rest_url_with_colon_parse() {
    let str = "http://myendpoint.addr/:var/foo/bar";
    let rest = query(str);
    assert_eq!(rest.base_url(), format!("{str}"));
    assert_eq!(rest.path_and_query().unwrap(), "/:var/foo/bar");
}

#[test]
fn test_rest_url_parse_with_suffix() {
    let base = "http://localhost:3030/a/prefix/v2";
    let route = "a/route";

    // Test without trailing slash.
    let rest = query(base);
    assert_eq!(rest.build_endpoint("testnet", route).unwrap(), format!("{base}/testnet/{route}"));

    // Set again with trailing slash.
    let rest = query(&format!("{base}/"));
    assert_eq!(rest.build_endpoint("testnet", route).unwrap(), format!("{base}/testnet/{route}"));
}

#[test]
fn urls_that_are_no_base() {
    // The reason is the parser's own.
    for text in ["", "http://", "a b"] {
        let reason = text.parse::<ureq::http::Uri>().err().unwrap().to_string();
        assert_eq!(refusal(text), UrlError::Unparsable(reason));
    }
    assert_eq!(refusal("ftp://localhost"), UrlError::InvalidScheme("ftp".to_string()));
    assert_eq!(refusal("/just/a/path"), UrlError::NoHost);
    assert_eq!(refusal("http://localhost/?a=b"), UrlError::HasQuery);
    assert_eq!(refusal("http://:80"), UrlError::EmptyHost);
    // The scheme is looked at first.
    assert_eq!(refusal("ftp://localhost/?a=b"), UrlError::InvalidScheme("ftp".to_string()));
    query("https://example.org");
    query("HTTP://example.org");
    query("localhost:3030");
}

#[test]
fn an_authority_alone_gets_a_slash() {
    let rest = query("localhost:3030");
    assert_eq!(rest.build_endpoint("mainnet", "r").unwrap(), "localhost:3030/mainnet/r");
}

#[test]
fn parsed_parts_are_judged_one_by_one() {
    let parts = |scheme: Option<&str>, host: Option<&str>, query: Option<&str>| UriParts {
        text: "t".to_string(),
        scheme: scheme.map(|s| s.to_string()),
        host: host.map(|s| s.to_string()),
        path: "/".to_string(),
        query: query.map(|s| s.to_string()),
        path_and_query: None,
    };
    assert!(RestQuery::from_parts(parts(Some("https"), Some("h"), None)).is_ok());
    assert!(RestQuery::from_parts(parts(None, Some("h"), None)).is_ok());
    assert_eq!(RestQuery::from_parts(parts(Some("http"), Some(""), None)).err(), Some(UrlError::EmptyHost));
    assert_eq!(RestQuery::from_parts(parts(Some("http"), None, Some("q"))).err(), Some(UrlError::NoHost));
    assert_eq!(RestQuery::from_parts(parts(Some("http"), Some("h"), Some(""))).err(), Some(UrlError::HasQuery));
}

#[test]
fn errors_have_their_messages() {
    assert_eq!(UrlError::Unparsable("r".to_string()).message(), "Failed to parse URL");
    assert_eq!(UrlError::InvalidScheme("x".to_string()).message(), "Invalid scheme in URL: x");
    assert_eq!(UrlError::EmptyHost.message(), "Invalid URL for REST endpoint. Empty hostname given.");
    assert_eq!(UrlError::NoHost.message(), "Invalid URL for REST endpoint. No hostname given.");
    assert_eq!(UrlError::HasQuery.message(), "Base URL for REST endpoints cannot contain a query");
    assert_eq!(UrlError::AbsoluteRoute.message(), "path cannot start with a slash");
}

#[test]
fn routes_cannot_start_with_a_slash() {
    let rest = query("http://localhost");
    assert_eq!(rest.build_endpoint("testnet", "/route"), Err(UrlError::AbsoluteRoute));
    assert_eq!(rest.build_endpoint("testnet", "").unwrap(), "http://localhost/testnet/");
}

#[test]
fn bounds_default_and_can_be_set() {
    let rest = query("http://localhost");
    assert_eq!(rest.timeouts(), Timeouts { connect: 10 * SECOND, stall: 30 * SECOND, total: 300 * SECOND });
    let rest = rest.with_timeouts(1, 2, 3);
    assert_eq!(rest.timeouts(), Timeouts { connect: 1, stall: 2, total: 3 });
    assert_eq!(rest.base_url(), "http://localhost/");
}

#[test]
fn routes_of_the_api() {
    assert_eq!(state_root_route(), "stateRoot/latest");
    assert_eq!(block_height_route(), "block/height/latest");
    assert_eq!(state_path_route("1field"), "statePath/1field");
    assert_eq!(transaction_route("at1xyz"), "transaction/at1xyz");
    assert_eq!(program_route("credits.aleo"), "program/credits.aleo");
    assert_eq!(state_paths_route(&[]), None);
    let list = ["1field".to_string()];
    assert_eq!(state_paths_route(&list).unwrap(), "statePaths?commitments=1field");
    let list = ["1field".to_string(), "2field".to_string(), "3field".to_string()];
    assert_eq!(state_paths_route(&list).unwrap(), "statePaths?commitments=1field,2field,3field");
}

#[test]
fn a_lost_request_is_asked_again_once() {
    let total = Some(10 * SECOND);
    assert_eq!(
        after_call(Attempt::First, CallOutcome::Lost, total, 4 * SECOND),
        CallAction::AskAgain(Some(6 * SECOND))
    );
    assert_eq!(after_call(Attempt::First, CallOutcome::Lost, total, 11 * SECOND), CallAction::AskAgain(Some(0)));
    assert_eq!(after_call(Attempt::First, CallOutcome::Lost, None, SECOND), CallAction::AskAgain(None));
    assert_eq!(after_call(Attempt::Second, CallOutcome::Lost, total, SECOND), CallAction::Finish);
    assert_eq!(after_call(Attempt::First, CallOutcome::Failed, total, SECOND), CallAction::Finish);
    assert_eq!(after_call(Attempt::First, CallOutcome::Answered, total, SECOND), CallAction::Finish);
}

#[test]
fn bounds_and_connections_are_no_lost_requests() {
    assert_eq!(async_outcome(true, false, false), CallOutcome::Lost);
    assert_eq!(async_outcome(true, true, false), CallOutcome::Failed);
    assert_eq!(async_outcome(true, false, true), CallOutcome::Failed);
    assert_eq!(async_outcome(false, false, false), CallOutcome::Failed);
}

#[test]
fn bodies_are_told_by_status_and_content_type() {
    assert_eq!(body_kind(true, None), BodyKind::Value);
    assert_eq!(body_kind(true, Some("text/plain")), BodyKind::Value);
    assert_eq!(body_kind(false, Some("application/json; charset=utf-8")), BodyKind::JsonError);
    assert_eq!(body_kind(false, Some("json")), BodyKind::JsonError);
    assert_eq!(body_kind(false, Some("text/plain")), BodyKind::TextError);
    assert_eq!(body_kind(false, Some("jso")), BodyKind::TextError);
    assert_eq!(body_kind(false, Some("application/JSON")), BodyKind::TextError);
    assert_eq!(body_kind(false, None), BodyKind::TextError);
}

fn chain_of(error: &anyhow::Error) -> Vec<String> {
    error.chain().map(|cause| cause.to_string()).collect()
}

fn rest_error(chain: &[&str]) -> RestError {
    RestError {
        error_type: "not_found".to_string(),
        message: "no such block".to_string(),
        chain: chain.iter().map(|s| s.to_string()).collect(),
    }
}

#[test]
fn rest_errors_become_error_chains() {
    assert_eq!(chain_of(&rest_error(&[]).parse()), ["not_found: no such block"]);
    assert_eq!(chain_of(&rest_error(&["a", "b", "c"]).parse()), ["not_found: no such block", "c", "b", "a"]);
}

#[test]
fn answered_errors_name_the_endpoint() {
    let error = answered_failure("http://n/x", ErrorBody::Json(rest_error(&["a"])));
    assert_eq!(chain_of(&error), ["Failed to fetch from http://n/x", "not_found: no such block", "a"]);
    let error = answered_failure("http://n/x", ErrorBody::Text("gone".to_string()));
    assert_eq!(chain_of(&error), ["Failed to fetch from http://n/x", "gone"]);
}

#[test]
fn messages_name_the_endpoint() {
    assert_eq!(fetch_failure("e"), "Failed to fetch from e");
    assert_eq!(unreadable_body("e", BodyKind::Value), "Failed to parse JSON response from e");
    assert_eq!(unreadable_body("e", BodyKind::JsonError), "Failed to parse JSON error response from e");
    assert_eq!(unreadable_body("e", BodyKind::TextError), "Failed to read error message e");
}

#[test]
fn a_trailing_slash_changes_no_endpoint() {
    for base in ["http://localhost", "https://localhost:3030", "http://localhost/a", "https://h/a/b:c"] {
        let expected = format!("{base}/testnet/r");
        let plain = query(base);
        let slashed = query(&format!("{base}/"));
        assert_eq!(plain.build_endpoint("testnet", "r").unwrap(), expected);
        assert_eq!(slashed.clone().build_endpoint("testnet", "r").unwrap(), expected);
    }
}

#[test]
fn url_errors_become_error_chains() {
    let reason = "".parse::<ureq::http::Uri>().err().unwrap().to_string();
    assert_eq!(chain_of(&refusal("").into_error()), ["Failed to parse URL".to_string(), reason]);
    assert_eq!(
        chain_of(&refusal("/path").into_error()),
        ["Invalid URL for REST endpoint. No hostname given."]
    );
}
