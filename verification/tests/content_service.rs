use dodeca::content_service::{
    content_route, edit_shell_denied, hex, knowledge_k, parse_coverage_endpoint, parse_query_string,
    parse_usize, percent_decode, query_param, strip_coverage_suffix, ContentRoute,
    CoverageEndpoint, CoverageOutputFormat,
};

#[test]
fn hex_digits() {
    assert_eq!(hex(b'0'), Some(0));
    assert_eq!(hex(b'9'), Some(9));
    assert_eq!(hex(b'a'), Some(10));
    assert_eq!(hex(b'F'), Some(15));
    assert_eq!(hex(b'g'), None);
}

#[test]
fn percent_decoding() {
    assert_eq!(percent_decode("foo+bar"), "foo bar");
    assert_eq!(percent_decode("a%20b%2Fc"), "a b/c");
    assert_eq!(percent_decode("100%"), "100%");
    assert_eq!(percent_decode("%4"), "%4");
    assert_eq!(percent_decode("%zz"), "%zz");
    assert_eq!(percent_decode("caf%C3%A9"), "café");
    assert_eq!(percent_decode("%FF"), "\u{FFFD}");
}

#[test]
fn query_strings_parse_into_decoded_pairs() {
    let params = parse_query_string("?q=foo+bar&k=5&&flag&q=last");
    assert_eq!(params.len(), 4);
    assert_eq!(params[0], ("q".to_string(), "foo bar".to_string()));
    assert_eq!(params[2], ("flag".to_string(), "".to_string()));
    assert_eq!(query_param(&params, "q"), Some("last"));
    assert_eq!(query_param(&params, "k"), Some("5"));
    assert_eq!(query_param(&params, "nope"), None);
    assert!(parse_query_string("").is_empty());
}

#[test]
fn usize_parsing_follows_std() {
    assert_eq!(parse_usize("42"), Some(42));
    assert_eq!(parse_usize("+7"), Some(7));
    assert_eq!(parse_usize(""), None);
    assert_eq!(parse_usize("+"), None);
    assert_eq!(parse_usize("-1"), None);
    assert_eq!(parse_usize("1x"), None);
    assert_eq!(parse_usize("99999999999999999999999"), None);
    assert_eq!(parse_usize("18446744073709551615"), Some(usize::MAX));
}

#[test]
fn knowledge_k_is_clamped() {
    assert_eq!(knowledge_k(&parse_query_string("k=0"), 8), 1);
    assert_eq!(knowledge_k(&parse_query_string("k=500"), 8), 50);
    assert_eq!(knowledge_k(&parse_query_string("k=x"), 8), 8);
    assert_eq!(knowledge_k(&parse_query_string(""), 10), 10);
    assert_eq!(knowledge_k(&parse_query_string("k=12"), 10), 12);
}

#[test]
fn coverage_paths() {
    match strip_coverage_suffix("status.json") {
        Some((p, f)) => {
            assert_eq!(p, "status");
            assert_eq!(f, CoverageOutputFormat::Json);
        }
        None => panic!("expected a suffix"),
    }
    assert!(strip_coverage_suffix("status").is_none());
    match parse_coverage_endpoint("rule/rule/a%2Eb.md?source=wiki&impl=rust") {
        Some((CoverageEndpoint::Rule { id }, f, sel)) => {
            assert_eq!(id, "a.b");
            assert_eq!(f, CoverageOutputFormat::Markdown);
            assert_eq!(sel.source.as_deref(), Some("wiki"));
            assert_eq!(sel.impl_name.as_deref(), Some("rust"));
        }
        _ => panic!("expected a rule endpoint"),
    }
    match parse_coverage_endpoint("validate.json?threshold=80") {
        Some((CoverageEndpoint::Validate { threshold }, _, _)) => {
            assert_eq!(threshold.as_deref(), Some("80"))
        }
        _ => panic!("expected a validate endpoint"),
    }
    assert!(parse_coverage_endpoint("bogus.json").is_none());
    assert!(parse_coverage_endpoint("status.txt").is_none());
}

#[test]
fn request_paths_route_to_endpoints() {
    assert!(matches!(content_route("/_dodeca/status", false, false), ContentRoute::StatusPage));
    match content_route("/_dodeca/status", true, false) {
        ContentRoute::LoginRedirect { location } => {
            assert_eq!(location, "/oauth2/start?rd=/_dodeca/status")
        }
        _ => panic!("expected a login redirect"),
    }
    assert!(matches!(content_route("/_dodeca/status", true, true), ContentRoute::StatusPage));
    assert!(matches!(content_route("/_dodeca/edit-token", true, false), ContentRoute::EditToken));
    match content_route("/_dodeca/knowledge/search?q=a+b&k=3", false, false) {
        ContentRoute::KnowledgeSearch { query, k } => {
            assert_eq!(query, "a b");
            assert_eq!(k, 3);
        }
        _ => panic!("expected a search"),
    }
    match content_route("/_dodeca/knowledge/graph?route=/x&format=json", false, false) {
        ContentRoute::KnowledgeGraph { route, k, json } => {
            assert_eq!(route, "/x");
            assert_eq!(k, 10);
            assert!(json);
        }
        _ => panic!("expected a graph"),
    }
    match content_route("/_dodeca/knowledge/related", false, false) {
        ContentRoute::KnowledgeRelated { route, k } => {
            assert_eq!(route, "");
            assert_eq!(k, 8);
        }
        _ => panic!("expected related pages"),
    }
    assert!(matches!(
        content_route("/_dodeca/annotations.html", false, false),
        ContentRoute::AnnotationsHtml
    ));
    assert!(matches!(
        content_route("/_dodeca/annotations.json", false, false),
        ContentRoute::AnnotationsJson
    ));
    assert!(matches!(
        content_route("/_dodeca/coverage/nope", false, false),
        ContentRoute::NotFound
    ));
    match content_route("/_dodeca/edit///guide", false, false) {
        ContentRoute::EditShell { route } => assert_eq!(route, "/guide"),
        _ => panic!("expected the editor"),
    }
    match content_route("/_dodeca/pull/", false, false) {
        ContentRoute::Pull { name } => assert_eq!(name, None),
        _ => panic!("expected a pull"),
    }
    match content_route("/_dodeca/pull/wiki", false, false) {
        ContentRoute::Pull { name } => assert_eq!(name.as_deref(), Some("wiki")),
        _ => panic!("expected a pull"),
    }
    assert!(matches!(content_route("/guide/", false, false), ContentRoute::Other));
    assert!(matches!(edit_shell_denied("/_dodeca/edit/x", false, false), ContentRoute::NotFound));
    assert!(matches!(
        edit_shell_denied("/_dodeca/edit/x", true, false),
        ContentRoute::LoginRedirect { .. }
    ));
}
