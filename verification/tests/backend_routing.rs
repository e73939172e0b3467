//! The second copy of the routing surface tests, as the consuming
//! application exercises them.

use mattak::routing::parser::parse;
use mattak::routing::InnerSingle;

fn quick_route(input: &str) -> InnerSingle {
    InnerSingle::from_parsed(parse(input).unwrap())
}

#[test]
fn mod_round_trip() {
    let input = "http://example.com/user/{user_id}{?something,mysterious}";

    let route = quick_route(input);

    assert_eq!(route.template_string(), input.to_string())
}

#[test]
fn mod_prefixing() {
    let mut route = quick_route("http://example.com/user/{user_id}{?something,mysterious}");
    let prefixed = route.prefixed("/api");
    assert_eq!(
        prefixed.template_string(),
        "http://example.com/api/user/{user_id}{?something,mysterious}".to_string()
    )
}

#[test]
fn mod_axum_routes() {
    let rc = quick_route("/api/event/{event_id}");
    assert_eq!(rc.axum_route(), "/api/event/:event_id".to_string());
}

#[test]
fn mod_regex() {
    let route = quick_route(
        "http://{domain}/user/{user_id}/file{/file_id}?something={good}{&mysterious}",
    );
    assert_eq!(
        route.re_str(),
        "http://(?<domain>[^/,]*)/user/(?<user_id>[^/?#,]*)/file/(?<file_id>[^/?#/]*)[?#]?.*"
    );
}
