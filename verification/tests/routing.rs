//! Tests of the template engine's derived artifacts: canonical strings,
//! prefixing, dispatch patterns, regexes, extraction and fills.

use mattak::routing::de::parse_u16;
use mattak::routing::fill::{FillPolicy, VarsList};
use mattak::routing::parser::parse;
use mattak::routing::{InnerSingle, Registry, RouteTemplate, route_config};
use mattak::Error;

fn quick_route(input: &str) -> InnerSingle {
    InnerSingle::from_parsed(parse(input).unwrap())
}

fn vars(pairs: &[(&str, &str)]) -> VarsList {
    VarsList(pairs.iter().map(|(k, v)| (k.to_string(), v.to_string())).collect())
}

#[test]
fn round_trip() {
    let input = "http://example.com/user/{user_id}{?something,mysterious}";

    let route = quick_route(input);

    assert_eq!(route.template_string(), input.to_string())
}

#[test]
fn prefixing() {
    let mut route = quick_route("http://example.com/user/{user_id}{?something,mysterious}");
    let prefixed = route.prefixed("/api");
    assert_eq!(
        prefixed.template_string(),
        "http://example.com/api/user/{user_id}{?something,mysterious}".to_string()
    )
}

#[test]
fn partial_fill() {
    let route = quick_route("http://example.com{/something,mysterious}/user{/user_id}");
    let vars = vars(&[("something", "S"), ("mysterious", "M")]);
    let tmpl_r = route.partial_fill(&vars);
    let tmpl = tmpl_r.unwrap();
    assert_eq!(tmpl, "http://example.com/S/M/user{/user_id}".to_string())
}

#[test]
fn axum_routes() {
    let rc = quick_route("/api/event/{event_id}");
    assert_eq!(rc.axum_route(), "/api/event/:event_id".to_string());
}

#[test]
fn regex() {
    let route = quick_route(
        "http://{domain}/user/{user_id}/file{/file_id}?something={good}{&mysterious}",
    );
    assert_eq!(
        route.re_str(),
        "http://(?<domain>[^/,]*)/user/(?<user_id>[^/?#,]*)/file/(?<file_id>[^/?#/]*)[?#]?.*"
    );
}

#[test]
fn extraction() {
    let route = quick_route(
        "http://{domain}/user/{user_id}/file{/file_id}?something={good}{&mysterious}",
    );
    let uri = "http://example.com/user/me@nowhere.org/file/17?something=weird&mysterious=100";
    let caps = route.extract(uri).unwrap();
    assert_eq!(
        (
            caps[0].1.clone(),
            caps[1].1.clone(),
            parse_u16(&caps[2].1).unwrap(),
        ),
        ("example.com".to_string(), "me@nowhere.org".to_string(), 17)
    );
}

#[test]
fn extraction_errors() {
    let route = quick_route(
        "http://{domain}/user/{user_id}/file{/file_id}?something={good}{&mysterious}",
    );
    let uri = "http://example.com/user/me@nowhere.org/file?something=weird&mysterious=100";
    assert!(matches!(route.extract(uri), Err(Error::NoMatch(_, _))));
}

#[test]
fn extraction_names_and_order() {
    let route = quick_route(
        "http://{domain}/user/{user_id}/file{/file_id}?something={good}{&mysterious}",
    );
    let uri = "http://example.com/user/me@nowhere.org/file/17?something=weird";
    let caps = route.extract(uri).unwrap();
    let names: Vec<&str> = caps.iter().map(|(k, _)| k.as_str()).collect();
    assert_eq!(names, vec!["domain", "user_id", "file_id"]);
}

#[test]
fn extraction_percent_decodes() {
    let route = quick_route("http://{domain}/user/{user_id}/file{/file_id}");
    let uri = "http://example.com/user/me%40nowhere.org/file/17";
    let caps = route.extract(uri).unwrap();
    assert_eq!(caps[1], ("user_id".to_string(), "me@nowhere.org".to_string()));
}

#[test]
fn fill_requires_all_variables() {
    let route = quick_route("/user/{user_id}");
    let err = route.fill(&vars(&[])).unwrap_err();
    assert_eq!(err, Error::MissingCaptures(vec!["user_id".to_string()]));
}

#[test]
fn fill_expands_exactly() {
    let route = quick_route("http://example.com/user/{user_id}{?something,mysterious}");
    let filled = route
        .fill(&vars(&[("user_id", "me"), ("something", "a"), ("mysterious", "b")]))
        .unwrap();
    assert_eq!(filled, "http://example.com/user/me?something=a&mysterious=b".to_string());
}

#[test]
fn fill_percent_encodes_values() {
    let route = quick_route("/user/{user_id}");
    let filled = route.fill(&vars(&[("user_id", "a b/c")])).unwrap();
    assert_eq!(filled, "/user/a%20b%2Fc".to_string());
}

#[test]
fn relaxed_fill_ignores_missing_and_extra() {
    let route = quick_route("/user/{user_id}");
    let filled = route
        .fill_uritemplate(FillPolicy::Relaxed, &vars(&[("bonus", "x")]))
        .unwrap();
    assert_eq!(filled, "/user/".to_string());
}

#[test]
fn strict_fill_rejects_extras() {
    let route = quick_route("/user/{user_id}");
    let err = route
        .fill_uritemplate(FillPolicy::Strict, &vars(&[("user_id", "me"), ("bonus", "x")]))
        .unwrap_err();
    assert_eq!(err, Error::ExtraCaptures(vec!["bonus".to_string()]));
}

#[test]
fn fill_prefix_modifier_truncates() {
    let route = quick_route("/docs/{title:3}");
    let filled = route.fill(&vars(&[("title", "template")])).unwrap();
    assert_eq!(filled, "/docs/tem".to_string());
}

#[test]
fn reserved_truncation_counts_percent_triples_once() {
    let route = quick_route("/x/{+p:1}");
    assert_eq!(route.fill(&vars(&[("p", "%41b")])).unwrap(), "/x/%41".to_string());
    assert_eq!(route.fill(&vars(&[("p", "ab")])).unwrap(), "/x/a".to_string());
    let route = quick_route("/x/{+p:2}");
    assert_eq!(route.fill(&vars(&[("p", "%zzz")])).unwrap(), "/x/%25z".to_string());
    assert_eq!(route.fill(&vars(&[("p", "a%41b")])).unwrap(), "/x/a%41".to_string());
}

#[test]
fn fill_then_extract_inverts() {
    let route = quick_route("http://{domain}/user/{user_id}/file{/file_id}");
    let given = vars(&[
        ("domain", "example.com"),
        ("user_id", "me@nowhere.org"),
        ("file_id", "17"),
    ]);
    let uri = route.fill(&given).unwrap();
    let caps = route.extract(&uri).unwrap();
    assert_eq!(
        caps,
        vec![
            ("domain".to_string(), "example.com".to_string()),
            ("user_id".to_string(), "me@nowhere.org".to_string()),
            ("file_id".to_string(), "17".to_string()),
        ]
    );
}

#[test]
fn fill_path_parameter_forms() {
    let route = quick_route("/map{;x}");
    assert_eq!(route.fill(&vars(&[("x", "")])).unwrap(), "/map;x".to_string());
    assert_eq!(route.fill(&vars(&[("x", "1")])).unwrap(), "/map;x=1".to_string());
}

#[test]
fn fill_label_joins_with_dots() {
    let route = quick_route("/host{.a,b}");
    let filled = route.fill(&vars(&[("a", "www"), ("b", "example")])).unwrap();
    assert_eq!(filled, "/host.www.example".to_string());
}

#[test]
fn fill_reserved_passes_reserved_characters() {
    let route = quick_route("/x/{+p}");
    assert_eq!(route.fill(&vars(&[("p", "a/b")])).unwrap(), "/x/a/b".to_string());
    assert_eq!(route.fill(&vars(&[("p", "a%2Fb")])).unwrap(), "/x/a%2Fb".to_string());
    assert_eq!(route.fill(&vars(&[("p", "a%zz")])).unwrap(), "/x/a%25zz".to_string());
}

#[test]
fn fill_fragment_after_path() {
    let route = quick_route("/x{#f}");
    assert_eq!(route.fill(&vars(&[("f", "v")])).unwrap(), "/x#v".to_string());
}

#[test]
fn partial_fill_alternates_runs() {
    let route = quick_route("/t{/a,b,c}");
    let filled = route.partial_fill(&vars(&[("a", "A"), ("c", "C")])).unwrap();
    assert_eq!(filled, "/t/A{/b}/C".to_string());
}

#[test]
fn partial_fill_without_values_keeps_the_template() {
    let route = quick_route("/user/{user_id}{?q}");
    let filled = route.partial_fill(&vars(&[])).unwrap();
    assert_eq!(filled, "/user/{user_id}{?q}".to_string());
}

#[test]
fn partial_fill_encodes_for_uris_while_fill_keeps_iri_characters() {
    let route = quick_route("/n{/name}");
    let partial = route.partial_fill(&vars(&[("name", "\u{e4}")])).unwrap();
    assert_eq!(partial, "/n/%C3%A4".to_string());
    let full = route.fill(&vars(&[("name", "\u{e4}")])).unwrap();
    assert_eq!(full, "/n/\u{e4}".to_string());
}

#[test]
fn prefixed_variants_are_cached() {
    let mut route = quick_route("/event/{event_id}");
    let first = route.prefixed("/api");
    let again = route.prefixed("/api");
    assert_eq!(route.prefixes.len(), 1);
    assert_eq!(first.template_string(), again.template_string());
}

#[test]
fn prefixing_twice_stacks_prefixes() {
    let mut route = quick_route("/user/{user_id}");
    let mut once = route.prefixed("/api");
    let twice = once.prefixed("/api");
    assert_eq!(twice.template_string(), "/api/api/user/{user_id}".to_string());
}

#[test]
fn hydra_type_distinguishes_links() {
    assert_eq!(quick_route("/").hydra_type(), "Link".to_string());
    assert_eq!(quick_route("/event/{event_id}").hydra_type(), "IriTemplate".to_string());
}

#[test]
fn rest_segments_dispatch_as_wildcards() {
    let route = quick_route("/files{/rest*}");
    assert_eq!(route.axum_route(), "/files/*rest".to_string());
}

#[test]
fn template_validates() {
    let route = quick_route("http://example.com/user/{user_id}");
    assert_eq!(route.template().unwrap(), "http://example.com/user/{user_id}".to_string());
}

#[derive(Copy, Clone)]
enum RouteMap {
    Event,
    Profile,
}

impl RouteTemplate for RouteMap {
    fn route_template(&self) -> String {
        match self {
            RouteMap::Event => "/event/{event_id}",
            RouteMap::Profile => "/profile/{user_id}",
        }
        .to_string()
    }
}

#[test]
fn registry_deduplicates_templates() {
    let mut reg = Registry::new();
    let one = route_config(&mut reg, &RouteMap::Event).unwrap();
    let two = route_config(&mut reg, &RouteMap::Event).unwrap();
    let other = route_config(&mut reg, &RouteMap::Profile).unwrap();
    assert_eq!(reg.store.len(), 2);
    assert_eq!(one.axum_route(), two.axum_route());
    assert_eq!(other.axum_route(), "/profile/:user_id".to_string());
}

#[test]
fn entry_handles_render_and_fill() {
    let mut reg = Registry::new();
    let mut entry = route_config(&mut reg, &RouteMap::Event).unwrap();
    assert_eq!(entry.hydra_type(), "IriTemplate".to_string());
    let nested = entry.prefixed("/api");
    assert_eq!(nested.axum_route(), "/api/event/:event_id".to_string());
    let filled = entry.fill(&vars(&[("event_id", "9")])).unwrap();
    assert_eq!(filled, "/event/9".to_string());
}
