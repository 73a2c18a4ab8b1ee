use server_nano::router::{compile_pattern, query_parameters, RouteMatcher, RouteNode, Segment};

fn table(routes: &[(&str, &str, u32)]) -> RouteMatcher<u32> {
    let mut t = RouteMatcher::new();
    for (method, path, handler) in routes {
        t.add_route(method, path, *handler);
    }
    t
}

fn text<'a>(m: &Option<&'a String>) -> Option<&'a str> {
    m.map(|s| s.as_str())
}

#[test]
fn user_id_scenario_binds_path_and_query() {
    let t = table(&[("GET", "/user/:id", 1)]);
    let m = t.match_route("GET", "/user/42?x=1").expect("route");
    assert_eq!(text(&m.parameters.get("id")), Some("42"));
    assert_eq!(text(&m.url_parameters.get("x")), Some("1"));
    assert_eq!(m.method, "GET");
    assert_eq!(m.path, "/user/:id");
    assert_eq!(*m.handler, 1);
    assert_eq!(m.parameters.len(), 1);
    assert_eq!(m.url_parameters.len(), 1);
}

#[test]
fn empty_table_resolves_nothing() {
    let t: RouteMatcher<u32> = RouteMatcher::new();
    assert!(t.match_route("GET", "/nope").is_none());
    assert!(t.match_route("GET", "/").is_none());
    assert!(t.match_route("", "").is_none());
}

#[test]
fn non_matching_table_resolves_nothing() {
    let t = table(&[("GET", "/", 1), ("GET", "/user/:id", 2), ("POST", "/nope", 3)]);
    assert!(t.match_route("GET", "/nope").is_none());
    assert!(t.match_route("GET", "/user").is_none());
    assert!(t.match_route("GET", "/user/1/2").is_none());
}

#[test]
fn trailing_wildcard_accepts_any_suffix() {
    let t = table(&[("GET", "/files/*", 7)]);
    for url in ["/files/a", "/files/a/b", "/files/a/b/c/d/e", "/files/*", "/files/:x/y?q=1"] {
        let m = t.match_route("GET", url).expect(url);
        assert_eq!(*m.handler, 7);
        assert_eq!(m.parameters.len(), 0);
    }
}

#[test]
fn trailing_wildcard_accepts_the_empty_suffix() {
    let t = table(&[("GET", "/static/*", 7)]);
    for url in ["/static", "/static/", "static", "/static?v=1", "//static//"] {
        let m = t.match_route("GET", url).expect(url);
        assert_eq!(*m.handler, 7);
        assert_eq!(m.path, "/static/*");
        assert_eq!(m.parameters.len(), 0);
    }
}

#[test]
fn trailing_wildcard_needs_its_prefix() {
    let t = table(&[("GET", "/files/*", 7)]);
    assert!(t.match_route("GET", "/other/a").is_none());
    assert!(t.match_route("GET", "/other").is_none());
    assert!(t.match_route("GET", "/").is_none());
    assert!(t.match_route("GET", "").is_none());
    assert!(t.match_route("GET", "/file").is_none());
    assert!(t.match_route("POST", "/files").is_none());
}

#[test]
fn a_lone_wildcard_accepts_every_path() {
    let t = table(&[("GET", "/*", 7)]);
    for url in ["", "/", "/a", "/a/b/c", "/?x=1"] {
        assert_eq!(*t.match_route("GET", url).expect(url).handler, 7);
    }
}

#[test]
fn wildcard_keeps_parameters_bound_before_it() {
    let t = table(&[("GET", "/u/:id/*", 7)]);
    for url in ["/u/9/a/b", "/u/9/a", "/u/9"] {
        let m = t.match_route("GET", url).expect(url);
        assert_eq!(text(&m.parameters.get("id")), Some("9"));
        assert_eq!(m.parameters.len(), 1);
    }
    assert!(t.match_route("GET", "/u").is_none());
}

#[test]
fn wildcard_in_the_middle_ends_the_comparison() {
    let t = table(&[("GET", "/a/*/b", 7)]);
    assert!(t.match_route("GET", "/a").is_some());
    assert!(t.match_route("GET", "/a/x").is_some());
    assert!(t.match_route("GET", "/a/x/b").is_some());
    assert!(t.match_route("GET", "/a/x/c/d").is_some());
    assert!(t.match_route("GET", "/").is_none());
    assert!(t.match_route("GET", "/z/x/b").is_none());
}

#[test]
fn parameters_recover_every_bound_segment() {
    let t = table(&[("GET", "/a/:x/b/:y", 1)]);
    let m = t.match_route("GET", "/a/one/b/two").expect("route");
    assert_eq!(text(&m.parameters.get("x")), Some("one"));
    assert_eq!(text(&m.parameters.get("y")), Some("two"));
    assert_eq!(m.parameters.len(), 2);
    assert!(t.match_route("GET", "/a/one/c/two").is_none());
}

#[test]
fn repeated_parameter_name_keeps_the_last_segment() {
    let t = table(&[("GET", "/:a/:a", 1)]);
    let m = t.match_route("GET", "/first/second").expect("route");
    assert_eq!(text(&m.parameters.get("a")), Some("second"));
    assert_eq!(m.parameters.len(), 1);
}

#[test]
fn literal_segments_are_case_sensitive() {
    let t = table(&[("GET", "/User", 1)]);
    assert!(t.match_route("GET", "/User").is_some());
    assert!(t.match_route("GET", "/user").is_none());
}

#[test]
fn method_must_match_or_be_star() {
    let t = table(&[("GET", "/a", 1), ("*", "/b", 2)]);
    assert!(t.match_route("POST", "/a").is_none());
    assert!(t.match_route("get", "/a").is_none());
    let m = t.match_route("DELETE", "/b").expect("star");
    assert_eq!(m.method, "*");
    assert_eq!(*m.handler, 2);
}

#[test]
fn first_registered_route_wins() {
    let t = table(&[("GET", "/a/:x", 1), ("GET", "/a/b", 2), ("*", "/a/b", 3)]);
    assert_eq!(*t.match_route("GET", "/a/b").expect("route").handler, 1);
    assert_eq!(*t.match_route("POST", "/a/b").expect("route").handler, 3);
}

#[test]
fn a_route_whose_method_differs_is_passed_over() {
    let t = table(&[("POST", "/a/:x", 1), ("GET", "/a/:y", 2)]);
    let m = t.match_route("GET", "/a/b").expect("route");
    assert_eq!(*m.handler, 2);
    assert_eq!(text(&m.parameters.get("y")), Some("b"));
    assert!(m.parameters.get("x").is_none());
}

#[test]
fn registering_a_key_again_replaces_the_handler_in_place() {
    let mut t = table(&[("GET", "/a", 1), ("GET", "/:any", 2)]);
    t.add_route("GET", "/a", 3);
    assert_eq!(*t.match_route("GET", "/a").expect("route").handler, 3);
    assert_eq!(*t.match_route("GET", "/b").expect("route").handler, 2);
    t.add_route("GET", "/:any", 4);
    assert_eq!(*t.match_route("GET", "/a").expect("route").handler, 3);
    assert_eq!(*t.match_route("GET", "/b").expect("route").handler, 4);
}

#[test]
fn same_pattern_under_another_method_is_another_route() {
    let t = table(&[("GET", "/a", 1), ("POST", "/a", 2)]);
    assert_eq!(*t.match_route("GET", "/a").expect("route").handler, 1);
    assert_eq!(*t.match_route("POST", "/a").expect("route").handler, 2);
}

#[test]
fn empty_segments_are_dropped() {
    let t = table(&[("GET", "//a///b/", 1), ("GET", "/", 2)]);
    assert_eq!(*t.match_route("GET", "/a/b").expect("route").handler, 1);
    assert_eq!(*t.match_route("GET", "a//b//").expect("route").handler, 1);
    assert_eq!(*t.match_route("GET", "").expect("root").handler, 2);
    assert_eq!(*t.match_route("GET", "///?x=1").expect("root").handler, 2);
}

#[test]
fn path_ends_at_the_first_question_mark() {
    let t = table(&[("GET", "/a", 1)]);
    let m = t.match_route("GET", "/a?b/c=d?e").expect("route");
    assert_eq!(text(&m.url_parameters.get("b/c")), Some("d?e"));
}

#[test]
fn query_later_key_wins() {
    let q = query_parameters("/p?a=1&b=2&a=3");
    assert_eq!(text(&q.get("a")), Some("3"));
    assert_eq!(text(&q.get("b")), Some("2"));
    assert_eq!(q.len(), 2);
}

#[test]
fn query_key_without_value_is_empty() {
    let q = query_parameters("/p?flag&k=&=v");
    assert_eq!(text(&q.get("flag")), Some(""));
    assert_eq!(text(&q.get("k")), Some(""));
    assert_eq!(text(&q.get("")), Some("v"));
    assert_eq!(q.len(), 3);
}

#[test]
fn query_value_ends_at_second_equals() {
    let q = query_parameters("/p?a=b=c");
    assert_eq!(text(&q.get("a")), Some("b"));
    assert_eq!(q.len(), 1);
}

#[test]
fn query_skips_empty_pieces_and_leading_question_marks() {
    let q = query_parameters("/p???&&a=1&&");
    assert_eq!(text(&q.get("a")), Some("1"));
    assert_eq!(q.len(), 1);
    assert_eq!(query_parameters("/p").len(), 0);
    assert_eq!(query_parameters("/p?").len(), 0);
    assert_eq!(query_parameters("").len(), 0);
}

#[test]
fn query_keeps_text_beyond_ascii() {
    let q = query_parameters("/p?n\u{e4}me=v\u{e4}lue&\u{1f600}=\u{4e2d}");
    assert_eq!(text(&q.get("n\u{e4}me")), Some("v\u{e4}lue"));
    assert_eq!(text(&q.get("\u{1f600}")), Some("\u{4e2d}"));
}

#[test]
fn path_segments_beyond_ascii_are_bound_whole() {
    let t = table(&[("GET", "/caf\u{e9}/:who", 1)]);
    let m = t.match_route("GET", "/caf\u{e9}/z\u{fc}rich").expect("route");
    assert_eq!(text(&m.parameters.get("who")), Some("z\u{fc}rich"));
}

#[test]
fn pattern_compiles_to_segments() {
    let segments = compile_pattern("/user/:id/*/:/x*/**");
    assert_eq!(segments.len(), 6);
    assert!(matches!(&segments[0], Segment::Static(s) if s == "user"));
    assert!(matches!(&segments[1], Segment::Parameter(s) if s == "id"));
    assert!(matches!(&segments[2], Segment::Wildcard));
    assert!(matches!(&segments[3], Segment::Parameter(s) if s.is_empty()));
    assert!(matches!(&segments[4], Segment::Static(s) if s == "x*"));
    assert!(matches!(&segments[5], Segment::Static(s) if s == "**"));
    assert_eq!(compile_pattern("").len(), 0);
    assert_eq!(compile_pattern("///").len(), 0);
}

#[test]
fn segments_match_by_position() {
    let route = RouteNode::new("GET", "/a/:b", 0u8);
    let bound = route.match_segments(&vec!["a", "c"]).expect("match");
    assert_eq!(text(&bound.get("b")), Some("c"));
    assert_eq!(bound.len(), 1);
    assert!(route.match_segments(&vec!["a"]).is_none());
    assert!(route.match_segments(&vec!["a", "c", "d"]).is_none());
    assert!(route.match_segments(&vec!["x", "c"]).is_none());
    assert!(route.match_segments(&Vec::new()).is_none());
    let root = RouteNode::new("GET", "", 0u8);
    assert!(root.match_segments(&Vec::new()).is_some());
    assert!(root.match_segments(&vec!["a"]).is_none());
    let star = RouteNode::new("GET", "*", 0u8);
    assert!(star.match_segments(&Vec::new()).is_some());
    assert!(star.match_segments(&vec!["a"]).is_some());
    assert!(star.match_segments(&vec!["a", "b"]).is_some());
}

#[test]
fn a_copy_of_a_table_answers_alike() {
    let t = table(&[("GET", "/a/:x", 1), ("POST", "/b/*", 2)]);
    let copy = t.clone();
    drop(t);
    let m = copy.match_route("GET", "/a/9").expect("route");
    assert_eq!(*m.handler, 1);
    assert_eq!(text(&m.parameters.get("x")), Some("9"));
    assert_eq!(*copy.match_route("POST", "/b/c/d").expect("route").handler, 2);
    assert!(copy.match_route("GET", "/b/c").is_none());
}
