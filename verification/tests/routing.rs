//! End-to-end tests of route registration, trie compilation and resolution.

use trie_router::{Method, Route, Router, RouterBuilder, RoutingError, UrlParams};
use trie_router::router::method_of_name;

type Handler = fn(UrlParams, u64) -> u64;

fn handle_get_hello(_: UrlParams, _: u64) -> u64 {
    1
}
fn handle_post_hello(_: UrlParams, _: u64) -> u64 {
    2
}
fn handle_delete_hello(_: UrlParams, _: u64) -> u64 {
    3
}
fn handle_options_hello(_: UrlParams, _: u64) -> u64 {
    4
}
fn handle_put_hello(_: UrlParams, _: u64) -> u64 {
    5
}
fn handle_head_hello(_: UrlParams, _: u64) -> u64 {
    6
}
fn handle_trace_hello(_: UrlParams, _: u64) -> u64 {
    7
}
fn handle_patch_hello(_: UrlParams, _: u64) -> u64 {
    8
}
fn handle_get_root(_: UrlParams, _: u64) -> u64 {
    9
}
fn handle_post_root(_: UrlParams, _: u64) -> u64 {
    10
}
fn handle_get_foo(_: UrlParams, _: u64) -> u64 {
    11
}
fn handle_post_foo(_: UrlParams, _: u64) -> u64 {
    12
}
fn handle_get_bar(_: UrlParams, _: u64) -> u64 {
    13
}
fn handle_param_foo(_: UrlParams, _: u64) -> u64 {
    14
}
fn handle_param_bar(_: UrlParams, _: u64) -> u64 {
    15
}

fn test_router() -> Router<Handler> {
    RouterBuilder::<Handler>::new()
        .route(Route::<Handler>::url("/").get(handle_get_root).post(handle_post_root))
        .route(
            Route::<Handler>::url("/hello")
                .get(handle_get_hello)
                .post(handle_post_hello)
                .patch(handle_patch_hello)
                .put(handle_put_hello)
                .delete(handle_delete_hello)
                .options(handle_options_hello)
                .trace(handle_trace_hello)
                .head(handle_head_hello),
        )
        .route(Route::<Handler>::url("/foo").get(handle_get_foo).post(handle_post_foo))
        .route(Route::<Handler>::url("/bar").get(handle_get_bar))
        .route(Route::<Handler>::url("/foo/:id").get(handle_param_foo))
        .route(Route::<Handler>::url("/bar/:id").get(handle_param_bar))
        .build()
}

#[test]
fn test_get_route() {
    let router = test_router();
    let (handler, _) = router.resolve("GET", "/hello").unwrap();
    assert!(handler as Handler == handle_get_hello as Handler);
}

#[test]
fn test_post_route() {
    let router = test_router();
    let (handler, _) = router.resolve("POST", "/hello").unwrap();
    assert!(handler as Handler == handle_post_hello as Handler);
}

#[test]
fn test_delete_route() {
    let router = test_router();
    let (handler, _) = router.resolve("DELETE", "/hello").unwrap();
    assert!(handler as Handler == handle_delete_hello as Handler);
}

#[test]
fn test_options_route() {
    let router = test_router();
    let (handler, _) = router.resolve("OPTIONS", "/hello").unwrap();
    assert!(handler as Handler == handle_options_hello as Handler);
}

#[test]
fn test_put_route() {
    let router = test_router();
    let (handler, _) = router.resolve("PUT", "/hello").unwrap();
    assert!(handler as Handler == handle_put_hello as Handler);
}

#[test]
fn test_head_route() {
    let router = test_router();
    let (handler, _) = router.resolve("HEAD", "/hello").unwrap();
    assert!(handler as Handler == handle_head_hello as Handler);
}

#[test]
fn test_trace_route() {
    let router = test_router();
    let (handler, _) = router.resolve("TRACE", "/hello").unwrap();
    assert!(handler as Handler == handle_trace_hello as Handler);
}

#[test]
fn test_patch_route() {
    let router = test_router();
    let (handler, _) = router.resolve("PATCH", "/hello").unwrap();
    assert!(handler as Handler == handle_patch_hello as Handler);
}

#[test]
fn test_no_route() {
    let router = test_router();
    match router.resolve("GET", "/notfound") {
        Ok(_) => panic!("Expected an error, but got a handler instead"),
        Err(e) => {
            assert_eq!(e, RoutingError::NotFound);
            assert_eq!(e.status_code(), 404);
        }
    }
}

#[test]
fn test_url_path_parameters() {
    let router = test_router();
    let (handler, params) = router.resolve("GET", "/foo/bar").unwrap();
    assert!(handler as Handler == handle_param_foo as Handler);
    assert!(params.get("id").is_some());
    assert!(params.get("id").map(|s| s.as_str()) == Some("bar"));
}

#[test]
fn literal_beats_wildcard() {
    let router = RouterBuilder::<Handler>::new()
        .route(Route::<Handler>::url("/users/me").get(handle_get_foo))
        .route(Route::<Handler>::url("/users/:id").get(handle_param_foo))
        .build();
    let (handler, params) = router.resolve("GET", "/users/me").unwrap();
    assert!(handler as Handler == handle_get_foo as Handler);
    assert!(params.captures.is_empty());
    let (handler, params) = router.resolve("GET", "/users/42").unwrap();
    assert!(handler as Handler == handle_param_foo as Handler);
    assert_eq!(params.get("id").map(|s| s.as_str()), Some("42"));
}

#[test]
fn multiple_wildcards_capture_in_template_order() {
    let router = RouterBuilder::<Handler>::new()
        .route(Route::<Handler>::url("/a/:x/b/:y").get(handle_get_foo))
        .build();
    let (handler, params) = router.resolve("GET", "/a/1/b/2").unwrap();
    assert!(handler as Handler == handle_get_foo as Handler);
    assert_eq!(params.captures.len(), 2);
    assert_eq!(params.captures[0].0.as_str(), "x");
    assert_eq!(params.captures[0].1.as_str(), "1");
    assert_eq!(params.captures[1].0.as_str(), "y");
    assert_eq!(params.captures[1].1.as_str(), "2");
    assert_eq!(params.get("x").map(|s| s.as_str()), Some("1"));
    assert_eq!(params.get("y").map(|s| s.as_str()), Some("2"));
}

#[test]
fn scenario_root_get() {
    let router = RouterBuilder::<Handler>::new()
        .route(Route::<Handler>::url("/").get(handle_get_root))
        .build();
    let (handler, params) = router.resolve("GET", "/").unwrap();
    assert!(handler as Handler == handle_get_root as Handler);
    assert!(params.captures.is_empty());
}

#[test]
fn scenario_user_home() {
    let router = RouterBuilder::<Handler>::new()
        .route(Route::<Handler>::url("/user/:user_id/home").get(handle_get_foo))
        .build();
    let (handler, params) = router.resolve("GET", "/user/7/home").unwrap();
    assert!(handler as Handler == handle_get_foo as Handler);
    assert_eq!(params.captures.len(), 1);
    assert_eq!(params.get("user_id").map(|s| s.as_str()), Some("7"));
}

#[test]
fn scenario_method_not_supported() {
    let router = RouterBuilder::<Handler>::new()
        .route(Route::<Handler>::url("/foo").get(handle_get_foo))
        .build();
    let err = router.resolve("POST", "/foo").unwrap_err();
    assert_eq!(err, RoutingError::MethodNotAllowed);
    let (status, body) = trie_router::router::default_error_handler(err.status_code());
    assert_eq!(status, 405);
    assert_eq!(body.as_str(), "method not supported");
}

#[test]
fn scenario_empty_router_not_found() {
    let router: Router<Handler> = RouterBuilder::new().build();
    let err = router.resolve("GET", "/anything").unwrap_err();
    assert_eq!(err, RoutingError::NotFound);
    let (status, body) = trie_router::router::default_error_handler(err.status_code());
    assert_eq!(status, 404);
    assert_eq!(body.as_str(), "Page Not Found");
}

#[test]
fn unknown_method_on_registered_path() {
    let router = RouterBuilder::<Handler>::new()
        .route(Route::<Handler>::url("/hello").get(handle_get_hello))
        .build();
    let err = router.resolve("BREW", "/hello").unwrap_err();
    assert_eq!(err, RoutingError::MethodNotAllowed);
}

#[test]
fn wildcard_requires_nonempty_segment() {
    let router = RouterBuilder::<Handler>::new()
        .route(Route::<Handler>::url("/users/:id").get(handle_param_foo))
        .build();
    let err = router.resolve("GET", "/users/").unwrap_err();
    assert_eq!(err, RoutingError::NotFound);
}

#[test]
fn backtracks_from_literal_dead_end() {
    let router = RouterBuilder::<Handler>::new()
        .route(Route::<Handler>::url("/a/b").get(handle_get_foo))
        .route(Route::<Handler>::url("/:w/c").get(handle_param_foo))
        .build();
    let (handler, params) = router.resolve("GET", "/a/c").unwrap();
    assert!(handler as Handler == handle_param_foo as Handler);
    assert_eq!(params.get("w").map(|s| s.as_str()), Some("a"));
    let (handler, _) = router.resolve("GET", "/a/b").unwrap();
    assert!(handler as Handler == handle_get_foo as Handler);
}

#[test]
fn same_path_methods_compose_across_registrations() {
    let router = RouterBuilder::<Handler>::new()
        .route(Route::<Handler>::url("/thing").get(handle_get_foo))
        .route(Route::<Handler>::url("/thing").post(handle_post_foo))
        .build();
    let (handler, _) = router.resolve("GET", "/thing").unwrap();
    assert!(handler as Handler == handle_get_foo as Handler);
    let (handler, _) = router.resolve("POST", "/thing").unwrap();
    assert!(handler as Handler == handle_post_foo as Handler);
}

#[test]
fn duplicate_method_last_registration_wins() {
    let router = RouterBuilder::<Handler>::new()
        .route(Route::<Handler>::url("/thing").get(handle_get_foo))
        .route(Route::<Handler>::url("/thing").get(handle_get_bar))
        .build();
    let (handler, _) = router.resolve("GET", "/thing").unwrap();
    assert!(handler as Handler == handle_get_bar as Handler);
}

#[test]
fn registration_order_does_not_change_behavior() {
    let a = RouterBuilder::<Handler>::new()
        .route(Route::<Handler>::url("/users/me").get(handle_get_foo))
        .route(Route::<Handler>::url("/users/:id").get(handle_param_foo))
        .route(Route::<Handler>::url("/bar").get(handle_get_bar))
        .build();
    let b = RouterBuilder::<Handler>::new()
        .route(Route::<Handler>::url("/bar").get(handle_get_bar))
        .route(Route::<Handler>::url("/users/:id").get(handle_param_foo))
        .route(Route::<Handler>::url("/users/me").get(handle_get_foo))
        .build();
    let queries = [
        ("GET", "/users/me"),
        ("GET", "/users/42"),
        ("GET", "/bar"),
        ("POST", "/bar"),
        ("GET", "/nope"),
    ];
    for (m, p) in queries.iter() {
        let ra = a.resolve(m, p);
        let rb = b.resolve(m, p);
        match (ra, rb) {
            (Ok((ha, ca)), Ok((hb, cb))) => {
                assert!(ha as Handler == hb as Handler);
                assert_eq!(ca.captures, cb.captures);
            }
            (Err(ea), Err(eb)) => assert_eq!(ea, eb),
            _ => panic!("routers disagree on {} {}", m, p),
        }
    }
}

#[test]
fn empty_template_and_root_are_distinct() {
    let router = RouterBuilder::<Handler>::new()
        .route(Route::<Handler>::url("").get(handle_get_foo))
        .route(Route::<Handler>::url("/").get(handle_get_bar))
        .build();
    let (handler, _) = router.resolve("GET", "").unwrap();
    assert!(handler as Handler == handle_get_foo as Handler);
    let (handler, _) = router.resolve("GET", "/").unwrap();
    assert!(handler as Handler == handle_get_bar as Handler);
}

#[test]
fn route_with_no_methods_marks_path_registered() {
    let router: Router<Handler> = RouterBuilder::<Handler>::new()
        .route(Route::<Handler>::url("/present"))
        .build();
    let err = router.resolve("GET", "/present").unwrap_err();
    assert_eq!(err, RoutingError::MethodNotAllowed);
    let err = router.resolve("GET", "/absent").unwrap_err();
    assert_eq!(err, RoutingError::NotFound);
}

#[test]
fn error_handler_maps_all_statuses() {
    let (status, body) = trie_router::router::default_error_handler(404);
    assert_eq!((status, body.as_str()), (404, "Page Not Found"));
    let (status, body) = trie_router::router::default_error_handler(405);
    assert_eq!((status, body.as_str()), (405, "method not supported"));
    let (status, body) = trie_router::router::default_error_handler(501);
    assert_eq!((status, body.as_str()), (501, "not implemented"));
    let (status, body) = trie_router::router::default_error_handler(418);
    assert_eq!((status, body.as_str()), (500, "Internal Server Error"));
}

#[test]
fn all_method_names_parse() {
    assert_eq!(method_of_name("OPTIONS"), Some(Method::Options));
    assert_eq!(method_of_name("GET"), Some(Method::Get));
    assert_eq!(method_of_name("POST"), Some(Method::Post));
    assert_eq!(method_of_name("PUT"), Some(Method::Put));
    assert_eq!(method_of_name("DELETE"), Some(Method::Delete));
    assert_eq!(method_of_name("HEAD"), Some(Method::Head));
    assert_eq!(method_of_name("TRACE"), Some(Method::Trace));
    assert_eq!(method_of_name("CONNECT"), Some(Method::Connect));
    assert_eq!(method_of_name("PATCH"), Some(Method::Patch));
    assert_eq!(method_of_name("get"), None);
    assert_eq!(method_of_name(""), None);
}

#[test]
fn wildcard_name_fixed_by_first_registration() {
    let router = RouterBuilder::<Handler>::new()
        .route(Route::<Handler>::url("/a/:x/c").get(handle_get_foo))
        .route(Route::<Handler>::url("/a/:y/d").get(handle_get_bar))
        .build();
    let (handler, params) = router.resolve("GET", "/a/v/d").unwrap();
    assert!(handler as Handler == handle_get_bar as Handler);
    assert_eq!(params.get("x").map(|s| s.as_str()), Some("v"));
    assert_eq!(params.get("y"), None);
}

#[test]
fn connect_route() {
    let router = RouterBuilder::<Handler>::new()
        .route(Route::<Handler>::url("/c").connect(handle_get_foo))
        .build();
    let (handler, _) = router.resolve("CONNECT", "/c").unwrap();
    assert!(handler as Handler == handle_get_foo as Handler);
}

#[test]
fn params_lookup_first_binding_wins() {
    let mut params = UrlParams::new();
    params.insert("x".to_string(), "1".to_string());
    params.insert("x".to_string(), "2".to_string());
    assert_eq!(params.get("x").map(|s| s.as_str()), Some("1"));
    assert_eq!(params.get("y"), None);
}
