use route_core::dispatch::{
    completion_to_response, dispatch_route, not_found_response, DispatchOutcome,
    CALLBACK_TIMEOUT_SECS,
};
use route_core::read_only::Router;
use route_core::response::{InnerResp, JsResponse};
use route_core::server::{
    bind_address, cleanup_router, get_async, new_route, new_route_async, port_text, ServerOptions,
};
use route_core::store::RouterError;
use route_core::Methods;

#[test]
fn register_and_lookup_plain() {
    let mut router = Router::new();
    assert!(router.add_new_route("/hello", Methods::GET, 7).is_ok());
    let hit = router.get_route_with_params_cached("/hello", Methods::GET);
    let (cb, params) = hit.expect("route must match");
    assert_eq!(cb, 7);
    assert!(params.is_empty());
    assert!(router.get_route_with_params_cached("/hello", Methods::POST).is_none());
    assert!(router.get_route_with_params_cached("/nope", Methods::GET).is_none());
}

#[test]
fn register_duplicate_fails() {
    let mut router = Router::new();
    assert!(router.add_new_route("/a/:id", Methods::GET, 1).is_ok());
    // the very same pattern is refused
    assert_eq!(router.add_new_route("/a/:id", Methods::GET, 2), Err(RouterError::DuplicateRoute));
    // so is one of the same shape under another capture name
    assert_eq!(router.add_new_route("/a/:key", Methods::GET, 3), Err(RouterError::DuplicateRoute));
    // another method is free
    assert!(router.add_new_route("/a/:id", Methods::POST, 4).is_ok());
}

#[test]
fn register_invalid_pattern_fails() {
    let mut router = Router::new();
    assert_eq!(router.add_new_route("no-slash", Methods::GET, 1), Err(RouterError::InvalidPattern));
    assert_eq!(router.add_new_route("", Methods::GET, 1), Err(RouterError::InvalidPattern));
    assert_eq!(router.add_new_route("/a/:", Methods::GET, 1), Err(RouterError::InvalidPattern));
    assert_eq!(
        router.add_new_route("/a/:x/b/:x", Methods::GET, 1),
        Err(RouterError::InvalidPattern)
    );
}

#[test]
fn path_params_are_captured() {
    let mut router = Router::new();
    assert!(router.add_new_route("/users/:id", Methods::GET, 9).is_ok());
    let (cb, params) = router.get_route_with_params_cached("/users/42", Methods::GET).unwrap();
    assert_eq!(cb, 9);
    assert_eq!(params.len(), 1);
    assert_eq!(params[0].0, "id");
    assert_eq!(params[0].1, "42");
    // a capture does not take an empty segment
    assert!(router.get_route_with_params_cached("/users/", Methods::GET).is_none());
}

#[test]
fn static_outranks_param() {
    let mut router = Router::new();
    assert!(router.add_new_route("/users/:id", Methods::GET, 1).is_ok());
    assert!(router.add_new_route("/users/me", Methods::GET, 2).is_ok());
    let (cb, params) = router.get_route_with_params_cached("/users/me", Methods::GET).unwrap();
    assert_eq!(cb, 2);
    assert!(params.is_empty());
    let (cb2, _) = router.get_route_with_params_cached("/users/you", Methods::GET).unwrap();
    assert_eq!(cb2, 1);
}

#[test]
fn trailing_slash_is_literal() {
    let mut router = Router::new();
    assert!(router.add_new_route("/a/", Methods::GET, 1).is_ok());
    assert!(router.get_route_with_params_cached("/a", Methods::GET).is_none());
    assert!(router.get_route_with_params_cached("/a/", Methods::GET).is_some());
}

#[test]
fn cache_hits_are_counted() {
    let mut router = Router::new();
    assert!(router.add_new_route("/hello", Methods::GET, 7).is_ok());
    let mut i = 0;
    while i < 1000 {
        let hit = router.get_route_with_params_cached("/hello", Methods::GET);
        assert!(hit.is_some());
        i += 1;
    }
    // the first lookup fills the cache; the 2nd through 1000th hit it
    assert_eq!(router.cache_hits, 999);
    // misses are never cached
    let before = router.cache_hits;
    assert!(router.get_route_with_params_cached("/nope", Methods::GET).is_none());
    assert!(router.get_route_with_params_cached("/nope", Methods::GET).is_none());
    assert_eq!(router.cache_hits, before);
}

#[test]
fn registration_clears_cache() {
    let mut router = Router::new();
    assert!(router.add_new_route("/a", Methods::GET, 1).is_ok());
    assert!(router.get_route_with_params_cached("/a", Methods::GET).is_some());
    // a later registration must not serve stale cache entries
    assert!(router.add_new_route("/b", Methods::GET, 2).is_ok());
    assert_eq!(router.cache_hits, 0);
    let (cb, _) = router.get_route_with_params_cached("/a", Methods::GET).unwrap();
    assert_eq!(cb, 1);
}

#[test]
fn cleanup_forgets_routes() {
    let mut router = Router::new();
    assert!(router.add_new_route("/a", Methods::GET, 1).is_ok());
    assert!(router.get_route_with_params_cached("/a", Methods::GET).is_some());
    router.cleanup_route();
    assert!(router.get_route_with_params_cached("/a", Methods::GET).is_none());
    // and the pattern can be registered again
    assert!(router.add_new_route("/a", Methods::GET, 5).is_ok());
}

#[test]
fn uncached_lookups_agree() {
    let mut router = Router::new();
    assert!(router.add_new_route("/x/:n", Methods::PUT, 3).is_ok());
    assert_eq!(router.get_route("/x/1", Methods::PUT), Some(3));
    let params = router.get_params("/x/1", Methods::PUT).unwrap();
    assert_eq!(params[0].0, "n");
    assert_eq!(params[0].1, "1");
    assert!(router.get_route("/x/1", Methods::GET).is_none());
}

#[test]
fn dispatch_route_maps_methods() {
    let mut router = Router::new();
    assert!(router.add_new_route("/p", Methods::DELETE, 11).is_ok());
    let hit = dispatch_route(&mut router, "DELETE", "/p");
    assert_eq!(hit.unwrap().0, 11);
    assert!(dispatch_route(&mut router, "TRACE", "/p").is_none());
}

#[test]
fn not_found_body_is_exact() {
    let r = not_found_response("/nope");
    assert_eq!(r.status, 404);
    assert_eq!(r.content_type, "application/json");
    assert!(r.headers.is_empty());
    assert_eq!(r.body, b"{\"error\":\"Route not found\",\"path\":\"/nope\"}".to_vec());
}

#[test]
fn timeout_and_dropped_responses_are_exact() {
    assert_eq!(CALLBACK_TIMEOUT_SECS, 10);
    let t = completion_to_response(DispatchOutcome::TimedOut);
    assert_eq!(t.status, 408);
    assert_eq!(t.content_type, "application/json");
    assert_eq!(
        t.body,
        b"{\"error\":\"Request timeout - JavaScript callback took too long\"}".to_vec()
    );
    let d = completion_to_response(DispatchOutcome::ProducerDropped);
    assert_eq!(d.status, 500);
    assert_eq!(d.content_type, "application/json");
    assert_eq!(d.body, b"{\"error\":\"JavaScript callback did not send response\"}".to_vec());
}

#[test]
fn completed_response_renders_record() {
    let rec = JsResponse { inner: InnerResp::Text(String::from("hi")), status_code: None, headers: None };
    let r = completion_to_response(DispatchOutcome::Completed(rec));
    assert_eq!(r.status, 200);
    assert_eq!(r.content_type, "text/plain; charset=utf-8");
    assert_eq!(r.body, b"hi".to_vec());
}

#[test]
fn surface_helpers_register() {
    let mut router = Router::new();
    assert!(new_route_async(&mut router, String::from("/n"), Methods::GET, 1).is_ok());
    assert!(get_async(&mut router, String::from("/g"), 2).is_ok());
    assert_eq!(
        new_route(&mut router, String::from("/l"), Methods::GET, 3),
        Err(RouterError::LegacyRoute)
    );
    assert!(router.get_route_with_params_cached("/n", Methods::GET).is_some());
    assert!(router.get_route_with_params_cached("/g", Methods::GET).is_some());
    assert!(router.get_route_with_params_cached("/l", Methods::GET).is_none());
    cleanup_router(&mut router);
    assert!(router.get_route_with_params_cached("/n", Methods::GET).is_none());
}

#[test]
fn bind_addresses_are_rendered() {
    assert_eq!(port_text(0), "0");
    assert_eq!(port_text(7), "7");
    assert_eq!(port_text(8080), "8080");
    assert_eq!(port_text(65535), "65535");
    let opts = ServerOptions { host: String::from("127.0.0.1"), port: 3000 };
    assert_eq!(bind_address(&opts), "127.0.0.1:3000");
}

#[test]
fn method_names_convert() {
    assert_eq!(Methods::convert_from_str("GET"), Some(Methods::GET));
    assert_eq!(Methods::convert_from_str("POST"), Some(Methods::POST));
    assert_eq!(Methods::convert_from_str("PUT"), Some(Methods::PUT));
    assert_eq!(Methods::convert_from_str("PATCH"), Some(Methods::PATCH));
    assert_eq!(Methods::convert_from_str("DELETE"), Some(Methods::DELETE));
    assert_eq!(Methods::convert_from_str("get"), None);
    assert_eq!(Methods::convert_from_str("OPTIONS"), None);
}

#[test]
fn earlier_static_segment_wins() {
    let mut router = Router::new();
    assert!(router.add_new_route("/a/:x/c", Methods::GET, 1).is_ok());
    assert!(router.add_new_route("/a/b/:y", Methods::GET, 2).is_ok());
    // both match /a/b/c; the pattern that is static earlier outranks
    let (cb, _) = router.get_route_with_params_cached("/a/b/c", Methods::GET).unwrap();
    assert_eq!(cb, 2);
}

#[test]
fn full_flow_plain_match() {
    // register, route, run the callback, await its record, render
    let mut router = Router::new();
    assert!(router.add_new_route("/hello", Methods::GET, 0).is_ok());
    let (handle, params) = dispatch_route(&mut router, "GET", "/hello").unwrap();
    assert_eq!(handle, 0);
    let (mut detached, _) = route_core::request::DetachedRequestWrapper::new_detached(
        String::from("/hello"),
        String::from("GET"),
        String::new(),
        String::from("/hello"),
        vec![],
        None,
        params,
    );
    let (tx, mut rx) = tokio::sync::oneshot::channel::<JsResponse>();
    detached.set_response_sender(tx);
    // the callback side
    assert!(detached.send_text_async(String::from("hi")).is_ok());
    let record = rx.try_recv().unwrap();
    let http = completion_to_response(DispatchOutcome::Completed(record));
    assert_eq!(http.status, 200);
    assert_eq!(http.content_type, "text/plain; charset=utf-8");
    assert_eq!(http.body, b"hi".to_vec());
}

#[test]
fn full_flow_path_param() {
    let mut router = Router::new();
    assert!(router.add_new_route("/users/:id", Methods::GET, 0).is_ok());
    let (_, params) = dispatch_route(&mut router, "GET", "/users/42").unwrap();
    let (mut detached, _) = route_core::request::DetachedRequestWrapper::new_detached(
        String::from("/users/42"),
        String::from("GET"),
        String::new(),
        String::from("/users/42"),
        vec![],
        None,
        params,
    );
    // the callback observes the captured parameter
    assert_eq!(detached.get_path_param(String::from("id")), Some(String::from("42")));
    let (tx, mut rx) = tokio::sync::oneshot::channel::<JsResponse>();
    detached.set_response_sender(tx);
    assert!(detached.send_json_async(String::from("{\"id\":\"42\"}")).is_ok());
    let record = rx.try_recv().unwrap();
    let http = completion_to_response(DispatchOutcome::Completed(record));
    assert_eq!(http.status, 200);
    assert_eq!(http.content_type, "application/json; charset=utf-8");
    assert_eq!(http.body, b"{\"id\":\"42\"}".to_vec());
}
