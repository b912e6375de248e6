use express_rs::http::Method;
use express_rs::http::Request;
use express_rs::http::Response;
use express_rs::http::parse_params;
use express_rs::Express;
use express_rs::Handler;
use express_rs::Mount;

struct Nop;

impl Handler for Nop {
    fn handle(&self, _req: &Request, _res: &mut Response) {}
}

#[test]
fn route_pattern_matches_and_binds_param() {
    let mount = Mount { method: Method::GET, path: "/users/:id".to_string(), callback: Nop };

    assert!(mount.matches_path("/users/42"));
    assert!(!mount.matches_path("/users"));
    assert!(!mount.matches_path("/users/42/extra"));

    let params = parse_params(&mount, "/users/42");
    assert_eq!(params.get("id"), Some(&"42".to_string()));
}

#[test]
fn param_segment_needs_nonempty_match() {
    let mount = Mount { method: Method::GET, path: "/users/:id".to_string(), callback: Nop };
    assert!(!mount.matches_path("/users/"));
}

#[test]
fn literal_segments_match_exactly() {
    let mount = Mount { method: Method::GET, path: "/a/b".to_string(), callback: Nop };
    assert!(mount.matches_path("/a/b"));
    assert!(!mount.matches_path("/a/B"));
    assert!(!mount.matches_path("/a/c"));
}

#[test]
fn post_route_never_matches_get_request() {
    let post_mount = Mount { method: Method::POST, path: "/x".to_string(), callback: Nop };
    let get_request = Request::from_string("GET /x HTTP/1.1".to_string()).unwrap();
    assert!(!post_mount.matches(&get_request));

    let get_mount = Mount { method: Method::GET, path: "/x".to_string(), callback: Nop };
    let post_request = Request::from_string("POST /x HTTP/1.1".to_string()).unwrap();
    assert!(!get_mount.matches(&post_request));

    assert!(get_mount.matches(&get_request));
    assert!(post_mount.matches(&post_request));
}

#[test]
fn multiple_params_bind_their_segments() {
    let mount =
        Mount { method: Method::GET, path: "/repos/:owner/:name".to_string(), callback: Nop };
    assert!(mount.matches_path("/repos/alice/widget"));
    let params = parse_params(&mount, "/repos/alice/widget");
    assert_eq!(params.get("owner"), Some(&"alice".to_string()));
    assert_eq!(params.get("name"), Some(&"widget".to_string()));
}

#[test]
fn params_bound_from_first_matching_route() {
    let mut app = Express::new();
    app.get("/a/:first", Nop);
    app.get("/a/:second", Nop);

    let mut request = Request::from_string("GET /a/x HTTP/1.1".to_string()).unwrap();
    app.bind_first_match_params(&mut request);

    assert_eq!(request.params.get("first"), Some(&"x".to_string()));
    assert_eq!(request.params.get("second"), None);
}

#[test]
fn params_left_empty_when_no_pattern_matches() {
    let mut app = Express::new();
    app.get("/other", Nop);

    let mut request = Request::from_string("GET /a HTTP/1.1".to_string()).unwrap();
    app.bind_first_match_params(&mut request);

    assert!(request.params.is_empty());
}

#[test]
fn mount_describe_names_method_and_path() {
    let mount = Mount { method: Method::GET, path: "/".to_string(), callback: Nop };
    assert_eq!(mount.describe(), "Mount { method: GET, path: \"/\" }");

    let other = Mount { method: Method::UNKNOWN("FROB".to_string()), path: "/x".to_string(), callback: Nop };
    assert_eq!(other.describe(), "Mount { method: FROB, path: \"/x\" }");
}
