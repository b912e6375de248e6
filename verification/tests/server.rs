use express_rs::http::Request;
use express_rs::http::Response;
use express_rs::serialize_response;
use express_rs::validate_port;
use express_rs::ConfigError;
use express_rs::Express;
use express_rs::Handler;

enum AppHandler {
    Hello,
    SendFirst,
    SendSecond,
    EchoId,
    Redirect,
}

impl Handler for AppHandler {
    fn handle(&self, req: &Request, res: &mut Response) {
        match self {
            AppHandler::Hello => res.send("Hello World!".to_string()),
            AppHandler::SendFirst => res.send("first".to_string()),
            AppHandler::SendSecond => res.send("second".to_string()),
            AppHandler::EchoId => {
                if let Some(id) = req.params.get("id") {
                    res.send(id.clone());
                }
            },
            AppHandler::Redirect => {
                res.status(301);
                res.send("moved".to_string());
            },
        }
    }
}

#[test]
fn dispatch_runs_matches_in_registration_order() {
    let mut app = Express::new();
    app.get("/", AppHandler::SendFirst);
    app.get("/", AppHandler::SendSecond);

    let request = Request::from_string("GET / HTTP/1.1".to_string()).unwrap();
    let mut response = Response::new();
    let handled = app.dispatch(&request, &mut response);

    assert!(handled);
    assert_eq!(response.stream, "firstsecond");
}

#[test]
fn dispatch_skips_other_routes() {
    let mut app = Express::new();
    app.get("/other", AppHandler::SendFirst);
    app.post("/", AppHandler::SendSecond);

    let request = Request::from_string("GET / HTTP/1.1".to_string()).unwrap();
    let mut response = Response::new();
    let handled = app.dispatch(&request, &mut response);

    assert!(!handled);
    assert_eq!(response.stream, "");
    assert_eq!(response.status, 200);
}

#[test]
fn end_to_end_hello_world() {
    let mut app = Express::new();
    app.get("/", AppHandler::Hello);

    let out = app.handle_connection("GET / HTTP/1.1\r\n\r\n".to_string());

    assert!(out.starts_with("HTTP/1.1 200 OK\r\n\r\n"));
    assert_eq!(out, "HTTP/1.1 200 OK\r\n\r\nHello World!");
}

#[test]
fn end_to_end_param_binding() {
    let mut app = Express::new();
    app.get("/users/:id", AppHandler::EchoId);

    let out = app.handle_connection("GET /users/42 HTTP/1.1\r\n\r\n".to_string());
    assert_eq!(out, "HTTP/1.1 200 OK\r\n\r\n42");
}

#[test]
fn end_to_end_status_change() {
    let mut app = Express::new();
    app.get("/", AppHandler::Redirect);

    let out = app.handle_connection("GET / HTTP/1.1\r\n\r\n".to_string());
    assert_eq!(out, "HTTP/1.1 301 OK\r\n\r\nmoved");
}

#[test]
fn unparseable_request_gets_fixed_bad_request() {
    let app: Express<AppHandler> = Express::new();
    let out = app.handle_connection("GET".to_string());
    assert_eq!(out, "HTTP/1.1 400 Bad Request\r\n\r\n");
}

#[test]
fn unmatched_request_gets_bare_ok() {
    let app: Express<AppHandler> = Express::new();
    let out = app.handle_connection("GET / HTTP/1.1\r\n\r\n".to_string());
    assert_eq!(out, "HTTP/1.1 200 OK\r\n\r\n");
}

#[test]
fn serialize_emits_status_line_then_body() {
    let mut response = Response::new();
    response.status(404);
    response.send("missing".to_string());
    assert_eq!(serialize_response(&response), "HTTP/1.1 404 OK\r\n\r\nmissing");

    let fresh = Response::new();
    assert_eq!(serialize_response(&fresh), "HTTP/1.1 200 OK\r\n\r\n");
}

#[test]
fn send_appends_never_replaces() {
    let mut response = Response::new();
    response.send("one".to_string());
    response.send("two".to_string());
    assert_eq!(response.stream, "onetwo");
}

#[test]
fn defaults_are_fresh() {
    let app: Express<AppHandler> = Express::default();
    let out = app.handle_connection("GET / HTTP/1.1\r\n\r\n".to_string());
    assert_eq!(out, "HTTP/1.1 200 OK\r\n\r\n");

    let response = Response::default();
    assert_eq!(response.status, 200);
    assert_eq!(response.stream, "");
}

#[test]
fn port_zero_is_a_config_error() {
    assert_eq!(validate_port(0), Err(ConfigError::PortOutOfRange));
    assert_eq!(validate_port(1), Ok(1));
    assert_eq!(validate_port(65535), Ok(65535));
}
