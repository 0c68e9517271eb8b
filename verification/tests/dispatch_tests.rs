use std::sync::Arc;
use webserver::dispatch::{
    dispatch, handler_response, internal_server_error_response, not_found_response, Action,
    CloseReason, INTERNAL_SERVER_ERROR_PAGE, NOT_FOUND_PAGE,
};
use webserver::http_method::HttpMethod;
use webserver::http_status::HttpStatus;
use webserver::request::Request;
use webserver::response::Response;
use webserver::routehandler::{HandlerFn, RouteHandler};
use webserver::webserver::{StartAction, WebServer};

type Handler = Arc<dyn HandlerFn>;

fn lines(texts: &[&str]) -> Vec<String> {
    texts.iter().map(|text| text.to_string()).collect()
}

fn hello_routes() -> Vec<RouteHandler<Handler>> {
    let hello: Handler =
        Arc::new(|_request: Request| Response::new(HttpStatus::OK, "hello".to_string(), vec![]));
    let echo: Handler = Arc::new(|request: Request| {
        Response::new(HttpStatus::OK, request.to_string(), request.headers)
    });
    vec![
        RouteHandler::new(HttpMethod::GET, "/", hello),
        RouteHandler::new(HttpMethod::POST, "/echo", echo),
    ]
}

/// Serves one connection as the program does, a handler that fails being
/// stood for by `None`.
fn serve(raw: &[&str], routes: &Vec<RouteHandler<Handler>>) -> Option<String> {
    match dispatch(&lines(raw), routes) {
        Action::Close(_) => None,
        Action::Respond(response) => Some(response.to_string()),
        Action::Invoke { route, request } => {
            let answer = (routes[route].handler)(request);
            Some(handler_response(Some(answer)).to_string())
        }
    }
}

#[test]
fn fixed_pages_are_html_with_title() {
    for (page, title) in [
        (NOT_FOUND_PAGE, "<title>404 Not Found</title>"),
        (INTERNAL_SERVER_ERROR_PAGE, "<title>500 Internal Server Error</title>"),
    ] {
        assert!(page.starts_with("<!DOCTYPE html>"));
        assert!(page.contains("<html lang=\"en\">"));
        assert!(page.contains(title));
        assert!(page.contains("</html>"));
    }
    assert!(NOT_FOUND_PAGE.contains("<p>The page you requested could not be found.</p>"));
    assert!(INTERNAL_SERVER_ERROR_PAGE
        .contains("<p>The server encountered an unexpected condition.</p>"));
}

#[test]
fn not_found_response_is_the_fixed_one() {
    let response = not_found_response();
    assert_eq!(response.status, HttpStatus::NotFound);
    assert_eq!(
        response.headers,
        vec![("Content-Type".to_string(), "text/html; charset=utf-8".to_string())]
    );
    assert_eq!(response.body, NOT_FOUND_PAGE);
}

#[test]
fn internal_server_error_response_is_the_fixed_one() {
    let response = internal_server_error_response();
    assert_eq!(response.status, HttpStatus::InternalServerError);
    assert_eq!(
        response.headers,
        vec![("Content-Type".to_string(), "text/html; charset=utf-8".to_string())]
    );
    assert_eq!(response.body, INTERNAL_SERVER_ERROR_PAGE);
}

#[test]
fn dispatch_invokes_the_matching_route() {
    let routes = hello_routes();
    match dispatch(&lines(&["POST /echo HTTP/1.1", "A: b", ""]), &routes) {
        Action::Invoke { route, request } => {
            assert_eq!(route, 1);
            assert_eq!(request.method, HttpMethod::POST);
            assert_eq!(request.path, "/echo");
            assert_eq!(request.headers, vec![("A".to_string(), " b".to_string())]);
            assert_eq!(request.body, "");
        }
        other => panic!("{:?}", other),
    }
}

#[test]
fn dispatch_answers_404_where_no_route_matches() {
    let routes = hello_routes();
    match dispatch(&lines(&["GET /missing HTTP/1.1"]), &routes) {
        Action::Respond(response) => assert_eq!(response, not_found_response()),
        other => panic!("{:?}", other),
    }
    match dispatch(&lines(&["POST / HTTP/1.1"]), &routes) {
        Action::Respond(response) => assert_eq!(response.status, HttpStatus::NotFound),
        other => panic!("{:?}", other),
    }
    match dispatch(&lines(&["GET / HTTP/1.1"]), &Vec::<RouteHandler<Handler>>::new()) {
        Action::Respond(response) => assert_eq!(response.status, HttpStatus::NotFound),
        other => panic!("{:?}", other),
    }
}

#[test]
fn dispatch_closes_on_malformed_input() {
    let routes = hello_routes();
    assert!(matches!(
        dispatch(&lines(&[]), &routes),
        Action::Close(CloseReason::MalformedRequestLine)
    ));
    assert!(matches!(
        dispatch(&lines(&["GET"]), &routes),
        Action::Close(CloseReason::MalformedRequestLine)
    ));
    assert!(matches!(
        dispatch(&lines(&["GET / HTTP/1.1", "no colon"]), &routes),
        Action::Close(CloseReason::MalformedHeader)
    ));
}

#[test]
fn dispatch_closes_on_unknown_method() {
    let routes = hello_routes();
    assert!(matches!(
        dispatch(&lines(&["PATCH / HTTP/1.1"]), &routes),
        Action::Close(CloseReason::UnknownMethod)
    ));
    assert!(matches!(
        dispatch(&lines(&["get / HTTP/1.1"]), &routes),
        Action::Close(CloseReason::UnknownMethod)
    ));
    assert!(matches!(
        dispatch(&lines(&["PATCH / HTTP/1.1", "no colon"]), &routes),
        Action::Close(CloseReason::MalformedHeader)
    ));
}

#[test]
fn handler_response_is_verbatim() {
    let answer = Response::new(
        HttpStatus::NotFound,
        "custom".to_string(),
        vec![("X".to_string(), "y".to_string())],
    );
    let kept = handler_response(Some(Response::new(
        HttpStatus::NotFound,
        "custom".to_string(),
        vec![("X".to_string(), "y".to_string())],
    )));
    assert_eq!(kept, answer);
}

#[test]
fn handler_fault_becomes_500() {
    let response = handler_response(None);
    assert_eq!(response, internal_server_error_response());
    let wire = response.to_string();
    assert!(wire.starts_with(
        "HTTP/1.1 500 Internal Server Error\r\nContent-Type: text/html; charset=utf-8\r\n\r\n"
    ));
    assert!(wire.ends_with(INTERNAL_SERVER_ERROR_PAGE));
}

#[test]
fn end_to_end_without_the_socket() {
    let hello: Handler =
        Arc::new(|_request: Request| Response::new(HttpStatus::OK, "hello".to_string(), vec![]));
    let mut server: WebServer<Handler> = WebServer::new("localhost", "0");
    assert!(server.add_route(RouteHandler::new(HttpMethod::GET, "/", hello)));
    let routes = match server.start() {
        StartAction::Launch { endpoint, routes } => {
            assert_eq!(endpoint, "localhost:0");
            routes
        }
        StartAction::AlreadyRunning => panic!("the server was stopped"),
    };

    assert_eq!(
        serve(&["GET / HTTP/1.1", "Host: localhost", ""], &routes),
        Some("HTTP/1.1 200 OK\r\n\r\nhello".to_string())
    );

    let missing = serve(&["GET /missing HTTP/1.1", ""], &routes).unwrap();
    assert!(missing.starts_with("HTTP/1.1 404 Not Found\r\n"));
    assert!(missing.ends_with(&format!("\r\n\r\n{}", NOT_FOUND_PAGE)));

    let failed = handler_response(None).to_string();
    assert!(failed.starts_with("HTTP/1.1 500 Internal Server Error\r\n"));
    assert!(failed.ends_with(&format!("\r\n\r\n{}", INTERNAL_SERVER_ERROR_PAGE)));

    assert_eq!(
        serve(&["GET / HTTP/1.1", ""], &routes),
        Some("HTTP/1.1 200 OK\r\n\r\nhello".to_string())
    );
    assert_eq!(serve(&["nonsense"], &routes), None);
}

#[test]
fn handler_sees_the_parsed_request() {
    let routes = hello_routes();
    assert_eq!(
        serve(&["POST /echo HTTP/1.1", "K: v", "", "ignored"], &routes),
        Some("HTTP/1.1 200 OK\r\nK:  v\r\n\r\nPOST /echo".to_string())
    );
}
