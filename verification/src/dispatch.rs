//! What is done with a connection: the request is read and its route looked
//! up, the handler of the route is called by the caller of this library,
//! which alone can contain a handler that fails, and the outcome of that call
//! becomes the response.

use crate::http_method::HttpMethod;
use crate::http_status::HttpStatus;
use crate::request::{
    has_no_colon, header_text, is_word, law_written_request_is_read_back, parse_request,
    request_line, ParseError, Request, RequestView,
};
use crate::response::{Response, ResponseView};
use crate::routehandler::{find_route, first_match, lemma_first_match, RouteHandler};
use crate::webserver::{law_route_found_by_its_own, ServerState};
use vstd::prelude::*;

verus! {

/// The body of the response to a request that no route answers.
pub const NOT_FOUND_PAGE: &'static str = r#"<!DOCTYPE html>
                <html lang="en">
                <head>
                    <meta charset="UTF-8">
                    <title>404 Not Found</title>
                    <style>
                        body { font-family: sans-serif; background: #f8f8f8; color: #333; text-align: center; margin-top: 10%; }
                        h1 { font-size: 3em; margin-bottom: 0.2em; }
                        p { font-size: 1.2em; }
                    </style>
                </head>
                <body>
                    <h1>404 Not Found</h1>
                    <p>The page you requested could not be found.</p>
                </body>
                </html>
                "#;

/// The body of the response to a request whose handler failed.
pub const INTERNAL_SERVER_ERROR_PAGE: &'static str = r#"<!DOCTYPE html>
                    <html lang="en">
                    <head>
                        <meta charset="UTF-8">
                        <title>500 Internal Server Error</title>
                        <style>
                            body { font-family: sans-serif; background: #f8f8f8; color: #333; text-align: center; margin-top: 10%; }
                            h1 { font-size: 3em; margin-bottom: 0.2em; }
                            p { font-size: 1.2em; }
                        </style>
                    </head>
                    <body>
                        <h1>500 Internal Server Error</h1>
                        <p>The server encountered an unexpected condition.</p>
                    </body>
                    </html>
                    "#;

/// The one header of the two fixed pages.
pub open spec fn page_headers() -> Seq<(Seq<char>, Seq<char>)> {
    seq![("Content-Type"@, "text/html; charset=utf-8"@)]
}

/// The response to a request that no route answers.
pub open spec fn not_found_view() -> ResponseView {
    ResponseView {
        status: HttpStatus::NotFound,
        headers: page_headers(),
        body: NOT_FOUND_PAGE@,
    }
}

/// The response to a request whose handler failed.
pub open spec fn internal_server_error_view() -> ResponseView {
    ResponseView {
        status: HttpStatus::InternalServerError,
        headers: page_headers(),
        body: INTERNAL_SERVER_ERROR_PAGE@,
    }
}

/// Builds the response to a request that no route answers: status 404, the
/// content type of an HTML page and the fixed page.
pub fn not_found_response() -> (response: Response)
    ensures
        response@ == not_found_view(),
{
    let mut headers: Vec<(String, String)> = Vec::new();
    headers.push(("Content-Type".to_owned(), "text/html; charset=utf-8".to_owned()));
    let response = Response::new(HttpStatus::NotFound, NOT_FOUND_PAGE.to_owned(), headers);
    assert(response@.headers == page_headers());
    response
}

/// Builds the response to a request whose handler failed: status 500, the
/// content type of an HTML page and the fixed page. Nothing of the failure
/// stands in it.
pub fn internal_server_error_response() -> (response: Response)
    ensures
        response@ == internal_server_error_view(),
{
    let mut headers: Vec<(String, String)> = Vec::new();
    headers.push(("Content-Type".to_owned(), "text/html; charset=utf-8".to_owned()));
    let response = Response::new(
        HttpStatus::InternalServerError,
        INTERNAL_SERVER_ERROR_PAGE.to_owned(),
        headers,
    );
    assert(response@.headers == page_headers());
    response
}

/// Why a connection is closed without an answer.
#[derive(Clone, Copy, PartialEq, Eq, Debug, Structural)]
pub enum CloseReason {
    /// There is no request line, or it holds fewer than two words.
    MalformedRequestLine,
    /// A header line holds no colon.
    MalformedHeader,
    /// The request line names none of the methods that can be served.
    UnknownMethod,
}

/// What is to be done with a connection whose lines were read.
#[derive(Debug)]
pub enum Action {
    /// Close the connection and write nothing.
    Close(CloseReason),
    /// Write this response; no handler is called.
    Respond(Response),
    /// Call the handler of the route of index `route` with `request`, so
    /// that a failure of the handler is contained, and write what
    /// `handler_response` makes of the outcome.
    Invoke { route: usize, request: Request },
}

/// An action, as plain values.
pub enum ActionView {
    Close(CloseReason),
    Respond(ResponseView),
    Invoke { route: int, request: RequestView },
}

impl View for Action {
    type V = ActionView;

    open spec fn view(&self) -> ActionView {
        match *self {
            Action::Close(reason) => ActionView::Close(reason),
            Action::Respond(response) => ActionView::Respond(response@),
            Action::Invoke { route, request } => ActionView::Invoke {
                route: route as int,
                request: request@,
            },
        }
    }
}

/// The action that the lines of a connection call for, given the routes.
///
/// Lines that are no request close the connection, and so does a request
/// whose method is unknown. A request that the first of the routes to answer
/// it answers goes to the handler of that route. A request that no route
/// answers gets the fixed response of status 404.
pub open spec fn decide<H>(lines: Seq<Seq<char>>, routes: Seq<RouteHandler<H>>) -> ActionView {
    match parse_request(lines) {
        Err(ParseError::MalformedRequestLine) => ActionView::Close(
            CloseReason::MalformedRequestLine,
        ),
        Err(ParseError::MalformedHeader) => ActionView::Close(CloseReason::MalformedHeader),
        Ok(request) => if request.method == HttpMethod::Unknown {
            ActionView::Close(CloseReason::UnknownMethod)
        } else {
            match first_match(routes, request.method, request.path) {
                Some(route) => ActionView::Invoke { route, request },
                None => ActionView::Respond(not_found_view()),
            }
        },
    }
}

/// Decides what is to be done with a connection from the lines read from it,
/// which are those up to the empty line that ends the headers: see `decide`.
pub fn dispatch<H>(raw_request: &Vec<String>, routes: &Vec<RouteHandler<H>>) -> (action: Action)
    ensures
        action@ == decide(raw_request.deep_view(), routes@),
        action matches Action::Invoke { route, .. } ==> route < routes.len(),
{
    match Request::new(raw_request) {
        Err(ParseError::MalformedRequestLine) => Action::Close(CloseReason::MalformedRequestLine),
        Err(ParseError::MalformedHeader) => Action::Close(CloseReason::MalformedHeader),
        Ok(request) => {
            if request.method == HttpMethod::Unknown {
                return Action::Close(CloseReason::UnknownMethod);
            }
            match find_route(routes, request.method, request.path.as_str()) {
                Some(route) => {
                    proof {
                        lemma_first_match(routes@, request.method, request.path@);
                    }
                    Action::Invoke { route, request }
                },
                None => Action::Respond(not_found_response()),
            }
        },
    }
}

/// The response to a request whose handler was called: what the handler
/// returned, as it is, or for a handler that failed (`None`) the fixed
/// response of status 500.
pub fn handler_response(outcome: Option<Response>) -> (response: Response)
    ensures
        match outcome {
            Some(answer) => response == answer,
            None => response@ == internal_server_error_view(),
        },
{
    match outcome {
        Some(answer) => answer,
        None => internal_server_error_response(),
    }
}

/// A handler is called only for the request that was read and only if its
/// route is the first to answer that request, and the fixed response of
/// status 404 is given only where no route answers it.
pub proof fn law_decision_follows_the_routes<H>(
    lines: Seq<Seq<char>>,
    routes: Seq<RouteHandler<H>>,
)
    ensures
        match decide(lines, routes) {
            ActionView::Close(_) => true,
            ActionView::Respond(response) => {
                &&& response == not_found_view()
                &&& parse_request(lines) matches Ok(request)
                &&& forall|k: int|
                    0 <= k < routes.len() ==> !(#[trigger] routes[k]).handles(
                        request.method,
                        request.path,
                    )
            },
            ActionView::Invoke { route, request } => {
                &&& parse_request(lines) == Ok::<RequestView, ParseError>(request)
                &&& request.method != HttpMethod::Unknown
                &&& 0 <= route < routes.len()
                &&& routes[route].handles(request.method, request.path)
                &&& forall|k: int|
                    0 <= k < route ==> !(#[trigger] routes[k]).handles(
                        request.method,
                        request.path,
                    )
            },
        },
{
    if let Ok(request) = parse_request(lines) {
        lemma_first_match(routes, request.method, request.path);
    }
}

/// Lines that are no request and requests of unknown method get no answer,
/// whatever the routes are.
pub proof fn law_malformed_input_closes<H>(lines: Seq<Seq<char>>, routes: Seq<RouteHandler<H>>)
    ensures
        decide(lines, routes) is Close <==> (parse_request(lines) is Err || (parse_request(
            lines,
        ) matches Ok(request) && request.method == HttpMethod::Unknown)),
{
}

/// From the wire to the route: the lines that a client writes for the method
/// and path of a registered route call for the handler of that route, with
/// the request as it was written; written for a method and path that are not
/// registered, they get the fixed response of status 404.
pub proof fn law_written_request_reaches_its_route<H>(
    state: ServerState<H>,
    method: HttpMethod,
    path: Seq<char>,
    version: Seq<char>,
    headers: Seq<(Seq<char>, Seq<char>)>,
    rest: Seq<Seq<char>>,
)
    requires
        state.wf(),
        method != HttpMethod::Unknown,
        is_word(path),
        is_word(version),
        forall|i: int|
            0 <= i < headers.len() ==> {
                &&& has_no_colon((#[trigger] headers[i]).0)
                &&& has_no_colon(headers[i].1)
            },
    ensures
        ({
            let lines = seq![request_line(method, path, version)] + headers.map_values(
                |header: (Seq<char>, Seq<char>)| header_text(header),
            ) + seq![Seq::<char>::empty()] + rest;
            let request = RequestView { method, path, headers, body: Seq::empty() };
            &&& forall|i: int|
                0 <= i < state.routes.len() && (#[trigger] state.routes[i]).handles(method, path)
                    ==> decide(lines, state.routes) == (ActionView::Invoke { route: i, request })
            &&& !state.has_route(method, path) ==> decide(lines, state.routes)
                == ActionView::Respond(not_found_view())
        }),
{
    let lines = seq![request_line(method, path, version)] + headers.map_values(
        |header: (Seq<char>, Seq<char>)| header_text(header),
    ) + seq![Seq::<char>::empty()] + rest;
    law_written_request_is_read_back(method, path, version, headers, rest);
    lemma_first_match(state.routes, method, path);
    assert forall|i: int|
        0 <= i < state.routes.len() && (#[trigger] state.routes[i]).handles(
            method,
            path,
        ) implies first_match(state.routes, method, path) == Some(i) by {
        law_route_found_by_its_own(state, i, method, path);
    }
}

} // verus!
