use webserver::http_method::HttpMethod;
use webserver::request::{read_header, ParseError, Request};

fn lines(texts: &[&str]) -> Vec<String> {
    texts.iter().map(|text| text.to_string()).collect()
}

fn header(name: &str, value: &str) -> (String, String) {
    (name.to_string(), value.to_string())
}

#[test]
fn parse_request_with_two_headers() {
    let request =
        Request::new(&lines(&["GET /foo HTTP/1.1", "Host: example.com", "X-Test: 1", ""])).unwrap();
    assert_eq!(request.method, HttpMethod::GET);
    assert_eq!(request.path, "/foo");
    assert_eq!(request.headers, vec![header("Host", " example.com"), header("X-Test", " 1")]);
    assert_eq!(request.body, "");
}

#[test]
fn parse_request_without_the_empty_line() {
    let request =
        Request::new(&lines(&["GET /foo HTTP/1.1", "Host: example.com", "X-Test: 1"])).unwrap();
    assert_eq!(request.method, HttpMethod::GET);
    assert_eq!(request.path, "/foo");
    assert_eq!(request.headers, vec![header("Host", " example.com"), header("X-Test", " 1")]);
    assert_eq!(request.body, "");
}

#[test]
fn parse_request_line_alone() {
    let request = Request::new(&lines(&["POST /submit"])).unwrap();
    assert_eq!(request.method, HttpMethod::POST);
    assert_eq!(request.path, "/submit");
    assert!(request.headers.is_empty());
    assert_eq!(request.body, "");
}

#[test]
fn parse_each_method() {
    assert_eq!(Request::new(&lines(&["GET /"])).unwrap().method, HttpMethod::GET);
    assert_eq!(Request::new(&lines(&["POST /"])).unwrap().method, HttpMethod::POST);
    assert_eq!(Request::new(&lines(&["PUT /"])).unwrap().method, HttpMethod::PUT);
    assert_eq!(Request::new(&lines(&["DELETE /"])).unwrap().method, HttpMethod::DELETE);
}

#[test]
fn parse_unrecognized_method_is_unknown() {
    let request = Request::new(&lines(&["PATCH /thing HTTP/1.1", "A: b"])).unwrap();
    assert_eq!(request.method, HttpMethod::Unknown);
    assert_eq!(request.path, "/thing");
    assert_eq!(request.headers, vec![header("A", " b")]);
    assert_eq!(Request::new(&lines(&["get /"])).unwrap().method, HttpMethod::Unknown);
}

#[test]
fn parse_request_line_with_extra_blanks_and_words() {
    let request = Request::new(&lines(&["  GET \t /a/b   HTTP/1.1 extra words "])).unwrap();
    assert_eq!(request.method, HttpMethod::GET);
    assert_eq!(request.path, "/a/b");
}

#[test]
fn parse_nothing_is_a_malformed_request_line() {
    assert_eq!(Request::new(&lines(&[])), Err(ParseError::MalformedRequestLine));
}

#[test]
fn parse_empty_first_line_is_a_malformed_request_line() {
    assert_eq!(Request::new(&lines(&[""])), Err(ParseError::MalformedRequestLine));
    assert_eq!(
        Request::new(&lines(&["", "GET / HTTP/1.1"])),
        Err(ParseError::MalformedRequestLine)
    );
    assert_eq!(Request::new(&lines(&["   "])), Err(ParseError::MalformedRequestLine));
}

#[test]
fn parse_one_word_is_a_malformed_request_line() {
    assert_eq!(Request::new(&lines(&["GET"])), Err(ParseError::MalformedRequestLine));
    assert_eq!(Request::new(&lines(&["GET", "Host: a"])), Err(ParseError::MalformedRequestLine));
}

#[test]
fn parse_header_without_colon_is_malformed() {
    assert_eq!(
        Request::new(&lines(&["GET / HTTP/1.1", "Host example.com"])),
        Err(ParseError::MalformedHeader)
    );
    assert_eq!(
        Request::new(&lines(&["GET / HTTP/1.1", "Host: a", "broken", "X: y"])),
        Err(ParseError::MalformedHeader)
    );
}

#[test]
fn parse_request_line_is_looked_at_first() {
    assert_eq!(Request::new(&lines(&["GET", "no colon"])), Err(ParseError::MalformedRequestLine));
}

#[test]
fn parse_reads_nothing_after_the_empty_line() {
    let request =
        Request::new(&lines(&["GET / HTTP/1.1", "A: 1", "", "no colon", "B: 2"])).unwrap();
    assert_eq!(request.headers, vec![header("A", " 1")]);
    assert_eq!(request.body, "");
}

#[test]
fn parse_keeps_duplicate_headers_in_order() {
    let request = Request::new(&lines(&["GET / HTTP/1.1", "A: 1", "B: 2", "A: 3"])).unwrap();
    assert_eq!(request.headers, vec![header("A", " 1"), header("B", " 2"), header("A", " 3")]);
}

#[test]
fn header_value_ends_at_the_second_colon() {
    assert_eq!(read_header("Host: localhost:8080"), Some(header("Host", " localhost")));
    let request = Request::new(&lines(&["GET / HTTP/1.1", "Host: localhost:8080"])).unwrap();
    assert_eq!(request.headers, vec![header("Host", " localhost")]);
}

#[test]
fn header_edges() {
    assert_eq!(read_header("Host:example.com"), Some(header("Host", "example.com")));
    assert_eq!(read_header("Host:"), Some(header("Host", "")));
    assert_eq!(read_header(":value"), Some(header("", "value")));
    assert_eq!(read_header(":"), Some(header("", "")));
    assert_eq!(read_header("no colon"), None);
    assert_eq!(read_header(""), None);
}

#[test]
fn request_to_string_is_method_and_path() {
    let request = Request::new(&lines(&["DELETE /items/7 HTTP/1.1"])).unwrap();
    assert_eq!(request.to_string(), "DELETE /items/7");
    let unknown = Request::new(&lines(&["BREW /pot"])).unwrap();
    assert_eq!(unknown.to_string(), "UNKNOWN /pot");
}
