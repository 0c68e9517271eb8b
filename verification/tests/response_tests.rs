use webserver::http_status::HttpStatus;
use webserver::response::Response;

fn header(name: &str, value: &str) -> (String, String) {
    (name.to_string(), value.to_string())
}

/// Reads a response back from the wire: status text, headers, body.
fn read_back(wire: &str) -> (String, Vec<(String, String)>, String) {
    let (head, body) = wire.split_once("\r\n\r\n").unwrap();
    let mut lines = head.split("\r\n");
    let status_line = lines.next().unwrap();
    let status = status_line.strip_prefix("HTTP/1.1 ").unwrap().to_string();
    let mut headers = Vec::new();
    for line in lines {
        let (name, value) = line.split_once(": ").unwrap();
        headers.push(header(name, value));
    }
    (status, headers, body.to_string())
}

#[test]
fn response_new_keeps_its_parts() {
    let response = Response::new(
        HttpStatus::NotFound,
        "gone".to_string(),
        vec![header("A", "1"), header("B", "2")],
    );
    assert_eq!(response.status, HttpStatus::NotFound);
    assert_eq!(response.body, "gone");
    assert_eq!(response.headers, vec![header("A", "1"), header("B", "2")]);
}

#[test]
fn serialize_without_headers() {
    let response = Response::new(HttpStatus::OK, "hello".to_string(), vec![]);
    assert_eq!(response.to_string(), "HTTP/1.1 200 OK\r\n\r\nhello");
}

#[test]
fn serialize_with_one_header() {
    let response = Response::new(
        HttpStatus::OK,
        "hi".to_string(),
        vec![header("Content-Type", "text/plain")],
    );
    assert_eq!(response.to_string(), "HTTP/1.1 200 OK\r\nContent-Type: text/plain\r\n\r\nhi");
}

#[test]
fn serialize_keeps_header_order_and_duplicates() {
    let response = Response::new(
        HttpStatus::InternalServerError,
        String::new(),
        vec![header("Set-Cookie", "a=1"), header("X-B", "2"), header("Set-Cookie", "c=3")],
    );
    assert_eq!(
        response.to_string(),
        "HTTP/1.1 500 Internal Server Error\r\nSet-Cookie: a=1\r\nX-B: 2\r\nSet-Cookie: c=3\r\n\r\n"
    );
}

#[test]
fn serialize_adds_no_content_length() {
    let response = Response::new(HttpStatus::OK, "0123456789".to_string(), vec![]);
    let wire = response.to_string();
    assert!(!wire.contains("Content-Length"));
    assert!(wire.ends_with("\r\n\r\n0123456789"));
}

#[test]
fn serialize_leaves_the_body_as_it_is() {
    let body = "line one\r\n\r\nline two: é€\n";
    let response = Response::new(HttpStatus::OK, body.to_string(), vec![header("K", "v")]);
    assert_eq!(response.to_string(), format!("HTTP/1.1 200 OK\r\nK: v\r\n\r\n{}", body));
}

#[test]
fn round_trip_of_each_status() {
    for status in [HttpStatus::OK, HttpStatus::NotFound, HttpStatus::InternalServerError] {
        let response = Response::new(
            status,
            "hi".to_string(),
            vec![header("Content-Type", "text/plain")],
        );
        let (status_text, headers, body) = read_back(&response.to_string());
        assert_eq!(status_text, status.to_string());
        assert_eq!(headers, response.headers);
        assert_eq!(headers, vec![header("Content-Type", "text/plain")]);
        assert_eq!(body, "hi");
    }
}

#[test]
fn round_trip_of_several_headers() {
    let sent =
        vec![header("Content-Type", "text/html"), header("Content-Length", "2"), header("X", "y")];
    let response = Response::new(HttpStatus::NotFound, "no".to_string(), sent);
    let (status_text, headers, body) = read_back(&response.to_string());
    assert_eq!(status_text, "404 Not Found");
    assert_eq!(headers, response.headers);
    assert_eq!(body, "no");
}
