use web_server::requests::{
    endpoint_name, parse_request_line, process_request, requested_page, HTTPRequest,
};
use web_server::response::{get_http_static, get_response, HTTPResponse, Page};

fn page(name: &str, content: &str) -> Page {
    Page { name: name.to_string(), content: content.to_string() }
}

fn site() -> Vec<Page> {
    vec![page("index", "<h1>Home</h1>"), page("error_404", "gone")]
}

fn test_process_reequest_success(method: &HTTPRequest) {
    let binding = process_request(format!("{:#?} / HTTP/1.1", method).as_str(), &site());
    if method.as_str() == "POST" {
        assert_eq!(binding.lines().next().unwrap(), "HTTP/1.1 201 Created")
    } else {
        assert_eq!(binding.lines().next().unwrap(), "HTTP/1.1 200 Ok")
    }
}

fn test_process_reequest_error(method: &HTTPRequest) {
    let binding =
        process_request(format!("{:#?} /test_request_endpoint HTTP/1.1", method).as_str(), &site());
    assert_eq!(binding.lines().next().unwrap(), "HTTP/1.1 404 Not Found")
}

#[test]
fn test_all_http_methods() {
    let methods = HTTPRequest::allowed_methods();
    for method in methods {
        test_process_reequest_error(&method);
        test_process_reequest_success(&method);
    }
}

#[test]
fn allowed_methods_in_order() {
    let methods = HTTPRequest::allowed_methods();
    let names: Vec<&str> = methods.iter().map(|m| m.as_str()).collect();
    assert_eq!(names, vec!["GET", "POST", "PUT", "PATCH", "DELETE"]);
}

#[test]
fn get_index_serves_its_content() {
    let pages = vec![page("index", "hello")];
    assert_eq!(
        process_request("GET /index HTTP/1.1", &pages),
        "HTTP/1.1 200 Ok\r\nContent-Length: 5\r\n\r\nhello"
    );
}

#[test]
fn post_to_missing_page_is_not_found() {
    let pages = vec![page("error_404", "gone")];
    let r = process_request("POST /missing HTTP/1.1", &pages);
    assert!(r.starts_with("HTTP/1.1 404 Not Found"));
    assert_eq!(r, "HTTP/1.1 404 Not Found\r\nContent-Length: 4\r\n\r\ngone");
}

#[test]
fn every_method_serves_existing_page() {
    let pages = vec![page("about", "us")];
    for (m, status) in [
        ("GET", "200 Ok"),
        ("POST", "201 Created"),
        ("PUT", "200 Ok"),
        ("PATCH", "200 Ok"),
        ("DELETE", "200 Ok"),
    ] {
        let r = process_request(&format!("{} /about HTTP/1.1", m), &pages);
        assert_eq!(r, format!("HTTP/1.1 {}\r\nContent-Length: 2\r\n\r\nus", status));
    }
}

#[test]
fn missing_page_without_not_found_page_uses_fallback() {
    let r = process_request("PUT /nothing HTTP/1.1", &Vec::new());
    assert_eq!(r, "HTTP/1.1 404 Not Found\r\nContent-Length: 21\r\n\r\nNo Resource(s) Found.");
}

#[test]
fn root_path_is_index() {
    let pages = vec![page("index", "root")];
    assert_eq!(requested_page("GET / HTTP/1.1"), "index");
    assert_eq!(
        process_request("GET / HTTP/1.1", &pages),
        "HTTP/1.1 200 Ok\r\nContent-Length: 4\r\n\r\nroot"
    );
}

#[test]
fn malformed_line_is_server_error() {
    let pages = vec![page("error_500", "oops")];
    for line in ["", "FETCH /a HTTP/1.1", "GET /a HTTP/1.0", "GET a HTTP/1.1", "GET /a b HTTP/1.1"] {
        assert_eq!(requested_page(line), "error_500");
        assert_eq!(
            process_request(line, &pages),
            "HTTP/1.1 500 Internal Server Error\r\nContent-Length: 4\r\n\r\noops"
        );
    }
}

#[test]
fn malformed_line_without_error_page_is_server_error() {
    assert_eq!(
        process_request("nonsense", &Vec::new()),
        "HTTP/1.1 500 Internal Server Error\r\nContent-Length: 21\r\n\r\nNo Resource(s) Found."
    );
    assert_eq!(
        process_request("", &vec![page("error_404", "gone")]),
        "HTTP/1.1 500 Internal Server Error\r\nContent-Length: 4\r\n\r\ngone"
    );
    assert_eq!(
        process_request("FOO / HTTP/1.1", &vec![page("error_404", "gone"), page("error_500", "oops")]),
        "HTTP/1.1 500 Internal Server Error\r\nContent-Length: 4\r\n\r\noops"
    );
}

#[test]
fn content_length_counts_bytes() {
    let pages = vec![page("cafe", "café ☕")];
    let r = process_request("GET /cafe HTTP/1.1", &pages);
    assert_eq!(r, "HTTP/1.1 200 Ok\r\nContent-Length: 9\r\n\r\ncafé ☕");
    let pages = vec![page("empty", "")];
    let r = process_request("GET /empty HTTP/1.1", &pages);
    assert_eq!(r, "HTTP/1.1 200 Ok\r\nContent-Length: 0\r\n\r\n");
    let long = "x".repeat(1234);
    let pages = vec![page("long", &long)];
    let r = process_request("DELETE /long HTTP/1.1", &pages);
    assert_eq!(r, format!("HTTP/1.1 200 Ok\r\nContent-Length: 1234\r\n\r\n{}", long));
}

#[test]
fn slashes_are_removed_from_endpoint() {
    assert_eq!(endpoint_name("/a/b/"), "ab");
    assert_eq!(endpoint_name("///"), "index");
    assert_eq!(endpoint_name("/"), "index");
    assert_eq!(requested_page("PATCH /docs/intro HTTP/1.1"), "docsintro");
}

#[test]
fn first_matching_page_wins() {
    let pages = vec![page("a", "first"), page("a", "second")];
    let r = process_request("GET /a HTTP/1.1", &pages);
    assert!(r.ends_with("\r\n\r\nfirst"));
}

#[test]
fn parse_request_line_splits_method_and_path() {
    assert_eq!(
        parse_request_line("DELETE /x/y HTTP/1.1").map(|(m, p)| (m.as_str().to_string(), p)),
        Some(("DELETE".to_string(), "/x/y".to_string()))
    );
    assert!(parse_request_line("GET  HTTP/1.1").is_none());
    assert!(parse_request_line("get /a HTTP/1.1").is_none());
    assert!(parse_request_line("GET /a\tb HTTP/1.1").is_none());
}

#[test]
fn status_catalog() {
    for (key, code, msg) in [
        ("200", 200, "Ok"),
        ("201", 201, "Created"),
        ("500", 500, "Internal Server Error"),
        ("405", 405, "Method Not Allowed"),
        ("404", 404, "Not Found"),
        ("999", 404, "Not Found"),
        ("", 404, "Not Found"),
    ] {
        let r = get_http_static(key);
        assert_eq!(r.status_code, code);
        assert_eq!(r.status_message, msg);
    }
}

#[test]
fn response_update_replaces_status() {
    let mut r = HTTPResponse::new(200, "Ok");
    r.update(418, "Teapot");
    assert_eq!(r.status_code, 418);
    assert_eq!(r.status_message, "Teapot");
}

#[test]
fn get_response_serves_page_or_not_found() {
    let pages = vec![page("a", "A")];
    assert_eq!(
        get_response(HTTPResponse::new(201, "Created"), "a", &pages),
        "HTTP/1.1 201 Created\r\nContent-Length: 1\r\n\r\nA"
    );
    assert_eq!(
        get_response(HTTPResponse::new(201, "Created"), "b", &pages),
        "HTTP/1.1 404 Not Found\r\nContent-Length: 21\r\n\r\nNo Resource(s) Found."
    );
}

#[test]
fn unicode_whitespace_ends_no_path() {
    let pages = vec![page("\u{a0}", "nbsp"), page("error_500", "oops")];
    for line in ["GET /\u{a0} HTTP/1.1", "GET /a\u{3000}b HTTP/1.1", "POST /\u{2028} HTTP/1.1"] {
        assert_eq!(requested_page(line), "error_500");
        assert_eq!(
            process_request(line, &pages),
            "HTTP/1.1 500 Internal Server Error\r\nContent-Length: 4\r\n\r\noops"
        );
    }
}

#[test]
fn request_found_anywhere_in_line() {
    let pages = vec![page("a", "A")];
    for line in ["GET /a HTTP/1.1 x", " GET /a HTTP/1.1", "xyzGET /a HTTP/1.1\r", "GET /b HTTP/2 PUT /a HTTP/1.1"] {
        let r = process_request(line, &pages);
        assert!(r.ends_with("\r\n\r\nA"), "{line:?} gave {r:?}");
    }
    assert_eq!(
        parse_request_line("PUT /q HTTP/1.1 GET /a HTTP/1.1").map(|(m, p)| (m.as_str().to_string(), p)),
        Some(("PUT".to_string(), "/q".to_string()))
    );
}

#[test]
fn protocol_dot_matches_any_but_newline() {
    assert!(parse_request_line("GET /a HTTP/1x1").is_some());
    assert!(parse_request_line("GET /a HTTP/1\n1").is_none());
}
