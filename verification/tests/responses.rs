use mini_http::head::content_length;
use mini_http::headers::Headers;
use mini_http::response::push_status_line;
use mini_http::{Response, ResponseWrapper};

fn response(status: u16, headers: Headers, body: &[u8]) -> ResponseWrapper {
    ResponseWrapper::new(Response { status, headers, body: body.to_vec() })
}

fn table(fields: &[(&str, &str)]) -> Headers {
    let mut map = Headers::new();
    for (name, value) in fields {
        map.append(
            http::header::HeaderName::from_bytes(name.as_bytes()).unwrap(),
            http::header::HeaderValue::from_str(value).unwrap(),
        );
    }
    map
}

fn head_text(mut r: ResponseWrapper) -> String {
    assert!(r.headers_fit());
    r.serialize_headers();
    String::from_utf8(r.header_data().to_vec()).unwrap()
}

#[test]
fn a_response_with_a_body() {
    let r = response(200, Headers::new(), b"Hello!\n");
    assert_eq!(
        head_text(r),
        "HTTP/1.1 200 OK\r\nserver: mini-http (rust)\r\ncontent-length: 7\r\n\r\n"
    );
}

#[test]
fn a_response_without_a_body_gives_no_length() {
    let r = response(204, Headers::new(), b"");
    assert_eq!(head_text(r), "HTTP/1.1 204 No Content\r\nserver: mini-http (rust)\r\n\r\n");
}

#[test]
fn a_status_without_a_reason_phrase() {
    let r = response(299, Headers::new(), b"");
    assert_eq!(head_text(r), "HTTP/1.1 299 Unsupported Status\r\nserver: mini-http (rust)\r\n\r\n");
}

#[test]
fn headers_of_the_handler_go_out_in_their_order() {
    let headers = table(&[("X-What-Up", "Nothin"), ("Set-Cookie", "a"), ("X-Z", "1"), ("Set-Cookie", "b")]);
    assert_eq!(
        head_text(response(404, headers, b"no")),
        "HTTP/1.1 404 Not Found\r\nx-what-up: Nothin\r\nset-cookie: a\r\nset-cookie: b\r\nx-z: 1\r\n\
         server: mini-http (rust)\r\ncontent-length: 2\r\n\r\n"
    );
}

#[test]
fn the_server_names_itself_and_the_length_is_that_of_the_body() {
    let headers = table(&[("Server", "other"), ("Server", "another"), ("Content-Length", "99")]);
    let mut r = response(200, headers, b"four");
    assert!(r.headers_fit());
    r.serialize_headers();
    let servers: Vec<&[u8]> = r.headers().get_all("server").iter().map(|v| v.as_bytes()).collect();
    assert_eq!(servers, vec![&b"mini-http (rust)"[..]]);
    assert_eq!(content_length(r.headers()), 4);
    assert_eq!(
        r.header_data(),
        &b"HTTP/1.1 200 OK\r\nserver: mini-http (rust)\r\ncontent-length: 4\r\n\r\n"[..]
    );
    assert_eq!(r.body(), b"four");
    assert_eq!(r.status(), 200);
}

#[test]
fn a_length_set_on_an_empty_response_is_kept() {
    let headers = table(&[("Content-Length", "99")]);
    assert_eq!(
        head_text(response(200, headers, b"")),
        "HTTP/1.1 200 OK\r\ncontent-length: 99\r\nserver: mini-http (rust)\r\n\r\n"
    );
}

#[test]
fn the_head_ends_at_the_first_blank_line() {
    let mut r = response(200, Headers::new(), b"\r\n\r\n");
    r.serialize_headers();
    let mut message = r.header_data().to_vec();
    message.extend_from_slice(r.body());
    let first = message.windows(4).position(|w| w == b"\r\n\r\n").unwrap();
    assert_eq!(first + 4, r.header_data().len());
}

#[test]
fn a_header_name_adds_no_line() {
    let mut headers = Headers::new();
    headers.insert(
        "a-name-that-is-longer-than-sixty-three-bytes: and\r\nthat: breaks\r\n\r\nits line",
        http::header::HeaderValue::from_static("v"),
    );
    let head = head_text(response(200, headers, b""));
    assert_eq!(head.matches("\r\n").count(), 2 + 2);
    assert_eq!(head.find("\r\n\r\n"), Some(head.len() - 4));
    assert_eq!(head.matches(':').count(), 2);
}

#[test]
fn a_head_reads_back() {
    let headers = table(&[("A", "1"), ("B", "x: y"), ("a", "2"), ("C", "")]);
    let head = head_text(response(418, headers, b"tea"));
    let mut lines = head.split("\r\n");
    let status: Vec<&str> = lines.next().unwrap().splitn(3, ' ').collect();
    assert_eq!(status, vec!["HTTP/1.1", "418", "I'm a teapot"]);
    let fields: Vec<(&str, &str)> = lines
        .take_while(|line| !line.is_empty())
        .map(|line| line.split_once(':').unwrap())
        .map(|(name, value)| (name, value.trim()))
        .collect();
    assert_eq!(
        fields,
        vec![
            ("a", "1"),
            ("a", "2"),
            ("b", "x: y"),
            ("c", ""),
            ("server", "mini-http (rust)"),
            ("content-length", "3")
        ]
    );
}

#[test]
fn a_given_reason_phrase_goes_out() {
    let mut r = response(200, Headers::new(), b"");
    r.serialize_headers_with(Some(b"Fine".to_vec()));
    assert_eq!(r.header_data(), &b"HTTP/1.1 200 Fine\r\nserver: mini-http (rust)\r\n\r\n"[..]);
    let mut out = b"> ".to_vec();
    push_status_line(&mut out, 503, None);
    assert_eq!(out, b"> HTTP/1.1 503 Unsupported Status\r\n");
}

#[test]
fn room_for_the_headers_is_checked() {
    let mut headers = Headers::new();
    for i in 0..32767 {
        headers.insert(
            http::header::HeaderName::from_bytes(format!("n{}", i).as_bytes()).unwrap(),
            http::header::HeaderValue::from_static("v"),
        );
    }
    assert!(!response(200, headers.clone(), b"x").headers_fit());
    let mut r = response(200, headers, b"");
    assert!(r.headers_fit());
    r.serialize_headers();
    assert_eq!(r.headers().keys_len(), 32768);
}

#[test]
fn the_answer_to_a_refused_request_has_no_head() {
    let r = ResponseWrapper::bad_request();
    assert_eq!(r.status(), 400);
    assert_eq!(r.header_data(), b"");
    assert_eq!(r.body(), b"bad request");
    assert_eq!(r.headers().len(), 0);
}
