use mini_http::head::{build_headers, content_length, ParsedHead};
use mini_http::http_stream::{check_body, judge_head, malformed_text};
use mini_http::{ErrorKind, HttpStreamReader, RequestHead};

const GET: &[u8] = b"GET /a?b=c HTTP/1.1\r\nHost: localhost\r\nX-Two: 1\r\nx-two: 2\r\n\r\n";
const POST: &[u8] = b"POST / HTTP/1.1\r\nContent-Length: 4\r\n\r\ndata";

fn read(bytes: &[u8]) -> Option<Result<Option<RequestHead>, ErrorKind>> {
    let mut reader = HttpStreamReader::new();
    assert_eq!(reader.receive_chunk(bytes), bytes.len());
    reader.checked_build_request()
}

fn request(bytes: &[u8]) -> RequestHead {
    match read(bytes) {
        Some(Ok(Some(head))) => head,
        Some(Ok(None)) => panic!("no request yet"),
        Some(Err(error)) => panic!("refused: {:?}", error),
        None => panic!("no head of a request"),
    }
}

fn refusal(bytes: &[u8]) -> ErrorKind {
    match read(bytes) {
        Some(Err(error)) => error,
        _ => panic!("not refused"),
    }
}

fn waits(bytes: &[u8]) -> bool {
    matches!(read(bytes), Some(Ok(None)))
}

fn field(name: &str, value: &str) -> (Vec<u8>, Vec<u8>) {
    (name.as_bytes().to_vec(), value.as_bytes().to_vec())
}

#[test]
fn a_request_in_one_piece() {
    let head = request(GET);
    assert_eq!(head.method(), "GET");
    assert_eq!(head.uri(), "/a?b=c");
    assert_eq!(head.headers().get("host").unwrap(), "localhost");
    let two: Vec<&[u8]> = head.headers().get_all("x-two").iter().map(|v| v.as_bytes()).collect();
    assert_eq!(two, vec![&b"1"[..], &b"2"[..]]);
    assert_eq!(head.headers().keys_len(), 2);
}

#[test]
fn a_request_without_headers() {
    let head = request(b"DELETE /x HTTP/1.0\r\n\r\n");
    assert_eq!(head.method(), "DELETE");
    assert_eq!(head.uri(), "/x");
    assert_eq!(head.version(), "HTTP/1.1");
    assert_eq!(head.headers().len(), 0);
}

#[test]
fn the_target_is_read_as_a_uri() {
    assert_eq!(request(b"GET /a?b#c HTTP/1.1\r\n\r\n").uri(), "/a?b");
    assert_eq!(request(b"OPTIONS * HTTP/1.1\r\n\r\n").uri(), "*");
}

#[test]
fn any_two_chunks_give_the_same_request() {
    for message in [GET, POST] {
        for cut in 0..message.len() {
            let mut reader = HttpStreamReader::new();
            assert_eq!(reader.receive_chunk(&message[..cut]), cut);
            assert!(matches!(reader.try_build_request(), Ok(None)));
            assert_eq!(reader.receive_chunk(&message[cut..]), message.len());
            let head = reader.try_build_request().unwrap().unwrap();
            let whole = request(message);
            assert_eq!(head.method(), whole.method());
            assert_eq!(head.uri(), whole.uri());
            assert_eq!(head.headers(), whole.headers());
        }
    }
}

#[test]
fn single_bytes_give_the_same_request() {
    let mut reader = HttpStreamReader::default();
    let (last, rest) = POST.split_last().unwrap();
    for byte in rest {
        reader.receive_chunk(&[*byte]);
        assert!(matches!(reader.try_build_request(), Ok(None)));
    }
    reader.receive_chunk(&[*last]);
    let head = reader.try_build_request().unwrap().unwrap();
    assert_eq!(head.method(), "POST");
    let (bytes, body_start) = reader.take_message();
    assert_eq!(bytes, POST);
    assert_eq!(&bytes[body_start..], b"data");
}

#[test]
fn a_request_that_was_handed_out_stays_the_answer() {
    let mut reader = HttpStreamReader::new();
    reader.receive_chunk(POST);
    assert_eq!(reader.try_build_request().unwrap().unwrap().method(), "POST");
    assert_eq!(reader.try_build_request().unwrap().unwrap().method(), "POST");
    reader.receive_chunk(b"more");
    assert_eq!(reader.try_build_request().unwrap().unwrap().method(), "POST");
}

#[test]
fn the_reader_is_empty_after_its_message_is_taken() {
    let mut reader = HttpStreamReader::new();
    reader.receive_chunk(GET);
    let (bytes, body_start) = reader.take_message();
    assert_eq!(bytes, GET);
    assert_eq!(body_start, GET.len());
    assert_eq!(reader.receive_chunk(b"x"), 1);
    assert!(matches!(reader.try_build_request(), Ok(None)));
}

#[test]
fn nothing_is_answered_before_the_head_is_whole() {
    assert!(waits(b""));
    assert!(waits(b"\r\n\r"));
    assert!(waits(b"GET / HTTP/1.1\r\nHost: a\r\n"));
    assert!(waits(b"GET / HTTP/1.1\r\nHost: a\r\n\r"));
    assert!(waits(b"GET / HTTP/1.1\n\n"));
}

#[test]
fn nothing_is_answered_before_the_body_is_whole() {
    assert!(waits(b"POST / HTTP/1.1\r\nContent-Length: 4\r\n\r\n"));
    assert!(waits(b"POST / HTTP/1.1\r\nContent-Length: 4\r\n\r\ndat"));
}

#[test]
fn the_first_of_several_lengths_counts() {
    request(b"POST / HTTP/1.1\r\nContent-Length: 2\r\nContent-Length: 9\r\n\r\nab");
    assert!(waits(b"POST / HTTP/1.1\r\nContent-Length: 9\r\nContent-Length: 2\r\n\r\nab"));
}

#[test]
fn a_length_that_is_no_number_is_none() {
    request(b"POST / HTTP/1.1\r\nContent-Length: four\r\n\r\n");
    request(b"POST / HTTP/1.1\r\nContent-Length: 99999999999999999999999999\r\n\r\n");
}

#[test]
fn a_body_beyond_the_stated_length_is_refused() {
    let error = refusal(b"POST / HTTP/1.1\r\nContent-Length: 3\r\n\r\ndata");
    assert_eq!(error.description(), "Request Body Too Large");
    assert_eq!(
        error.display(),
        "RequestBodyTooLarge: Body is larger than stated content-length: 3"
    );
    match refusal(b"GET / HTTP/1.1\r\n\r\nx") {
        ErrorKind::RequestBodyTooLarge(message) => {
            assert_eq!(message, "Body is larger than stated content-length: 0")
        }
        other => panic!("{:?}", other),
    }
}

#[test]
fn a_malformed_head_is_refused_and_shown() {
    let error = refusal(b"GET / HTTP/1.1\r\nA b\r\n\r\n");
    assert_eq!(error.description(), "Malformed HTTP Request");
    match error {
        ErrorKind::MalformedHttpRequest(message) => assert_eq!(
            message,
            "Malformed http request: HeaderName\nOk(\"GET / HTTP/1.1\\r\\nA b\\r\\n\\r\\n\")"
        ),
        other => panic!("{:?}", other),
    }
}

#[test]
fn a_malformed_head_that_is_no_text_is_refused() {
    match refusal(b"GET / HTTP/9.1\r\nA: \xff\r\n\r\n") {
        ErrorKind::MalformedHttpRequest(message) => {
            assert!(message.starts_with("Malformed http request: Version\nErr(Utf8Error"))
        }
        other => panic!("{:?}", other),
    }
}

#[test]
fn there_is_room_for_one_header_per_line_break() {
    match refusal(b"GET / HTTP/1.1\nA: b\nC: d\r\n\r\n") {
        ErrorKind::MalformedHttpRequest(message) => {
            assert!(message.starts_with("Malformed http request: TooManyHeaders\n"))
        }
        other => panic!("{:?}", other),
    }
}

#[test]
fn a_head_without_a_request_line_is_refused() {
    let error = refusal(b"\r\n\r\n");
    assert_eq!(error.description(), "Incomplete HTTP Request");
    assert_eq!(
        error.display(),
        "IncompleteHttpRequest: HTTP request parser found partial info"
    );
}

#[test]
fn a_refusal_stands_whatever_follows() {
    let mut reader = HttpStreamReader::new();
    reader.receive_chunk(b"GET / HTTP/1.1\r\n\r\nx");
    let first = reader.try_build_request().err().unwrap().display();
    reader.receive_chunk(b"\r\n\r\nmore");
    assert_eq!(reader.try_build_request().err().unwrap().display(), first);
}

#[test]
fn a_head_that_no_request_can_have_is_told_apart() {
    assert!(read(b"G#T / HTTP/1.1\r\n\r\n").is_none());
    assert!(read(b"G#T / HTTP/1.1\r\n").is_some());
}

#[test]
fn parts_of_a_head_are_judged() {
    let text = |method: &str, path: &str, fields: Vec<(Vec<u8>, Vec<u8>)>| ParsedHead {
        method: method.to_string(),
        path: path.to_string(),
        fields,
    };
    let head = text("GET", "/a#b", vec![field("HOST", "x")]).build().unwrap();
    assert_eq!(head.method(), "GET");
    assert_eq!(head.uri(), "/a");
    assert_eq!(head.headers().get("host").unwrap(), "x");
    assert!(text("", "/", vec![]).build().is_none());
    assert!(text("G T", "/", vec![]).build().is_none());
    assert!(text("GET", "/ x", vec![]).build().is_none());
    assert!(text("GET", "/", vec![field("a b", "x")]).build().is_none());
    assert!(text("GET", "/", vec![field("a", "x\n")]).build().is_none());
    let given = text("GET", "/", vec![]).build_with_uri(Some("/other".to_string())).unwrap();
    assert_eq!(given.uri(), "/other");
    assert!(text("GET", "/", vec![]).build_with_uri(None).is_none());
}

#[test]
fn every_byte_of_a_header_name_and_value_is_judged() {
    for byte in 0u8..=255 {
        let name = vec![(vec![byte], b"v".to_vec())];
        let token = b"!\"#$%&'*+-.^_`|~".contains(&byte) || byte.is_ascii_alphanumeric();
        match build_headers(&name) {
            Some(map) => {
                assert!(token, "{}", byte);
                let held: Vec<&str> = map.keys().map(|k| k.as_str()).collect();
                assert_eq!(held, vec![(byte as char).to_ascii_lowercase().to_string().as_str()]);
            }
            None => assert!(!token, "{}", byte),
        }
        let value = vec![(b"n".to_vec(), vec![byte])];
        let plain = byte == b'\t' || (byte >= 32 && byte != 127);
        assert_eq!(build_headers(&value).is_some(), plain, "{}", byte);
    }
}

#[test]
fn a_header_name_has_to_stay_under_its_limit() {
    let longest = vec![(vec![b'a'; 65535], vec![])];
    assert!(build_headers(&longest).is_some());
    let beyond = vec![(vec![b'a'; 65536], vec![])];
    assert!(build_headers(&beyond).is_none());
    assert!(build_headers(&vec![(vec![], vec![])]).is_none());
}

#[test]
fn a_header_table_has_a_limit() {
    let mut fields: Vec<(Vec<u8>, Vec<u8>)> =
        (0..32768).map(|i| field(&format!("n{}", i), "v")).collect();
    fields.push(field("N7", "again"));
    let map = build_headers(&fields).unwrap();
    assert_eq!(map.keys_len(), 32768);
    assert_eq!(map.len(), 32769);
    fields.push(field("one-too-many", "v"));
    assert!(build_headers(&fields).is_none());
}

#[test]
fn header_tables_keep_their_order() {
    let map = build_headers(&vec![
        field("B", "1"),
        field("A", "2"),
        field("b", "3"),
        field("Content-Length", "12"),
    ])
    .unwrap();
    let pairs: Vec<(&str, &[u8])> = map.iter().map(|(k, v)| (k.as_str(), v.as_bytes())).collect();
    assert_eq!(
        pairs,
        vec![("b", &b"1"[..]), ("b", &b"3"[..]), ("a", &b"2"[..]), ("content-length", &b"12"[..])]
    );
    assert_eq!(content_length(&map), 12);
    assert_eq!(content_length(&build_headers(&vec![]).unwrap()), 0);
}

#[test]
fn what_the_parser_found_is_judged() {
    assert!(matches!(judge_head(Ok(None), b""), Err(ErrorKind::IncompleteHttpRequest(_))));
    match judge_head(Err("Token".to_string()), b"a\xff") {
        Err(ErrorKind::MalformedHttpRequest(message)) => assert_eq!(
            message,
            "Malformed http request: Token\nErr(Utf8Error { valid_up_to: 1, error_len: Some(1) })"
        ),
        _ => panic!("not refused"),
    }
    let text = ParsedHead { method: "GET".to_string(), path: "/".to_string(), fields: vec![] };
    assert_eq!(judge_head(Ok(Some(text)), b"").ok().unwrap().method, "GET");
    assert_eq!(malformed_text("Token", "shown"), "Malformed http request: Token\nshown");
}

#[test]
fn bodies_are_measured() {
    assert!(matches!(check_body(0, 0), Ok(true)));
    assert!(matches!(check_body(3, 4), Ok(false)));
    assert!(matches!(check_body(4, 4), Ok(true)));
    match check_body(5, 4) {
        Err(ErrorKind::RequestBodyTooLarge(message)) => {
            assert_eq!(message, "Body is larger than stated content-length: 4")
        }
        _ => panic!("not refused"),
    }
}

#[test]
fn errors_are_described() {
    let error = ErrorKind::RequestHeadersTooLarge("8193 bytes".to_string());
    assert_eq!(error.description(), "Request Headers Too Large");
    assert_eq!(error.display(), "RequestHeadersTooLarge: 8193 bytes");
    let error = ErrorKind::MalformedHttpRequest("x".to_string());
    assert_eq!(error.display(), "MalformedHttpRequest: x");
}
