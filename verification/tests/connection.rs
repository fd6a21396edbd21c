use mini_http::head::build_headers;
use mini_http::headers::Headers;
use mini_http::socket::{
    wants_keep_alive, ParseStep, ReadEvent, ReadStep, Socket, SocketStatus, Stream, WriteEvent,
    WriteNext, WriteStep,
};
use mini_http::turn::{Action, Turn};
use mini_http::{ErrorKind, HttpStreamReader, Response, ResponseWrapper, Server};

const POST: &[u8] = b"POST /echo HTTP/1.1\r\nContent-Length: 4\r\n\r\ndata";

fn server() -> Server {
    let mut server = Server::with_cpus("127.0.0.1:3000", 1).unwrap();
    server.tcp_nodelay(true).set_keepalive_secs(7);
    server
}

fn fresh() -> Stream {
    Stream::new(HttpStreamReader::new(), SocketStatus::New)
}

fn answer(body: &[u8]) -> ResponseWrapper {
    let mut r = ResponseWrapper::new(Response {
        status: 200,
        headers: Headers::new(),
        body: body.to_vec(),
    });
    r.serialize_headers();
    r
}

/// All the bytes of a response.
fn whole(response: &ResponseWrapper) -> Vec<u8> {
    let mut bytes = response.header_data().to_vec();
    bytes.extend_from_slice(response.body());
    bytes
}

/// A turn that has read `bytes`.
fn turn_with(stream: Stream, bytes: &[u8], writable: bool) -> (Turn, Option<ErrorKind>) {
    let mut turn = Turn::new(stream, true, writable);
    assert_eq!(turn.action(), Action::Read);
    if !bytes.is_empty() {
        assert!(turn.on_read(ReadEvent::Data(bytes)).is_none());
        assert_eq!(turn.action(), Action::Read);
    }
    let error = turn.on_read(ReadEvent::WouldBlock);
    (turn, error)
}

/// Writes until there is nothing to write, at most `step` bytes at a time.
fn write_all(turn: &mut Turn, step: usize) -> Vec<u8> {
    let mut out = Vec::new();
    while turn.action() == Action::Write {
        assert_eq!(turn.bytes_written(), out.len());
        let n = turn.data().len().min(step);
        out.extend_from_slice(&turn.data()[..n]);
        turn.on_write(WriteEvent::Wrote(n));
    }
    out
}

fn kept(turn: Turn) -> Stream {
    match turn.finish() {
        Some(Socket::Stream(stream)) => stream,
        _ => panic!("the connection is not kept"),
    }
}

#[test]
fn a_request_is_answered_over_two_turns() {
    let (mut turn, error) = turn_with(fresh(), POST, true);
    assert!(error.is_none());
    assert_eq!(turn.action(), Action::Start);
    let dispatch = turn.start(&server()).unwrap();
    assert_eq!(dispatch.request.method(), "POST");
    assert_eq!(dispatch.request.head().uri(), "/echo");
    assert_eq!(dispatch.request.version(), "HTTP/1.1");
    assert_eq!(dispatch.request.body(), b"data");
    assert_eq!(dispatch.request.bytes(), POST);
    let options = dispatch.options.unwrap();
    assert!(options.no_delay);
    assert_eq!(options.keep_alive_secs, Some(7));
    assert_eq!(turn.action(), Action::Poll);
    turn.on_poll(None);
    assert_eq!(turn.action(), Action::Finish);
    let stream = kept(turn);
    assert!(stream.has_handler());

    let mut turn = Turn::new(stream, false, true);
    assert_eq!(turn.action(), Action::Start);
    assert!(turn.start(&server()).is_none());
    assert_eq!(turn.action(), Action::Poll);
    turn.on_poll(Some(answer(b"data")));
    let out = write_all(&mut turn, 5);
    assert_eq!(
        out,
        &b"HTTP/1.1 200 OK\r\nserver: mini-http (rust)\r\ncontent-length: 4\r\n\r\ndata"[..]
    );
    assert_eq!(turn.action(), Action::Flush);
    turn.on_flush();
    assert_eq!(turn.action(), Action::Finish);
    let stream = kept(turn);
    assert!(!stream.has_handler());
    assert_eq!(stream.bytes_written(), 0);
}

#[test]
fn a_kept_connection_gets_no_settings_again() {
    let reused = Stream::new(HttpStreamReader::new(), SocketStatus::Reused);
    let (mut turn, _) = turn_with(reused, POST, true);
    assert!(turn.start(&server()).unwrap().options.is_none());
}

#[test]
fn a_connection_is_given_up_when_told() {
    let message = b"GET / HTTP/1.1\r\nConnection: close\r\n\r\n";
    let (mut turn, _) = turn_with(fresh(), message, true);
    let dispatch = turn.start(&server()).unwrap();
    let options = dispatch.options.unwrap();
    assert_eq!(options.keep_alive_secs, None);
    turn.on_poll(Some(answer(b"")));
    write_all(&mut turn, 1000);
    turn.on_flush();
    assert!(turn.finish().is_none());
}

#[test]
fn keeping_a_connection_is_up_to_its_header() {
    let headers = |value: &str| {
        build_headers(&vec![(b"Connection".to_vec(), value.as_bytes().to_vec())]).unwrap()
    };
    assert!(wants_keep_alive(&headers("Keep-Alive"), false));
    assert!(!wants_keep_alive(&headers("close"), true));
    assert!(!wants_keep_alive(&headers("keep-alive, upgrade"), true));
    assert!(wants_keep_alive(&Headers::new(), true));
    assert!(!wants_keep_alive(&Headers::new(), false));
}

#[test]
fn a_refused_request_is_answered_at_once() {
    let (mut turn, error) = turn_with(fresh(), b"GET / HTTP/1.1\r\n\r\nx", true);
    assert!(matches!(error, Some(ErrorKind::RequestBodyTooLarge(_))));
    assert_eq!(turn.action(), Action::Start);
    assert!(turn.start(&server()).is_none());
    assert_eq!(turn.action(), Action::Write);
    assert_eq!(write_all(&mut turn, 4), b"bad request");
    assert_eq!(turn.action(), Action::Flush);
    turn.on_flush();
    kept(turn);
}

#[test]
fn a_head_that_no_request_can_have_ends_the_turn() {
    let (turn, error) = turn_with(fresh(), b"G#T / HTTP/1.1\r\n\r\n", true);
    assert!(error.is_none());
    assert_eq!(turn.action(), Action::Abort);
}

#[test]
fn half_a_request_waits_for_the_rest() {
    let (mut turn, error) = turn_with(fresh(), &POST[..POST.len() - 2], true);
    assert!(error.is_none());
    assert!(turn.start(&server()).is_none());
    assert_eq!(turn.action(), Action::Finish);
    let (mut turn, _) = turn_with(kept(turn), b"ta", true);
    let dispatch = turn.start(&server()).unwrap();
    assert_eq!(dispatch.request.body(), b"data");
}

#[test]
fn a_stream_that_ends_or_fails_is_let_go() {
    let mut turn = Turn::new(fresh(), true, true);
    turn.on_read(ReadEvent::Data(b""));
    assert_eq!(turn.action(), Action::Drop);
    let mut turn = Turn::new(fresh(), true, true);
    turn.on_read(ReadEvent::Failed);
    assert_eq!(turn.action(), Action::Drop);
    let mut turn = Turn::new(fresh(), true, true);
    turn.on_read(ReadEvent::ConnectionReset);
    assert_eq!(turn.action(), Action::Start);
}

#[test]
fn a_handler_at_work_is_left_alone() {
    let (mut turn, _) = turn_with(fresh(), POST, true);
    turn.start(&server());
    turn.on_poll(None);
    let (mut turn, error) = turn_with(kept(turn), POST, true);
    assert!(error.is_none());
    assert!(turn.start(&server()).is_none());
    assert_eq!(turn.action(), Action::Poll);
    turn.on_poll(None);
    let (mut turn, error) = turn_with(kept(turn), POST, false);
    assert!(error.is_none());
    assert!(turn.start(&server()).is_none());
    turn.on_poll(Some(answer(b"one")));
    let (mut turn, error) = turn_with(kept(turn), POST, true);
    assert!(error.is_none());
    assert!(turn.start(&server()).is_none());
    turn.on_poll(None);
    assert_eq!(write_all(&mut turn, 1000), whole(&answer(b"one")));
}

#[test]
fn nothing_is_written_to_a_stream_that_takes_nothing() {
    let (mut turn, _) = turn_with(fresh(), POST, false);
    turn.start(&server());
    turn.on_poll(Some(answer(b"data")));
    assert_eq!(turn.action(), Action::Finish);
    let stream = kept(turn);
    assert!(stream.has_handler());
    assert_eq!(stream.bytes_written(), 0);

    let mut turn = Turn::new(stream, false, true);
    turn.start(&server());
    turn.on_poll(None);
    assert_eq!(write_all(&mut turn, 1000), whole(&answer(b"data")));
}

#[test]
fn a_refusal_waits_for_a_stream_that_takes_bytes() {
    let (mut turn, error) = turn_with(fresh(), b"\r\n\r\n", false);
    assert!(matches!(error, Some(ErrorKind::IncompleteHttpRequest(_))));
    turn.start(&server());
    assert_eq!(turn.action(), Action::Finish);
    let (mut turn, error) = turn_with(kept(turn), b"more", true);
    assert!(error.is_none());
    turn.start(&server());
    assert_eq!(write_all(&mut turn, 1000), b"bad request");
}

#[test]
fn a_response_goes_out_over_many_turns() {
    let expected = whole(&answer(b"data"));
    let (mut turn, _) = turn_with(fresh(), POST, true);
    turn.start(&server());
    turn.on_poll(Some(answer(b"data")));
    let mut out = Vec::new();
    while turn.action() == Action::Write {
        let n = turn.data().len().min(3);
        out.extend_from_slice(&turn.data()[..n]);
        turn.on_write(WriteEvent::Wrote(n));
        if turn.action() == Action::Write {
            turn.on_write(WriteEvent::WouldBlock);
            turn = Turn::new(kept(turn), false, true);
            turn.start(&server());
            turn.on_poll(None);
        }
    }
    assert_eq!(turn.action(), Action::Flush);
    assert_eq!(out, expected);
}

#[test]
fn writing_stops_when_the_stream_is_full() {
    let (mut turn, _) = turn_with(fresh(), POST, true);
    turn.start(&server());
    turn.on_poll(Some(answer(b"data")));
    turn.on_write(WriteEvent::Wrote(10));
    assert_eq!(turn.action(), Action::Write);
    turn.on_write(WriteEvent::WouldBlock);
    assert_eq!(turn.action(), Action::Finish);
    let stream = kept(turn);
    assert_eq!(stream.bytes_written(), 10);
    assert!(stream.has_handler());

    let mut turn = Turn::new(stream, false, true);
    turn.start(&server());
    turn.on_poll(None);
    assert_eq!(turn.action(), Action::Write);
    assert_eq!(turn.bytes_written(), 10);
    assert_eq!(turn.data(), &answer(b"data").header_data()[10..]);
}

#[test]
fn a_write_that_fails_lets_the_connection_go() {
    let (mut turn, _) = turn_with(fresh(), POST, true);
    turn.start(&server());
    turn.on_poll(Some(answer(b"data")));
    turn.on_write(WriteEvent::Failed);
    assert_eq!(turn.action(), Action::Drop);
}

#[test]
fn an_empty_response_is_flushed_right_away() {
    let (mut turn, _) = turn_with(fresh(), POST, true);
    turn.start(&server());
    let bare = Response { status: 200, headers: Headers::new(), body: vec![] };
    turn.on_poll(Some(ResponseWrapper::new(bare)));
    assert_eq!(turn.action(), Action::Flush);
}

#[test]
fn the_steps_of_a_stream() {
    let mut stream = fresh();
    assert!(matches!(stream.next_write(), WriteStep::Idle));
    assert_eq!(stream.on_read(ReadEvent::Data(&POST[..10])), ReadStep::More);
    assert_eq!(stream.on_read(ReadEvent::WouldBlock), ReadStep::Stop);
    assert!(matches!(stream.parse(), ParseStep::Proceed));
    assert!(stream.start_handler(&server()).is_none());
    assert_eq!(stream.on_read(ReadEvent::Data(&POST[10..])), ReadStep::More);
    assert!(matches!(stream.parse(), ParseStep::Proceed));
    assert_eq!(stream.start_handler(&server()).unwrap().request.body(), b"data");
    stream.collect_response(Some(answer(b"abc")), None);
    let head = answer(b"abc").header_data().len();
    match stream.next_write() {
        WriteStep::Write(data) => assert_eq!(data.len(), head),
        _ => panic!("nothing to write"),
    }
    assert_eq!(stream.on_write(WriteEvent::Wrote(head + 1)), WriteNext::Again);
    match stream.next_write() {
        WriteStep::Write(data) => assert_eq!(data, b"bc"),
        _ => panic!("nothing to write"),
    }
    assert_eq!(stream.on_write(WriteEvent::WouldBlock), WriteNext::Stop);
    assert_eq!(stream.on_write(WriteEvent::Wrote(2)), WriteNext::Again);
    assert!(matches!(stream.next_write(), WriteStep::Done));
    assert_eq!(stream.on_write(WriteEvent::Failed), WriteNext::Drop);
    assert!(matches!(stream.finish(true), Some(Socket::Stream(_))));
}

#[test]
fn results_of_the_reader_are_taken() {
    let mut stream = fresh();
    assert!(matches!(stream.on_result(Ok(None)), ParseStep::Proceed));
    let error = ErrorKind::IncompleteHttpRequest("x".to_string());
    match stream.on_result(Err(error)) {
        ParseStep::Refused(error, response) => {
            assert_eq!(error.display(), "IncompleteHttpRequest: x");
            assert_eq!(response.body(), b"bad request");
        }
        _ => panic!("not refused"),
    }
    let mut unheard = fresh();
    unheard.on_read(ReadEvent::Data(b"G#T / HTTP/1.1\r\n\r\n"));
    assert!(matches!(unheard.parse(), ParseStep::Unrepresentable));
}
