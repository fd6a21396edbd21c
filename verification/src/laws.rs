//! What the server does as a whole, from the bytes that a client sends to those that it gets: said
//! of the requests and responses themselves.
use vstd::prelude::*;

use crate::errors::ErrorText;
use crate::head::HeadText;
use crate::head::HeadView;
use crate::head::declared_length;
use crate::head::field_values;
use crate::head::head_with_uri;
use crate::head::httparse_request;
use crate::head::is_method;
use crate::head::law_head_is_as_sent;
use crate::head::law_headers_are_as_sent;
use crate::head::law_length_is_the_one_sent;
use crate::head::table_of;
use crate::head::uri_text;
use crate::headers::is_value;
use crate::headers::spells_name;
use crate::http_stream::outcome;
use crate::http_stream::parsed;
use crate::http_stream::representable;
use crate::http_stream::utf8_debug;
use crate::reading::are_full_lines;
use crate::reading::head_of;
use crate::reading::law_lines_make_a_head;
use crate::request::RequestView;
use crate::response::ResponseWrapper;
use crate::server::ServerView;
use crate::socket::ReadEvent;
use crate::socket::SocketStatus;
use crate::socket::StreamView;
use crate::socket::WriteEvent;
use crate::socket::after_event;
use crate::socket::connection_name;
use crate::socket::handed_out;
use crate::socket::keeps_alive;
use crate::socket::options_for;
use crate::socket::response_view;
use crate::text::ascii;
use crate::text::decimal_text;
use crate::text::decimal_value;
use crate::text::head_length;
use crate::text::law_head_ends_with_the_first_blank_line;
use crate::text::law_head_stays;
use crate::text::lower_all;
use crate::turn::Action;
use crate::turn::RunEvent;
use crate::turn::TurnEvent;
use crate::turn::TurnView;
use crate::turn::can_run;
use crate::turn::first_turn;
use crate::turn::law_turns_stay_sound;
use crate::turn::law_whole_response_goes_out;
use crate::turn::run;
use crate::turn::run_sends;
use crate::turn::run_step;
use crate::turn::turn_after_read;
use crate::turn::turn_after_start;
use crate::turn::turn_after_write;
use crate::turn::turn_is_sound;
use crate::turn::turn_step;
use crate::turn::with_response;

verus! {

/// A head as a client sends it: its lines, and what the parser finds in them when it has room for
/// as many header fields as there are lines behind the first.
pub struct SentHead {
    pub lines: Seq<Seq<u8>>,
    pub text: HeadText,
    pub uri: Seq<char>,
    /// How long the body is to be.
    pub length: nat,
}

impl SentHead {
    /// The bytes of the head.
    pub open spec fn bytes(self) -> Seq<u8> {
        head_of(self.lines)
    }

    /// The lines are those of a request: the parser takes them, and all that it finds can stand in
    /// a request. How long the body is to be is what the first `Content-Length` says in digits, or
    /// else nothing.
    pub open spec fn is_proper(self) -> bool {
        &&& 0 < self.lines.len() <= usize::MAX
        &&& are_full_lines(self.lines)
        &&& httparse_request(self.bytes(), (self.lines.len() - 1) as usize) matches Ok(Some(text))
            && text == self.text
        &&& is_method(self.text.method)
        &&& uri_text(self.text.path) == Some(self.uri)
        &&& forall|i: int|
            0 <= i < self.text.fields.len() ==> spells_name((#[trigger] self.text.fields[i]).0)
                && is_value(self.text.fields[i].1)
        &&& table_of(self.text.fields).len() <= 32768
        &&& {
            let sent = field_values(self.text.fields, ascii("Content-Length"@));
            if sent.len() == 0 {
                self.length == 0
            } else {
                match decimal_value(sent[0]) {
                    Some(n) => self.length == if n <= usize::MAX {
                        n
                    } else {
                        0
                    },
                    None => self.length == 0,
                }
            }
        }
    }

    /// What a handler is to see of the head.
    pub open spec fn head(self) -> HeadView {
        HeadView {
            method: self.text.method,
            uri: self.uri,
            headers: table_of(self.text.fields),
        }
    }

    /// What a handler is to get with this body.
    pub open spec fn request(self, body: Seq<u8>) -> RequestView {
        RequestView { head: self.head(), bytes: self.bytes() + body, body }
    }
}

/// The parser gets the whole head and nothing else, and room for a field in each line behind the
/// first, however many there are. What it takes is never refused for the number of its headers, and
/// what it finds fault with, or finds wanting, is refused with its reason.
pub proof fn law_parser_has_room_for_every_line(lines: Seq<Seq<u8>>, body: Seq<u8>)
    requires
        0 < lines.len() <= usize::MAX,
        are_full_lines(lines),
    ensures
        ({
            let head = head_of(lines);
            let b = head + body;
            match httparse_request(head, (lines.len() - 1) as usize) {
                Ok(Some(text)) => {
                    &&& parsed(b, head.len() as int) matches Ok(found) && found == text
                    &&& representable(b) == head_with_uri(text, uri_text(text.path)) is Some
                },
                Ok(None) => {
                    &&& outcome(b, false) matches Err(error) && error
                        == ErrorText::IncompleteHttpRequest(
                        "HTTP request parser found partial info"@,
                    )
                    &&& representable(b)
                },
                Err(fault) => {
                    &&& outcome(b, false) matches Err(error) && error
                        == ErrorText::MalformedHttpRequest(
                        "Malformed http request: "@ + fault + "\n"@ + utf8_debug(head),
                    )
                    &&& representable(b)
                },
            }
        }),
{
    law_lines_make_a_head(lines, body);
}

/// A request comes to its head, as it was sent, when as many bytes stand behind the head as it
/// says. As long as there are fewer it comes to nothing, and with more it is refused.
pub proof fn law_request_is_whole_with_its_body(sent: SentHead, body: Seq<u8>)
    requires
        sent.is_proper(),
    ensures
        ({
            let b = sent.bytes() + body;
            &&& representable(b)
            &&& head_length(b) == Some(sent.bytes().len() as int)
            &&& body.len() < sent.length ==> (outcome(b, false) matches Ok(None))
            &&& body.len() == sent.length ==> (outcome(b, false) matches Ok(Some(head)) && head
                == sent.head())
            &&& body.len() > sent.length ==> (outcome(b, false) matches Err(error) && error
                == ErrorText::RequestBodyTooLarge(
                "Body is larger than stated content-length: "@ + decimal_text(sent.length),
            ))
        }),
{
    let b = sent.bytes() + body;
    law_parser_has_room_for_every_line(sent.lines, body);
    law_lines_make_a_head(sent.lines, body);
    law_head_is_as_sent(sent.text, uri_text(sent.text.path));
    law_length_is_the_one_sent(sent.text.fields);
    assert(declared_length(sent.head().headers) == sent.length);
    assert(b.len() - sent.bytes().len() == body.len());
}

/// A head that is not all there comes to nothing, wherever it is cut.
pub proof fn law_head_is_waited_for(lines: Seq<Seq<u8>>, cut: int)
    requires
        lines.len() > 0,
        are_full_lines(lines),
        0 <= cut < head_of(lines).len(),
    ensures
        representable(head_of(lines).take(cut)),
        outcome(head_of(lines).take(cut), false) matches Ok(None),
{
    let head = head_of(lines);
    let b = head.take(cut);
    law_lines_make_a_head(lines, Seq::empty());
    assert(head + Seq::<u8>::empty() =~= head);
    if head_length(b) is Some {
        law_head_ends_with_the_first_blank_line(b);
        law_head_stays(b, head.skip(cut));
        assert(b + head.skip(cut) =~= head);
    }
}

/// A connection that waits for a request: none has come yet, and there is nothing to write.
pub open spec fn is_waiting(v: StreamView) -> bool {
    &&& v.keep_alive
    &&& !v.reader.complete
    &&& v.request is None
    &&& !v.done_reading
    &&& !v.receiver
    &&& v.response is None
    &&& v.bytes_written == 0
}

/// All that was read in a row of events.
pub open spec fn bytes_read(events: Seq<RunEvent>) -> Seq<u8>
    decreases events.len(),
{
    if events.len() == 0 {
        Seq::empty()
    } else {
        let first = match events[0] {
            RunEvent::Act(TurnEvent::Read(ReadEvent::Data(chunk))) => chunk@,
            _ => Seq::empty(),
        };
        first + bytes_read(events.drop_first())
    }
}

/// Nothing more to read for now.
pub open spec fn is_stop(event: ReadEvent) -> bool {
    event is WouldBlock || event is ConnectionReset
}

/// A turn begins with reading if there is something to read, and else with what is there. Nothing
/// has happened to the connection yet.
pub proof fn law_turns_begin_with_reading(stream: StreamView, readable: bool, writable: bool)
    ensures
        ({
            let v = first_turn(stream, readable, writable);
            &&& v.stream == stream
            &&& v.writable == writable
            &&& v.action == Action::Read <==> readable
            &&& v.action == Action::Start <==> !readable
            &&& v.refused is None
            &&& !v.done_write
        }),
{
}

/// Reading goes on as long as bytes come. A stream that has ended or failed is let go, and on one
/// that has nothing more for now the turn goes on with what was read.
pub proof fn law_reading_goes_on_while_bytes_come(v: TurnView, event: ReadEvent)
    requires
        v.action == Action::Read,
    ensures
        ({
            let after = turn_after_read(v, event);
            &&& after.action == Action::Read <==> (event matches ReadEvent::Data(chunk)
                && chunk@.len() > 0)
            &&& after.action == Action::Drop <==> {
                ||| event matches ReadEvent::Data(chunk) && chunk@.len() == 0
                ||| event is Failed
            }
            &&& is_stop(event) <==> after.action == Action::Start || after.action == Action::Abort
            &&& after.writable == v.writable
            &&& after.done_write == v.done_write
        }),
{
}

proof fn lemma_done_reading_stays(v: TurnView, events: Seq<RunEvent>)
    requires
        can_run(v, events),
        v.stream.done_reading,
    ensures
        run(v, events).stream.done_reading,
    decreases events.len(),
{
    if events.len() > 0 {
        lemma_done_reading_stays(run_step(v, events[0]), events.drop_first());
    }
}

/// Over any number of turns in which a connection goes on waiting for its request, its reader holds
/// all that was read, every chunk whole and in its order, behind what it held before. Nothing else
/// happens to the connection.
pub proof fn law_all_that_is_read_is_kept(v: TurnView, events: Seq<RunEvent>)
    requires
        turn_is_sound(v),
        is_waiting(v.stream),
        can_run(v, events),
        !run(v, events).stream.done_reading,
    ensures
        run(v, events).stream.reader.bytes == v.stream.reader.bytes + bytes_read(events),
        is_waiting(run(v, events).stream),
        run(v, events).stream.socket_status == v.stream.socket_status,
        turn_is_sound(run(v, events)),
    decreases events.len(),
{
    if events.len() > 0 {
        let next = run_step(v, events[0]);
        if next.stream.done_reading {
            lemma_done_reading_stays(next, events.drop_first());
        }
        if let RunEvent::Act(event) = events[0] {
            law_turns_stay_sound(v, event);
        }
        law_all_that_is_read_is_kept(next, events.drop_first());
        assert(run(v, events).stream.reader.bytes =~= v.stream.reader.bytes + bytes_read(events));
    } else {
        assert(v.stream.reader.bytes + bytes_read(events) =~= v.stream.reader.bytes);
    }
}

/// Chunks can be read in any number, one after the other.
pub proof fn law_chunks_are_read_one_after_the_other(v: TurnView, events: Seq<RunEvent>)
    requires
        turn_is_sound(v),
        is_waiting(v.stream),
        v.action == Action::Read,
        forall|i: int|
            0 <= i < events.len() ==> ((#[trigger] events[i]) matches RunEvent::Act(
                TurnEvent::Read(ReadEvent::Data(chunk)),
            ) && chunk@.len() > 0),
    ensures
        can_run(v, events),
        run(v, events).action == Action::Read,
        !run(v, events).stream.done_reading,
        run(v, events).stream.reader.bytes == v.stream.reader.bytes + bytes_read(events),
        run(v, events).writable == v.writable,
    decreases events.len(),
{
    if events.len() > 0 {
        let next = run_step(v, events[0]);
        assert(events[0] matches RunEvent::Act(TurnEvent::Read(ReadEvent::Data(chunk)))
            && chunk@.len() > 0);
        let rest = events.drop_first();
        assert forall|i: int| 0 <= i < rest.len() implies ((#[trigger] rest[i]) matches RunEvent::Act(
            TurnEvent::Read(ReadEvent::Data(chunk)),
        ) && chunk@.len() > 0) by {
            assert(rest[i] == events[i + 1]);
        }
        law_chunks_are_read_one_after_the_other(next, rest);
    }
    law_all_that_is_read_is_kept(v, events);
}

/// The turn has this request for a handler, and goes on to start one and to ask it for a response.
pub open spec fn hands_out(v: TurnView, request: RequestView) -> bool {
    let started = turn_after_start(v);
    &&& v.action == Action::Start
    &&& v.stream.request is Some
    &&& handed_out(v.stream) == request
    &&& started.action == Action::Poll
    &&& started.stream.receiver
    &&& started.stream.request is None
    &&& started.stream.response is None
    &&& started.stream.bytes_written == 0
    &&& started.writable == v.writable
}

/// A request is handed out as it was sent, head and body, in the turn in which the last of it is
/// read, in whatever chunks and over however many turns it came.
pub proof fn law_request_is_handed_out_as_sent(
    v: TurnView,
    events: Seq<RunEvent>,
    stop: ReadEvent,
    sent: SentHead,
    body: Seq<u8>,
)
    requires
        turn_is_sound(v),
        is_waiting(v.stream),
        can_run(v, events),
        run(v, events).action == Action::Read,
        !run(v, events).stream.done_reading,
        is_stop(stop),
        sent.is_proper(),
        body.len() == sent.length,
        v.stream.reader.bytes + bytes_read(events) == sent.bytes() + body,
    ensures
        hands_out(turn_after_read(run(v, events), stop), sent.request(body)),
{
    law_all_that_is_read_is_kept(v, events);
    law_request_is_whole_with_its_body(sent, body);
    law_lines_make_a_head(sent.lines, body);
}

/// A request of which a part is still to come goes on waiting: no handler is started, nothing is
/// written, and the connection is kept with all that was read.
pub proof fn law_unfinished_request_goes_on_waiting(v: TurnView, stop: ReadEvent)
    requires
        turn_is_sound(v),
        is_waiting(v.stream),
        v.action == Action::Read,
        is_stop(stop),
        representable(v.stream.reader.bytes),
        outcome(v.stream.reader.bytes, false) matches Ok(None),
    ensures
        ({
            let read = turn_after_read(v, stop);
            let done = turn_after_start(read);
            &&& read.action == Action::Start
            &&& read.stream.request is None
            &&& done.action == Action::Finish
            &&& done.stream == v.stream
            &&& after_event(done.stream, done.done_write) == Some(v.stream)
        }),
{
}

/// A connection that is kept once its response is written is as one that waits for its first
/// request, except that it is not new.
pub proof fn law_kept_connection_is_ready(v: StreamView)
    ensures
        after_event(v, true) is Some <==> v.keep_alive,
        after_event(v, true) matches Some(kept) ==> {
            &&& is_waiting(kept)
            &&& kept.reader.bytes == Seq::<u8>::empty()
            &&& kept.socket_status == SocketStatus::Reused
        },
{
}

/// Another request over a kept connection is handed out as it was sent, as the one before it was,
/// and without settings to make.
pub proof fn law_next_request_is_handed_out_as_sent(
    served: StreamView,
    writable: bool,
    events: Seq<RunEvent>,
    stop: ReadEvent,
    sent: SentHead,
    body: Seq<u8>,
    server: ServerView,
    keep_alive: bool,
)
    requires
        served.keep_alive,
        can_run(first_turn(after_event(served, true)->0, true, writable), events),
        run(first_turn(after_event(served, true)->0, true, writable), events).action
            == Action::Read,
        !run(
            first_turn(after_event(served, true)->0, true, writable),
            events,
        ).stream.done_reading,
        is_stop(stop),
        sent.is_proper(),
        body.len() == sent.length,
        bytes_read(events) == sent.bytes() + body,
    ensures
        ({
            let begun = first_turn(after_event(served, true)->0, true, writable);
            let read = turn_after_read(run(begun, events), stop);
            &&& hands_out(read, sent.request(body))
            &&& options_for(read.stream, server, keep_alive) is None
        }),
{
    let begun = first_turn(after_event(served, true)->0, true, writable);
    law_kept_connection_is_ready(served);
    assert(begun.stream.reader.bytes + bytes_read(events) =~= sent.bytes() + body);
    law_request_is_handed_out_as_sent(begun, events, stop, sent, body);
    law_all_that_is_read_is_kept(begun, events);
}

/// A handler is asked for its response turn after turn, until it has one. Till then the connection
/// stays as it is.
pub proof fn law_handler_is_asked_until_it_answers(v: TurnView, writable: bool)
    requires
        turn_is_sound(v),
        v.action == Action::Poll,
        v.stream.receiver,
        v.stream.request is None,
        v.stream.response is None,
    ensures
        ({
            let asked = with_response(v, None);
            let next = turn_after_start(first_turn(asked.stream, false, writable));
            &&& asked.action == Action::Finish
            &&& asked.stream == v.stream
            &&& after_event(asked.stream, asked.done_write) == Some(v.stream)
            &&& next.action == Action::Poll
            &&& next.stream == v.stream
            &&& next.writable == writable
        }),
{
}

/// What a client gets is the response that the handler gave, whatever it is: its bytes, each once
/// and in order, over as many turns as it takes, and no others. The connection is finished with
/// when they have all gone out, and not before.
pub proof fn law_handlers_response_goes_out(
    v: TurnView,
    response: ResponseWrapper,
    events: Seq<RunEvent>,
)
    requires
        turn_is_sound(v),
        v.action == Action::Poll,
        v.stream.receiver,
        v.stream.response is None,
        v.stream.bytes_written == 0,
        response@.message().len() <= usize::MAX,
        can_run(with_response(v, response_view(Some(response))), events),
    ensures
        ({
            let answered = with_response(v, response_view(Some(response)));
            let message = response@.message();
            let end = run(answered, events);
            &&& v.writable && message.len() > 0 ==> answered.action == Action::Write
            &&& v.writable && message.len() == 0 ==> answered.action == Action::Flush
            &&& !v.writable ==> answered.action == Action::Finish && !answered.done_write
            &&& end.stream.bytes_written <= message.len()
            &&& run_sends(answered, events) == message.take(end.stream.bytes_written as int)
            &&& end.done_write ==> run_sends(answered, events) == message
            &&& !end.done_write ==> after_event(end.stream, end.done_write) == Some(end.stream)
        }),
{
    let answered = with_response(v, response_view(Some(response)));
    assert(answered.stream.response == Some(response@));
    law_turns_stay_sound(v, TurnEvent::Poll(response_view(Some(response))));
    law_whole_response_goes_out(answered, events);
    let end = run(answered, events);
    assert(response@.message().subrange(0, end.stream.bytes_written as int)
        =~= response@.message().take(end.stream.bytes_written as int));
}

proof fn lemma_keep_alive_stays(v: TurnView, events: Seq<RunEvent>)
    requires
        can_run(v, events),
        v.stream.done_reading,
        v.stream.request is None,
    ensures
        run(v, events).stream.keep_alive == v.stream.keep_alive,
    decreases events.len(),
{
    if events.len() > 0 {
        lemma_keep_alive_stays(run_step(v, events[0]), events.drop_first());
    }
}

/// A request that is refused gets the words "bad request" and nothing else, over as many turns as
/// it takes. No handler sees it, and the connection is kept.
pub proof fn law_refused_request_gets_its_answer(
    v: TurnView,
    stop: ReadEvent,
    events: Seq<RunEvent>,
)
    requires
        turn_is_sound(v),
        is_waiting(v.stream),
        v.action == Action::Read,
        is_stop(stop),
        representable(v.stream.reader.bytes),
        outcome(v.stream.reader.bytes, false) is Err,
        can_run(turn_after_start(turn_after_read(v, stop)), events),
    ensures
        ({
            let read = turn_after_read(v, stop);
            let answered = turn_after_start(read);
            let end = run(answered, events);
            &&& read.action == Action::Start
            &&& read.stream.request is None
            &&& !answered.stream.receiver
            &&& v.writable ==> answered.action == Action::Write
            &&& !v.writable ==> answered.action == Action::Finish && !answered.done_write
            &&& end.done_write ==> run_sends(answered, events) == ascii("bad request"@)
            &&& end.done_write ==> after_event(end.stream, true) is Some
            &&& !end.done_write ==> after_event(end.stream, end.done_write) == Some(end.stream)
        }),
{
    reveal_strlit("bad request");
    let read = turn_after_read(v, stop);
    let answered = turn_after_start(read);
    law_turns_stay_sound(v, TurnEvent::Read(stop));
    law_turns_stay_sound(read, TurnEvent::Start);
    assert((answered.stream.response->0).message() =~= ascii("bad request"@));
    law_whole_response_goes_out(answered, events);
    lemma_keep_alive_stays(answered, events);
}

/// What parses, but is no request, ends the turn: no handler sees it, and nothing is written.
pub proof fn law_what_no_request_can_be_is_given_up(v: TurnView, stop: ReadEvent)
    requires
        is_waiting(v.stream),
        v.action == Action::Read,
        is_stop(stop),
    ensures
        turn_after_read(v, stop).action == Action::Abort <==> !representable(
            v.stream.reader.bytes,
        ),
{
}

/// A connection is kept after a request unless the first of its fields named `Connection`, in
/// whatever case, is something else than `keep-alive`, in whatever case. Whatever happens until the
/// response is written changes nothing about that.
pub proof fn law_connection_is_kept_as_the_request_says(
    v: TurnView,
    fields: Seq<(Seq<u8>, Seq<u8>)>,
    events: Seq<RunEvent>,
)
    requires
        v.action == Action::Start,
        v.stream.consistent(),
        v.stream.request matches Some(head) && head.headers == table_of(fields),
        can_run(turn_after_start(v), events),
    ensures
        ({
            let said = field_values(fields, ascii("Connection"@));
            let end = run(turn_after_start(v), events);
            after_event(end.stream, true) is Some <==> said.len() == 0 || lower_all(said[0])
                == lower_all(ascii("Keep-Alive"@))
        }),
{
    law_keep_alive_is_what_the_request_says(fields, true);
    lemma_keep_alive_stays(turn_after_start(v), events);
    law_kept_connection_is_ready(run(turn_after_start(v), events).stream);
}

/// Whether a connection is to be kept is what the first field named `Connection` says, and without
/// such a field it is as before.
pub proof fn law_keep_alive_is_what_the_request_says(
    fields: Seq<(Seq<u8>, Seq<u8>)>,
    before: bool,
)
    ensures
        ({
            let said = field_values(fields, ascii("Connection"@));
            &&& said.len() == 0 ==> keeps_alive(table_of(fields), before) == before
            &&& said.len() > 0 ==> (keeps_alive(table_of(fields), before) <==> lower_all(said[0])
                == lower_all(ascii("Keep-Alive"@)))
        }),
{
    reveal_strlit("Connection");
    reveal_strlit("connection");
    reveal_strlit("Keep-Alive");
    reveal_strlit("keep-alive");
    assert(lower_all(ascii("Connection"@)) =~= connection_name());
    assert(lower_all(ascii("Keep-Alive"@)) =~= ascii("keep-alive"@));
    law_headers_are_as_sent(fields, ascii("Connection"@));
}

/// The stream of a new connection gets the settings of the server with its first request, the
/// keep-alive time among them if the connection is to be kept. A kept one has them.
pub proof fn law_new_connection_gets_the_settings(
    v: StreamView,
    server: ServerView,
    keep_alive: bool,
)
    ensures
        options_for(v, server, keep_alive) is Some <==> v.socket_status == SocketStatus::New,
        options_for(v, server, keep_alive) matches Some(options) ==> {
            &&& options.no_delay == server.no_delay
            &&& options.keep_alive_secs is Some <==> keep_alive
            &&& options.keep_alive_secs matches Some(secs) ==> secs == server.keep_alive_secs
        },
{
}

/// A stream that takes nothing more for now ends the turn, with the response held, and one that
/// fails is let go. Otherwise writing goes on until there is nothing left, and the stream is
/// flushed.
pub proof fn law_writing_ends_with_the_response(v: TurnView, event: WriteEvent)
    requires
        v.action == Action::Write,
        v.stream.response is Some,
        event matches WriteEvent::Wrote(n) ==> v.stream.bytes_written + n <= usize::MAX,
    ensures
        ({
            let after = turn_after_write(v, event);
            let length = (v.stream.response->0).message().len();
            &&& after.stream.response == v.stream.response
            &&& event is Failed <==> after.action == Action::Drop
            &&& event is WouldBlock <==> after.action == Action::Finish
            &&& event is WouldBlock ==> after.stream == v.stream
            &&& event matches WriteEvent::Wrote(n) ==> {
                &&& after.stream.bytes_written == v.stream.bytes_written + n
                &&& after.action == Action::Write <==> v.stream.bytes_written + n < length
                &&& after.action == Action::Flush <==> v.stream.bytes_written + n >= length
            }
            &&& after.done_write == v.done_write
        }),
{
}

/// Once a response is flushed it counts as written, the turn is over, and the connection is kept or
/// given up: nothing else has happened to it.
pub proof fn law_flushing_ends_the_turn(v: TurnView)
    ensures
        ({
            let after = turn_step(v, TurnEvent::Flush);
            &&& after.action == Action::Finish
            &&& after.done_write
            &&& after.stream == v.stream
            &&& after_event(after.stream, after.done_write) is Some <==> v.stream.keep_alive
        }),
{
}

} // verus!
