//! What a server does with a connection when its stream is ready: one action after the other, each
//! decided by what the last one gave.
use vstd::prelude::*;

use crate::errors::ErrorKind;
use crate::head::declared_length;
use crate::http_stream::law_body_has_declared_length;
use crate::http_stream::outcome;
use crate::http_stream::representable;
use crate::request::RequestView;
use crate::response::ResponseView;
use crate::response::ResponseWrapper;
use crate::response::bad_request_view;
use crate::server::Server;
use crate::socket::Dispatch;
use crate::socket::ParseStep;
use crate::socket::ReadEvent;
use crate::socket::ReadStep;
use crate::socket::Socket;
use crate::socket::Stream;
use crate::socket::StreamView;
use crate::socket::WriteEvent;
use crate::socket::WriteNext;
use crate::socket::WriteStep;
use crate::socket::after_collect;
use crate::socket::after_event;
use crate::socket::after_parse;
use crate::socket::after_read;
use crate::socket::after_start;
use crate::socket::after_write;
use crate::socket::handed_out;
use crate::socket::offered;
use crate::socket::options_for;
use crate::socket::read_step;
use crate::socket::response_view;
use crate::socket::write_next;
use crate::text::ascii;
use crate::text::head_length;

verus! {

/// What to do next.
#[derive(Debug, Clone, Copy, PartialEq, Eq, Structural)]
pub enum Action {
    /// Read from the stream.
    Read,
    /// Start a handler, if there is a request for one.
    Start,
    /// See whether the handler has a response.
    Poll,
    /// Write to the stream.
    Write,
    /// Flush the stream: the response is written.
    Flush,
    /// The turn is over: see what becomes of the connection.
    Finish,
    /// Let the connection go.
    Drop,
    /// Give up: the head of the request parses, but is none that a request can have.
    Abort,
}

/// One turn of a connection.
pub struct Turn {
    stream: Stream,
    writable: bool,
    action: Action,
    refused: Option<ResponseWrapper>,
    done_write: bool,
}

/// A `Turn` as a value.
pub struct TurnView {
    pub stream: StreamView,
    /// Whether the stream takes bytes.
    pub writable: bool,
    pub action: Action,
    /// The answer to a request that was refused in this turn.
    pub refused: Option<ResponseView>,
    /// Whether the response was written to its end in this turn.
    pub done_write: bool,
}

impl View for Turn {
    type V = TurnView;

    closed spec fn view(&self) -> TurnView {
        TurnView {
            stream: self.stream@,
            writable: self.writable,
            action: self.action,
            refused: response_view(self.refused),
            done_write: self.done_write,
        }
    }
}

/// A turn begins with reading, where there is something to read.
pub open spec fn first_turn(stream: StreamView, readable: bool, writable: bool) -> TurnView {
    TurnView {
        stream,
        writable,
        action: if readable {
            Action::Read
        } else {
            Action::Start
        },
        refused: None,
        done_write: false,
    }
}

/// What was read is a request that is refused.
pub open spec fn is_refused(v: StreamView) -> bool {
    &&& !v.done_reading
    &&& representable(v.reader.bytes)
    &&& outcome(v.reader.bytes, v.reader.complete) is Err
}

/// What was read is a head that parses, but that no request can have.
pub open spec fn is_unrepresentable(v: StreamView) -> bool {
    !v.done_reading && !representable(v.reader.bytes)
}

/// A turn after reading.
pub open spec fn turn_after_read(v: TurnView, event: ReadEvent) -> TurnView {
    let stream = after_read(v.stream, event);
    match read_step(event) {
        ReadStep::More => TurnView { stream, ..v },
        ReadStep::Drop => TurnView { stream, action: Action::Drop, ..v },
        ReadStep::Stop => TurnView {
            stream: after_parse(stream),
            action: if is_unrepresentable(stream) {
                Action::Abort
            } else {
                Action::Start
            },
            refused: if is_refused(stream) {
                Some(bad_request_view())
            } else {
                v.refused
            },
            ..v
        },
    }
}

/// What to do about a response: write it, or see to it that it goes out.
pub open spec fn write_action(v: StreamView) -> Action {
    if v.bytes_written < (v.response->0).message().len() {
        Action::Write
    } else {
        Action::Flush
    }
}

/// With the response that there is, if any.
pub open spec fn with_response(v: TurnView, received: Option<ResponseView>) -> TurnView {
    let stream = after_collect(v.stream, received, v.refused);
    TurnView {
        stream,
        action: if stream.response is Some && v.writable {
            write_action(stream)
        } else {
            Action::Finish
        },
        refused: None,
        ..v
    }
}

/// A turn after its request, if it has one, went to a handler.
pub open spec fn turn_after_start(v: TurnView) -> TurnView {
    let started = TurnView { stream: after_start(v.stream), ..v };
    if started.stream.receiver {
        TurnView { action: Action::Poll, ..started }
    } else {
        with_response(started, None)
    }
}

/// A turn after writing.
pub open spec fn turn_after_write(v: TurnView, event: WriteEvent) -> TurnView {
    let stream = after_write(v.stream, event);
    TurnView {
        stream,
        action: match write_next(event) {
            WriteNext::Again => write_action(stream),
            WriteNext::Stop => Action::Finish,
            WriteNext::Drop => Action::Drop,
        },
        ..v
    }
}

impl Turn {
    /// The stream is sound, and so is the turn.
    pub closed spec fn wf(&self) -> bool {
        self.stream.wf() && turn_is_sound(self@)
    }

    /// What the laws on turns ask for holds of every sound turn.
    pub proof fn lemma_wf_is_sound(&self)
        requires
            self.wf(),
        ensures
            self@.stream.consistent(),
            turn_is_sound(self@),
    {
        self.stream.lemma_wf_is_consistent();
    }

    /// The turn of a connection whose stream can be read or written.
    pub fn new(stream: Stream, readable: bool, writable: bool) -> (r: Self)
        requires
            stream.wf(),
        ensures
            r.wf(),
            r@ == first_turn(stream@, readable, writable),
    {
        Turn {
            stream,
            writable,
            action: if readable {
                Action::Read
            } else {
                Action::Start
            },
            refused: None,
            done_write: false,
        }
    }

    /// What to do next.
    pub fn action(&self) -> (r: Action)
        ensures
            r == self@.action,
    {
        self.action
    }

    /// Takes what reading gave. The reason, where what was read is refused.
    pub fn on_read(&mut self, event: ReadEvent) -> (r: Option<ErrorKind>)
        requires
            old(self).wf(),
            old(self)@.action == Action::Read,
        ensures
            final(self).wf(),
            final(self)@ == turn_after_read(old(self)@, event),
            r is Some == (read_step(event) == ReadStep::Stop && is_refused(old(self)@.stream)),
            r matches Some(error) ==> outcome(
                old(self)@.stream.reader.bytes,
                old(self)@.stream.reader.complete,
            )->Err_0 == error@,
    {
        match self.stream.on_read(event) {
            ReadStep::More => None,
            ReadStep::Drop => {
                self.action = Action::Drop;
                None
            },
            ReadStep::Stop => match self.stream.parse() {
                ParseStep::Proceed => {
                    self.action = Action::Start;
                    None
                },
                ParseStep::Refused(error, response) => {
                    self.action = Action::Start;
                    self.refused = Some(response);
                    Some(error)
                },
                ParseStep::Unrepresentable => {
                    self.action = Action::Abort;
                    None
                },
            },
        }
    }

    /// What is next, now that there is this response or none.
    fn respond(&mut self, received: Option<ResponseWrapper>)
        requires
            old(self).wf(),
            !old(self)@.done_write,
        ensures
            final(self).wf(),
            final(self)@ == with_response(old(self)@, response_view(received)),
    {
        let refused = self.refused.take();
        self.stream.collect_response(received, refused);
        self.action = Action::Finish;
        if self.writable {
            self.choose_write();
        }
    }

    /// Writes on, flushes or is done, by what has been written of the response.
    fn choose_write(&mut self)
        requires
            old(self).stream.wf(),
            old(self)@.writable,
            !old(self)@.done_write,
            old(self)@.refused is Some ==> old(self)@.stream.done_reading,
        ensures
            final(self).wf(),
            final(self)@ == (TurnView {
                action: if old(self)@.stream.response is Some {
                    write_action(old(self)@.stream)
                } else {
                    Action::Finish
                },
                ..old(self)@
            }),
    {
        let action = match self.stream.next_write() {
            WriteStep::Idle => Action::Finish,
            WriteStep::Write(_) => Action::Write,
            WriteStep::Done => Action::Flush,
        };
        self.action = action;
    }

    /// Hands out the request for a handler, if there is one.
    pub fn start(&mut self, server: &Server) -> (r: Option<Dispatch>)
        requires
            old(self).wf(),
            old(self)@.action == Action::Start,
        ensures
            final(self).wf(),
            final(self)@ == turn_after_start(old(self)@),
            r is Some == old(self)@.stream.request is Some,
            r matches Some(dispatch) ==> {
                let before = old(self)@.stream;
                &&& dispatch.request@ == (RequestView {
                    head: before.request->0,
                    bytes: before.reader.bytes,
                    body: before.reader.bytes.skip(head_length(before.reader.bytes)->0),
                })
                &&& dispatch.request@ == handed_out(before)
                &&& dispatch.options == options_for(before, server@, after_start(before).keep_alive)
            },
    {
        let dispatch = self.stream.start_handler(server);
        self.action = Action::Poll;
        if !self.stream.has_handler() {
            self.respond(None);
        }
        dispatch
    }

    /// Takes what the handler has: a response, or nothing yet.
    pub fn on_poll(&mut self, received: Option<ResponseWrapper>)
        requires
            old(self).wf(),
            old(self)@.action == Action::Poll,
        ensures
            final(self).wf(),
            final(self)@ == with_response(old(self)@, response_view(received)),
    {
        self.respond(received);
    }

    /// The bytes to write.
    pub fn data(&self) -> (r: &[u8])
        requires
            self.wf(),
            self@.action == Action::Write,
        ensures
            r@.len() > 0,
            r@ == offered(self@.stream.response->0, self@.stream.bytes_written as int),
    {
        match self.stream.next_write() {
            WriteStep::Write(data) => data,
            _ => &[],
        }
    }

    /// How much of the response has been written.
    pub fn bytes_written(&self) -> (r: usize)
        ensures
            r == self@.stream.bytes_written,
    {
        self.stream.bytes_written()
    }

    /// Takes what writing gave.
    pub fn on_write(&mut self, event: WriteEvent)
        requires
            old(self).wf(),
            old(self)@.action == Action::Write,
            event matches WriteEvent::Wrote(n) ==> old(self)@.stream.bytes_written + n <= usize::MAX,
        ensures
            final(self).wf(),
            final(self)@ == turn_after_write(old(self)@, event),
    {
        match self.stream.on_write(event) {
            WriteNext::Again => self.choose_write(),
            WriteNext::Stop => {
                self.action = Action::Finish;
            },
            WriteNext::Drop => {
                self.action = Action::Drop;
            },
        }
    }

    /// The stream was flushed.
    pub fn on_flush(&mut self)
        requires
            old(self).wf(),
            old(self)@.action == Action::Flush,
        ensures
            final(self).wf(),
            final(self)@ == (TurnView { action: Action::Finish, done_write: true, ..old(self)@ }),
            final(self)@ == turn_step(old(self)@, TurnEvent::Flush),
    {
        self.done_write = true;
        self.action = Action::Finish;
    }

    /// What becomes of the connection.
    pub fn finish(self) -> (r: Option<Socket>)
        requires
            self.wf(),
            self@.action == Action::Finish,
        ensures
            match (r, after_event(self@.stream, self@.done_write)) {
                (Some(Socket::Stream(s)), Some(v)) => s.wf() && s@ == v,
                (None, None) => true,
                _ => false,
            },
    {
        self.stream.finish(self.done_write)
    }
}

/// What an action can give.
pub enum TurnEvent<'a> {
    Read(ReadEvent<'a>),
    Start,
    Poll(Option<ResponseView>),
    Write(WriteEvent),
    Flush,
}

/// The event is one that the next action of the turn can give.
pub open spec fn is_due(v: TurnView, event: TurnEvent) -> bool {
    match event {
        TurnEvent::Read(_) => v.action == Action::Read,
        TurnEvent::Start => v.action == Action::Start,
        TurnEvent::Poll(_) => v.action == Action::Poll,
        TurnEvent::Write(_) => v.action == Action::Write,
        TurnEvent::Flush => v.action == Action::Flush,
    }
}

/// Where a turn stands after an event.
pub open spec fn turn_step(v: TurnView, event: TurnEvent) -> TurnView {
    match event {
        TurnEvent::Read(event) => turn_after_read(v, event),
        TurnEvent::Start => turn_after_start(v),
        TurnEvent::Poll(received) => with_response(v, received),
        TurnEvent::Write(event) => turn_after_write(v, event),
        TurnEvent::Flush => TurnView { action: Action::Finish, done_write: true, ..v },
    }
}

/// All of the response has been written.
pub open spec fn is_written(v: StreamView) -> bool {
    v.response is Some && v.bytes_written >= (v.response->0).message().len()
}

/// Writing happens to a stream that takes bytes and with a response that is not all written, a
/// response counts as written only when all of it is, and a request is refused only when it has
/// been read.
pub open spec fn turn_is_sound(v: TurnView) -> bool {
    &&& v.action == Action::Write ==> v.writable && v.stream.response is Some && !is_written(
        v.stream,
    )
    &&& v.action == Action::Flush ==> v.writable && is_written(v.stream)
    &&& v.done_write ==> v.action == Action::Finish && is_written(v.stream)
    &&& v.refused is Some ==> v.stream.done_reading
}

/// A turn begins sound.
pub proof fn law_turns_begin_sound(stream: StreamView, readable: bool, writable: bool)
    ensures
        turn_is_sound(first_turn(stream, readable, writable)),
{
}

/// A turn stays sound through every action.
pub proof fn law_turns_stay_sound(v: TurnView, event: TurnEvent)
    requires
        turn_is_sound(v),
        is_due(v, event),
    ensures
        turn_is_sound(turn_step(v, event)),
{
}

/// A connection is not made ready for another request, nor given up as served, at the end of a turn
/// that leaves a part of its response unwritten: it stays as it is.
pub proof fn law_unwritten_response_holds_the_connection(v: TurnView)
    requires
        turn_is_sound(v),
        !is_written(v.stream),
    ensures
        after_event(v.stream, v.done_write) == Some(v.stream),
{
}

/// A request that has come in whole goes to a handler in the same turn, with its head and with the
/// bytes behind the head, which are as many as the head says.
pub proof fn law_whole_request_reaches_a_handler(v: TurnView)
    requires
        v.stream.consistent(),
        !v.stream.done_reading,
        !v.stream.reader.complete,
        representable(v.stream.reader.bytes),
        outcome(v.stream.reader.bytes, false) matches Ok(Some(_)),
    ensures
        ({
            let b = v.stream.reader.bytes;
            let head = outcome(b, false)->Ok_0->Some_0;
            let read = turn_after_read(v, ReadEvent::WouldBlock);
            &&& read.action == Action::Start
            &&& read.stream.request == Some(head)
            &&& read.stream.reader.bytes == b
            &&& turn_after_start(read).action == Action::Poll
            &&& b.skip(head_length(b)->0).len() == declared_length(head.headers)
        }),
{
    law_body_has_declared_length(v.stream.reader.bytes);
}

/// A request that is refused in a turn is answered in it, if the stream takes bytes: with the
/// words "bad request" and nothing else.
pub proof fn law_refusal_is_written_at_once(v: TurnView)
    requires
        v.stream.consistent(),
        v.writable,
        is_refused(v.stream),
    ensures
        ({
            let answered = turn_after_start(turn_after_read(v, ReadEvent::WouldBlock));
            &&& answered.action == Action::Write
            &&& answered.stream.response == Some(bad_request_view())
            &&& answered.stream.bytes_written == 0
            &&& offered(answered.stream.response->0, 0) == ascii("bad request"@)
            &&& bad_request_view().message() == ascii("bad request"@)
        }),
{
    reveal_strlit("bad request");
    assert(offered(bad_request_view(), 0) =~= ascii("bad request"@));
    assert(bad_request_view().message() =~= ascii("bad request"@));
}

/// Writing goes on in a later turn where it stopped: with a response that is not all written and a
/// stream that takes bytes, the next thing is to write, whatever the handler says, and what is
/// written is the rest.
pub proof fn law_writing_goes_on(v: TurnView, received: Option<ResponseView>)
    requires
        v.stream.response is Some,
        !is_written(v.stream),
        v.writable,
    ensures
        with_response(v, received).action == Action::Write,
        with_response(v, received).stream == v.stream,
{
}

/// What can come next for a connection: an action gives something, or the turn ends and another one
/// begins.
pub enum RunEvent<'a> {
    Act(TurnEvent<'a>),
    Next(bool, bool),
}

/// The event can come next. A stream takes no more bytes than it is offered, and a connection whose
/// response has been written is finished with.
pub open spec fn can_come(v: TurnView, event: RunEvent) -> bool {
    match event {
        RunEvent::Act(event) => {
            &&& is_due(v, event)
            &&& event matches TurnEvent::Write(WriteEvent::Wrote(n)) ==> n <= offered(
                v.stream.response->0,
                v.stream.bytes_written as int,
            ).len()
        },
        RunEvent::Next(_, _) => v.action == Action::Finish && !v.done_write,
    }
}

/// Where a connection stands after an event.
pub open spec fn run_step(v: TurnView, event: RunEvent) -> TurnView {
    match event {
        RunEvent::Act(event) => turn_step(v, event),
        RunEvent::Next(readable, writable) => first_turn(
            after_event(v.stream, v.done_write)->0,
            readable,
            writable,
        ),
    }
}

/// The bytes that go out with an event.
pub open spec fn step_sends(v: TurnView, event: RunEvent) -> Seq<u8> {
    match event {
        RunEvent::Act(TurnEvent::Write(WriteEvent::Wrote(n))) => offered(
            v.stream.response->0,
            v.stream.bytes_written as int,
        ).take(n as int),
        _ => Seq::empty(),
    }
}

/// Each of the events can come when its turn is.
pub open spec fn can_run(v: TurnView, events: Seq<RunEvent>) -> bool
    decreases events.len(),
{
    events.len() > 0 ==> can_come(v, events[0]) && can_run(
        run_step(v, events[0]),
        events.drop_first(),
    )
}

/// Where a connection stands after these events.
pub open spec fn run(v: TurnView, events: Seq<RunEvent>) -> TurnView
    decreases events.len(),
{
    if events.len() == 0 {
        v
    } else {
        run(run_step(v, events[0]), events.drop_first())
    }
}

/// The bytes that go out with these events.
pub open spec fn run_sends(v: TurnView, events: Seq<RunEvent>) -> Seq<u8>
    decreases events.len(),
{
    if events.len() == 0 {
        Seq::empty()
    } else {
        step_sends(v, events[0]) + run_sends(run_step(v, events[0]), events.drop_first())
    }
}

/// From when a handler has got the request of a connection until the connection is finished with,
/// no other request comes up over it, however many turns that takes and whatever is read in them:
/// none waits, and so none is handed out.
pub proof fn law_one_handler_over_all_turns(v: TurnView, events: Seq<RunEvent>)
    requires
        v.stream.receiver,
        v.stream.done_reading,
        v.stream.request is None,
        can_run(v, events),
    ensures
        run(v, events).stream.receiver,
        run(v, events).stream.done_reading,
        run(v, events).stream.request is None,
        after_start(run(v, events).stream) == run(v, events).stream,
    decreases events.len(),
{
    if events.len() > 0 {
        law_one_handler_over_all_turns(run_step(v, events[0]), events.drop_first());
    }
}

/// However many turns it takes, and whatever else happens in them, what goes out over a connection
/// with a response is that response, from where it had got to: each byte once, in order, none lost.
/// When the connection is finished with, all of the response has gone out.
pub proof fn law_whole_response_goes_out(v: TurnView, events: Seq<RunEvent>)
    requires
        turn_is_sound(v),
        v.stream.response is Some,
        v.stream.bytes_written <= (v.stream.response->0).message().len() <= usize::MAX,
        can_run(v, events),
    ensures
        ({
            let message = (v.stream.response->0).message();
            let after = run(v, events);
            &&& turn_is_sound(after)
            &&& after.stream.response == v.stream.response
            &&& v.stream.bytes_written <= after.stream.bytes_written <= message.len()
            &&& run_sends(v, events) == message.subrange(
                v.stream.bytes_written as int,
                after.stream.bytes_written as int,
            )
            &&& after.done_write ==> after.stream.bytes_written == message.len()
            &&& after.done_write && v.stream.bytes_written == 0 ==> run_sends(v, events) == message
        }),
    decreases events.len(),
{
    let message = (v.stream.response->0).message();
    let start = v.stream.bytes_written as int;
    if events.len() > 0 {
        let event = events[0];
        let next = run_step(v, event);
        if let RunEvent::Act(event) = event {
            law_turns_stay_sound(v, event);
        }
        assert(next.stream.response == v.stream.response);
        assert(step_sends(v, event) =~= message.subrange(start, next.stream.bytes_written as int));
        law_whole_response_goes_out(next, events.drop_first());
        let end = run(v, events).stream.bytes_written as int;
        assert(run_sends(v, events) =~= message.subrange(start, end));
    } else {
        assert(run_sends(v, events) =~= message.subrange(start, start));
    }
    assert(message.subrange(0, message.len() as int) =~= message);
}

} // verus!
