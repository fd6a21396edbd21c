//! The life of a connection: from the bytes of a request to those of the response.
use vstd::prelude::*;

use crate::errors::ErrorKind;
use crate::errors::ErrorText;
use crate::head::HeadView;
use crate::head::RequestHead;
use crate::headers::Entry;
use crate::headers::Headers;
use crate::headers::first_value;
use crate::headers::get_header;
use crate::headers::header_entries;
use crate::headers::is_name;
use crate::http_stream::HttpStreamReader;
use crate::http_stream::ReaderView;
use crate::http_stream::outcome;
use crate::http_stream::representable;
use crate::http_stream::result_view;
use crate::request::Request;
use crate::request::RequestView;
use crate::response::ResponseView;
use crate::response::ResponseWrapper;
use crate::response::bad_request_view;
use crate::server::Server;
use crate::server::ServerView;
use crate::text::ascii;
use crate::text::ascii_bytes;
use crate::text::eq_ignore_ascii_case;
use crate::text::head_length;
use crate::text::law_head_stays;
use crate::text::lower_all;

verus! {

/// Whether a connection has carried a request before.
#[derive(Debug, Clone, Copy, PartialEq, Eq, Structural)]
pub enum SocketStatus {
    New,
    Reused,
}

/// Represent the tcp socket & streams being polled
pub enum Socket {
    Listener,
    Stream(Stream),
}

/// Where the exchange over one connection stands.
pub struct Stream {
    keep_alive: bool,
    socket_status: SocketStatus,
    reader: HttpStreamReader,
    request: Option<RequestHead>,
    done_reading: bool,
    receiver: bool,
    response: Option<ResponseWrapper>,
    bytes_written: usize,
}

/// A `Stream` as a value.
pub struct StreamView {
    /// Whether the connection is kept once the response is written.
    pub keep_alive: bool,
    pub socket_status: SocketStatus,
    /// What has been read.
    pub reader: ReaderView,
    /// A request that no handler has yet.
    pub request: Option<HeadView>,
    /// Whether there is nothing more to read of the request.
    pub done_reading: bool,
    /// Whether a handler has the request.
    pub receiver: bool,
    /// What is being written.
    pub response: Option<ResponseView>,
    /// How much of it has been written.
    pub bytes_written: usize,
}

/// A head or none, as a value.
pub open spec fn head_view(request: Option<RequestHead>) -> Option<HeadView> {
    match request {
        Some(head) => Some(head@),
        None => None,
    }
}

/// A response or none, as a value.
pub open spec fn response_view(response: Option<ResponseWrapper>) -> Option<ResponseView> {
    match response {
        Some(response) => Some(response@),
        None => None,
    }
}

impl View for Stream {
    type V = StreamView;

    closed spec fn view(&self) -> StreamView {
        StreamView {
            keep_alive: self.keep_alive,
            socket_status: self.socket_status,
            reader: self.reader@,
            request: head_view(self.request),
            done_reading: self.done_reading,
            receiver: self.receiver,
            response: response_view(self.response),
            bytes_written: self.bytes_written,
        }
    }
}

impl StreamView {
    /// A handler only ever has a request that was read to its end, and no request waits for a
    /// handler while one is at work. There is a response only to a request that was read to its
    /// end, or refused, and nothing has been written before there is one. As long as no handler has
    /// got a request, nothing speaks against keeping the connection.
    pub open spec fn consistent(self) -> bool {
        &&& self.receiver ==> self.done_reading
        &&& self.request is Some ==> {
            &&& self.done_reading
            &&& !self.receiver
            &&& head_length(self.reader.bytes) is Some
        }
        &&& self.response is Some ==> self.done_reading
        &&& self.response is None ==> self.bytes_written == 0
        &&& !self.receiver ==> self.keep_alive
    }
}

/// A connection with nothing read and nothing to write.
pub open spec fn fresh_stream(reader: ReaderView, socket_status: SocketStatus) -> StreamView {
    StreamView {
        keep_alive: true,
        socket_status,
        reader,
        request: None,
        done_reading: false,
        receiver: false,
        response: None,
        bytes_written: 0,
    }
}

/// What an attempt to read from a stream gave. No bytes: the stream has ended.
pub enum ReadEvent<'a> {
    Data(&'a [u8]),
    WouldBlock,
    ConnectionReset,
    Failed,
}

/// What to do after an attempt to read.
#[derive(Debug, Clone, Copy, PartialEq, Eq, Structural)]
pub enum ReadStep {
    /// Read on.
    More,
    /// Nothing more to read for now: see what there is.
    Stop,
    /// Let the connection go.
    Drop,
}

/// What an attempt to read leads to.
pub open spec fn read_step(event: ReadEvent) -> ReadStep {
    match event {
        ReadEvent::Data(chunk) => if chunk@.len() == 0 {
            ReadStep::Drop
        } else {
            ReadStep::More
        },
        ReadEvent::WouldBlock => ReadStep::Stop,
        ReadEvent::ConnectionReset => ReadStep::Stop,
        ReadEvent::Failed => ReadStep::Drop,
    }
}

/// A stream after an attempt to read.
pub open spec fn after_read(v: StreamView, event: ReadEvent) -> StreamView {
    match event {
        ReadEvent::Data(chunk) => StreamView {
            reader: ReaderView { bytes: v.reader.bytes + chunk@, ..v.reader },
            ..v
        },
        _ => v,
    }
}

/// What came of looking for a request in what was read.
pub enum ParseStep {
    /// No objection: the request is there, or more has to be read.
    Proceed,
    /// The request is refused, with this answer.
    Refused(ErrorKind, ResponseWrapper),
    /// The head parses, but is none that a request can have.
    Unrepresentable,
}

/// A stream whose reader gave this result.
pub open spec fn after_result(
    v: StreamView,
    result: Result<Option<HeadView>, ErrorText>,
) -> StreamView {
    match result {
        Ok(Some(head)) => StreamView { request: Some(head), done_reading: true, ..v },
        Ok(None) => StreamView { request: None, ..v },
        Err(_) => StreamView { request: None, done_reading: true, ..v },
    }
}

/// A stream after a look for a request in what was read.
pub open spec fn after_parse(v: StreamView) -> StreamView {
    if v.done_reading || !representable(v.reader.bytes) {
        v
    } else {
        let result = outcome(v.reader.bytes, v.reader.complete);
        let complete = v.reader.complete || (result matches Ok(Some(_)));
        after_result(StreamView { reader: ReaderView { complete, ..v.reader }, ..v }, result)
    }
}

/// Settings to make on a stream.
pub struct SocketOptions {
    pub no_delay: bool,
    pub keep_alive_secs: Option<u64>,
}

/// A request for a handler, and the settings to make on its stream before that.
pub struct Dispatch {
    pub request: Request,
    pub options: Option<SocketOptions>,
}

/// The name of the header that says whether the connection is to be kept.
pub open spec fn connection_name() -> Seq<u8> {
    ascii("connection"@)
}

/// Whether a connection is kept after a request with these headers: as the request says, and as
/// before where it says nothing.
pub open spec fn keeps_alive(headers: Seq<Entry>, before: bool) -> bool {
    match first_value(headers, connection_name()) {
        Some(value) => lower_all(value) == ascii("keep-alive"@),
        None => before,
    }
}

/// The settings to make on the stream of a request: on the first one over a connection only.
pub open spec fn options_for(v: StreamView, server: ServerView, keep_alive: bool) -> Option<
    SocketOptions,
> {
    if v.socket_status == SocketStatus::New {
        Some(
            SocketOptions {
                no_delay: server.no_delay,
                keep_alive_secs: if keep_alive {
                    Some(server.keep_alive_secs)
                } else {
                    None
                },
            },
        )
    } else {
        None
    }
}

/// The request that a stream has for a handler: its head, and behind that its body.
pub open spec fn handed_out(v: StreamView) -> RequestView {
    RequestView {
        head: v.request->0,
        bytes: v.reader.bytes,
        body: v.reader.bytes.skip(head_length(v.reader.bytes)->0),
    }
}

/// A stream after its request, if it has one, went to a handler.
pub open spec fn after_start(v: StreamView) -> StreamView {
    match v.request {
        Some(head) => StreamView {
            keep_alive: keeps_alive(head.headers, v.keep_alive),
            reader: ReaderView { bytes: Seq::empty(), complete: false },
            request: None,
            receiver: true,
            ..v
        },
        None => v,
    }
}

/// With a response to write: the one that there is already, or else the handler's, or else the
/// answer to a refused request.
pub open spec fn after_collect(
    v: StreamView,
    received: Option<ResponseView>,
    refused: Option<ResponseView>,
) -> StreamView {
    StreamView {
        response: if v.response is Some {
            v.response
        } else if v.receiver {
            received
        } else {
            refused
        },
        ..v
    }
}

/// What there is to write next.
pub enum WriteStep<'a> {
    /// There is no response.
    Idle,
    /// These bytes.
    Write(&'a [u8]),
    /// Nothing: the response is written.
    Done,
}

/// The part of a response to write next, where `n` bytes of it have been written.
pub open spec fn offered(response: ResponseView, n: int) -> Seq<u8> {
    if n < response.header_data.len() {
        response.header_data.skip(n)
    } else {
        response.body.skip(n - response.header_data.len())
    }
}

/// What an attempt to write to a stream gave.
pub enum WriteEvent {
    Wrote(usize),
    WouldBlock,
    Failed,
}

/// What to do after an attempt to write.
#[derive(Debug, Clone, Copy, PartialEq, Eq, Structural)]
pub enum WriteNext {
    /// Write on.
    Again,
    /// The stream takes nothing more for now.
    Stop,
    /// Let the connection go.
    Drop,
}

/// What an attempt to write leads to.
pub open spec fn write_next(event: WriteEvent) -> WriteNext {
    match event {
        WriteEvent::Wrote(_) => WriteNext::Again,
        WriteEvent::WouldBlock => WriteNext::Stop,
        WriteEvent::Failed => WriteNext::Drop,
    }
}

/// A stream after an attempt to write.
pub open spec fn after_write(v: StreamView, event: WriteEvent) -> StreamView {
    match event {
        WriteEvent::Wrote(n) => StreamView { bytes_written: (v.bytes_written + n) as usize, ..v },
        _ => v,
    }
}

/// Where a connection stands after an event: as it is, as a fresh one, or nowhere.
pub open spec fn after_event(v: StreamView, done_write: bool) -> Option<StreamView> {
    if !done_write {
        Some(v)
    } else if v.keep_alive {
        Some(
            fresh_stream(
                ReaderView { bytes: Seq::empty(), complete: false },
                SocketStatus::Reused,
            ),
        )
    } else {
        None
    }
}

impl Socket {
    /// A socket that listens for connections.
    pub fn new_listener() -> (r: Self)
        ensures
            r is Listener,
    {
        Socket::Listener
    }

    /// Construct a new `Stream` variant accepts from a tcp listener
    pub fn new_stream(reader: HttpStreamReader, socket_status: SocketStatus) -> (r: Self)
        requires
            reader.wf(),
        ensures
            r matches Socket::Stream(s) && s.wf() && s@ == fresh_stream(reader@, socket_status),
    {
        Socket::Stream(Stream::new(reader, socket_status))
    }

    /// Construct a "continued" stream. Stream reading hasn't been completed yet
    pub fn continued_stream(stream: Stream) -> (r: Self)
        ensures
            r == Socket::Stream(stream),
    {
        Socket::Stream(stream)
    }
}

proof fn lemma_connection_names()
    ensures
        is_name(connection_name()),
        vstd::string::is_ascii("connection"),
        vstd::string::is_ascii("keep-alive"),
        lower_all(ascii("keep-alive"@)) == ascii("keep-alive"@),
{
    reveal_strlit("connection");
    reveal_strlit("keep-alive");
    assert(lower_all(connection_name()) =~= connection_name());
    assert(lower_all(ascii("keep-alive"@)) =~= ascii("keep-alive"@));
}

/// Whether a connection is kept after a request with these headers.
pub fn wants_keep_alive(headers: &Headers, before: bool) -> (r: bool)
    ensures
        r == keeps_alive(header_entries(*headers), before),
{
    proof {
        lemma_connection_names();
    }
    match get_header(headers, ascii_bytes("connection")) {
        Some(value) => eq_ignore_ascii_case(value.as_slice(), ascii_bytes("keep-alive")),
        None => before,
    }
}

impl Stream {
    /// The reader is sound, and the state of the exchange is one that can come about.
    pub closed spec fn wf(&self) -> bool {
        self.reader.wf() && self@.consistent()
    }

    /// The state of a sound stream is one that can come about.
    pub proof fn lemma_wf_is_consistent(&self)
        requires
            self.wf(),
        ensures
            self@.consistent(),
    {
    }

    /// A connection with nothing but what `reader` has.
    pub fn new(reader: HttpStreamReader, socket_status: SocketStatus) -> (r: Self)
        requires
            reader.wf(),
        ensures
            r.wf(),
            r@ == fresh_stream(reader@, socket_status),
    {
        Stream {
            keep_alive: true,
            socket_status,
            reader,
            request: None,
            done_reading: false,
            receiver: false,
            response: None,
            bytes_written: 0,
        }
    }

    /// Takes what an attempt to read gave.
    pub fn on_read(&mut self, event: ReadEvent) -> (r: ReadStep)
        requires
            old(self).wf(),
        ensures
            final(self).wf(),
            final(self)@ == after_read(old(self)@, event),
            r == read_step(event),
    {
        match event {
            ReadEvent::Data(chunk) => {
                if chunk.len() == 0 {
                    assert(self.reader@.bytes + chunk@ =~= self.reader@.bytes);
                    ReadStep::Drop
                } else {
                    self.reader.receive_chunk(chunk);
                    proof {
                        if self@.request is Some {
                            law_head_stays(old(self)@.reader.bytes, chunk@);
                        }
                    }
                    ReadStep::More
                }
            },
            ReadEvent::WouldBlock => ReadStep::Stop,
            ReadEvent::ConnectionReset => ReadStep::Stop,
            ReadEvent::Failed => ReadStep::Drop,
        }
    }

    /// Looks for a request in what was read, unless it has been found already.
    pub fn parse(&mut self) -> (r: ParseStep)
        requires
            old(self).wf(),
        ensures
            final(self).wf(),
            final(self)@ == after_parse(old(self)@),
            r is Unrepresentable == (!old(self)@.done_reading && !representable(
                old(self)@.reader.bytes,
            )),
            r is Refused == (!old(self)@.done_reading && representable(old(self)@.reader.bytes)
                && outcome(old(self)@.reader.bytes, old(self)@.reader.complete) is Err),
            r matches ParseStep::Refused(error, response) ==> {
                &&& outcome(old(self)@.reader.bytes, old(self)@.reader.complete)->Err_0 == error@
                &&& response@ == bad_request_view()
            },
    {
        if self.done_reading {
            return ParseStep::Proceed;
        }
        match self.reader.checked_build_request() {
            None => ParseStep::Unrepresentable,
            Some(result) => self.on_result(result),
        }
    }

    /// Takes what the reader made of what was read.
    pub fn on_result(&mut self, result: Result<Option<RequestHead>, ErrorKind>) -> (r: ParseStep)
        requires
            old(self).wf(),
            !old(self)@.done_reading,
            result matches Ok(Some(_)) ==> head_length(old(self)@.reader.bytes) is Some,
        ensures
            final(self).wf(),
            final(self)@ == after_result(old(self)@, result_view(result)),
            r !is Unrepresentable,
            r is Refused == result is Err,
            r matches ParseStep::Refused(error, response) ==> result->Err_0 == error
                && response@ == bad_request_view(),
    {
        match result {
            Ok(request) => {
                self.done_reading = request.is_some();
                self.request = request;
                ParseStep::Proceed
            },
            Err(error) => {
                self.done_reading = true;
                self.request = None;
                ParseStep::Refused(error, ResponseWrapper::bad_request())
            },
        }
    }

    /// Hands out a request that no handler has yet, with the settings to make on its stream.
    pub fn start_handler(&mut self, server: &Server) -> (r: Option<Dispatch>)
        requires
            old(self).wf(),
        ensures
            final(self).wf(),
            final(self)@ == after_start(old(self)@),
            r is Some == old(self)@.request is Some,
            r matches Some(dispatch) ==> {
                &&& dispatch.request@ == (RequestView {
                    head: old(self)@.request->0,
                    bytes: old(self)@.reader.bytes,
                    body: old(self)@.reader.bytes.skip(head_length(old(self)@.reader.bytes)->0),
                })
                &&& dispatch.request@ == handed_out(old(self)@)
                &&& dispatch.options == options_for(old(self)@, server@, final(self)@.keep_alive)
            },
    {
        match self.request.take() {
            Some(head) => {
                self.keep_alive = wants_keep_alive(head.headers(), self.keep_alive);
                let (bytes, body_start) = self.reader.take_message();
                let options = if self.socket_status == SocketStatus::New {
                    Some(
                        SocketOptions {
                            no_delay: server.is_nodelay(),
                            keep_alive_secs: if self.keep_alive {
                                Some(server.keepalive_secs())
                            } else {
                                None
                            },
                        },
                    )
                } else {
                    None
                };
                self.receiver = true;
                Some(Dispatch { request: Request::new(head, bytes, body_start), options })
            },
            None => None,
        }
    }

    /// Whether a handler has the request.
    pub fn has_handler(&self) -> (r: bool)
        ensures
            r == self@.receiver,
    {
        self.receiver
    }

    /// Takes the response to write, unless there is one already: what the handler gives, if one has
    /// the request, or else the answer to a refused request.
    pub fn collect_response(
        &mut self,
        received: Option<ResponseWrapper>,
        refused: Option<ResponseWrapper>,
    )
        requires
            old(self).wf(),
            refused is Some ==> old(self)@.done_reading,
        ensures
            final(self).wf(),
            final(self)@ == after_collect(
                old(self)@,
                response_view(received),
                response_view(refused),
            ),
    {
        if self.response.is_none() {
            self.response = if self.receiver {
                received
            } else {
                refused
            };
        }
    }

    /// How much of the response has been written.
    pub fn bytes_written(&self) -> (r: usize)
        ensures
            r == self@.bytes_written,
    {
        self.bytes_written
    }

    /// What there is to write next.
    pub fn next_write(&self) -> (r: WriteStep<'_>)
        ensures
            r is Idle == self@.response is None,
            self@.response matches Some(response) ==> {
                &&& r is Done == (self@.bytes_written >= response.message().len())
                &&& r matches WriteStep::Write(data) ==> data@.len() > 0 && data@ == offered(
                    response,
                    self@.bytes_written as int,
                )
            },
    {
        match &self.response {
            None => WriteStep::Idle,
            Some(response) => {
                let head = response.header_data();
                let body = response.body();
                let n = self.bytes_written;
                if n < head.len() {
                    WriteStep::Write(vstd::slice::slice_subrange(head, n, head.len()))
                } else if n - head.len() < body.len() {
                    WriteStep::Write(
                        vstd::slice::slice_subrange(body, n - head.len(), body.len()),
                    )
                } else {
                    WriteStep::Done
                }
            },
        }
    }

    /// Takes what an attempt to write gave.
    pub fn on_write(&mut self, event: WriteEvent) -> (r: WriteNext)
        requires
            old(self).wf(),
            old(self)@.response is Some,
            event matches WriteEvent::Wrote(n) ==> old(self)@.bytes_written + n <= usize::MAX,
        ensures
            final(self).wf(),
            final(self)@ == after_write(old(self)@, event),
            r == write_next(event),
    {
        match event {
            WriteEvent::Wrote(n) => {
                self.bytes_written = self.bytes_written + n;
                WriteNext::Again
            },
            WriteEvent::WouldBlock => WriteNext::Stop,
            WriteEvent::Failed => WriteNext::Drop,
        }
    }

    /// What becomes of the connection after an event, in which the response was written to its end
    /// or not.
    pub fn finish(self, done_write: bool) -> (r: Option<Socket>)
        requires
            self.wf(),
        ensures
            match (r, after_event(self@, done_write)) {
                (Some(Socket::Stream(s)), Some(v)) => s.wf() && s@ == v,
                (None, None) => true,
                _ => false,
            },
    {
        if !done_write {
            Some(Socket::continued_stream(self))
        } else if self.keep_alive {
            Some(Socket::new_stream(HttpStreamReader::new(), SocketStatus::Reused))
        } else {
            None
        }
    }
}

/// What can happen to a connection.
pub enum StreamEvent<'a> {
    Read(ReadEvent<'a>),
    Parse,
    Start,
    Collect(Option<ResponseView>, Option<ResponseView>),
    Write(WriteEvent),
}

/// Where a connection stands after something happened to it.
pub open spec fn step(v: StreamView, event: StreamEvent) -> StreamView {
    match event {
        StreamEvent::Read(event) => after_read(v, event),
        StreamEvent::Parse => after_parse(v),
        StreamEvent::Start => after_start(v),
        StreamEvent::Collect(received, refused) => after_collect(v, received, refused),
        StreamEvent::Write(event) => after_write(v, event),
    }
}

/// The event is one that can happen to the connection: a request is refused once it has been read,
/// and writing takes a response.
pub open spec fn can_happen(v: StreamView, event: StreamEvent) -> bool {
    match event {
        StreamEvent::Collect(_, refused) => refused is Some ==> v.done_reading,
        StreamEvent::Write(_) => v.response is Some,
        _ => true,
    }
}

/// Whatever happens to a connection, its state stays one that can come about.
pub proof fn law_states_stay_consistent(v: StreamView, event: StreamEvent)
    requires
        v.consistent(),
        can_happen(v, event),
    ensures
        step(v, event).consistent(),
{
    if let StreamEvent::Read(ReadEvent::Data(chunk)) = event {
        if v.request is Some {
            law_head_stays(v.reader.bytes, chunk@);
        }
    }
}

/// While a handler has the request of a connection, no other request comes up over it, whatever is
/// read: none waits, and so none is handed out.
pub proof fn law_one_handler_at_a_time(v: StreamView, event: StreamEvent)
    requires
        v.consistent(),
        v.receiver,
    ensures
        step(v, event).receiver,
        step(v, event).done_reading,
        step(v, event).request is None,
        after_start(v) == v,
{
}

/// A request that is refused is answered with the words "bad request" and nothing else, and no
/// handler sees it.
pub proof fn law_refused_request_is_answered(v: StreamView)
    requires
        v.consistent(),
        !v.done_reading,
        representable(v.reader.bytes),
        outcome(v.reader.bytes, v.reader.complete) is Err,
    ensures
        ({
            let parsed = after_parse(v);
            let answered = after_collect(parsed, None, Some(bad_request_view()));
            &&& parsed.done_reading
            &&& after_start(parsed) == parsed
            &&& answered.response == Some(bad_request_view())
            &&& bad_request_view().message() == ascii("bad request"@)
        }),
{
    assert(bad_request_view().message() =~= ascii("bad request"@));
}

/// A response stays the response of its connection, whatever happens, until the connection is
/// finished with.
pub proof fn law_response_stays(v: StreamView, event: StreamEvent)
    requires
        v.response is Some,
    ensures
        step(v, event).response == v.response,
{
}

/// How many bytes a row of writes took.
pub open spec fn total(takes: Seq<nat>) -> nat
    decreases takes.len(),
{
    if takes.len() == 0 {
        0
    } else {
        takes[0] + total(takes.drop_first())
    }
}

/// No write takes more than it was offered, where `n` bytes have been written before.
pub open spec fn writes_fit(response: ResponseView, n: int, takes: Seq<nat>) -> bool
    decreases takes.len(),
{
    takes.len() > 0 ==> {
        &&& takes[0] <= offered(response, n).len()
        &&& writes_fit(response, n + takes[0], takes.drop_first())
    }
}

/// The bytes that a row of writes sends out, where `n` bytes have been written before.
pub open spec fn sent(response: ResponseView, n: int, takes: Seq<nat>) -> Seq<u8>
    decreases takes.len(),
{
    if takes.len() == 0 {
        Seq::empty()
    } else {
        offered(response, n).take(takes[0] as int) + sent(
            response,
            n + takes[0],
            takes.drop_first(),
        )
    }
}

/// However little a stream takes at each write of a response, what goes out is the message, in
/// order and without a gap.
pub proof fn law_writes_send_the_message(response: ResponseView, n: int, takes: Seq<nat>)
    requires
        0 <= n <= response.message().len(),
        writes_fit(response, n, takes),
    ensures
        n + total(takes) <= response.message().len(),
        sent(response, n, takes) == response.message().subrange(n, n + total(takes)),
        n == 0 && total(takes) == response.message().len() ==> sent(response, n, takes)
            == response.message(),
    decreases takes.len(),
{
    let message = response.message();
    if takes.len() > 0 {
        law_writes_send_the_message(response, n + takes[0], takes.drop_first());
        assert(offered(response, n).take(takes[0] as int) =~= message.subrange(n, n + takes[0]));
        assert(sent(response, n, takes) =~= message.subrange(n, n + total(takes)));
    } else {
        assert(sent(response, n, takes) =~= message.subrange(n, n));
    }
    if n == 0 && total(takes) == message.len() {
        assert(message.subrange(0, message.len() as int) =~= message);
    }
}

/// A connection is kept after a request unless the request says otherwise, and given up, once the
/// response is written, after one that does.
pub proof fn law_connection_is_kept_unless_told(v: StreamView)
    requires
        v.consistent(),
        v.request is Some,
    ensures
        match first_value((v.request->0).headers, connection_name()) {
            None => after_event(after_start(v), true) is Some,
            Some(value) => after_event(after_start(v), true) is Some == (lower_all(value) == ascii(
                "keep-alive"@,
            )),
        },
{
}

/// The settings of a stream are made once: not again on a connection that is kept.
pub proof fn law_settings_are_made_once(v: StreamView, event: StreamEvent, server: ServerView)
    ensures
        step(v, event).socket_status == v.socket_status,
        after_event(v, true) matches Some(kept) ==> forall|k: bool|
            options_for(kept, server, k) is None,
{
}

} // verus!
