//! Reading a request off a stream, chunk by chunk.
use vstd::prelude::*;

use crate::errors::ErrorKind;
use crate::errors::ErrorText;
use crate::head::HeadText;
use crate::head::HeadView;
use crate::head::ParsedHead;
use crate::head::RequestHead;
use crate::head::built_head;
use crate::head::content_length;
use crate::head::declared_length;
use crate::head::httparse_request;
use crate::head::parse_head;
use crate::head::parse_view;
use crate::text::CR;
use crate::text::LF;
use crate::text::blank_line_at;
use crate::text::decimal_string;
use crate::text::decimal_text;
use crate::text::head_ends_at;
use crate::text::head_length;
use crate::text::law_head_stays;
use crate::text::lemma_head_length;
use crate::text::lemma_line_breaks_extend;
use crate::text::lemma_no_head;
use crate::text::line_breaks;
use crate::text::push_all;

verus! {

/// How `std` prints what it makes of `bytes` as UTF-8 text.
pub uninterp spec fn utf8_debug(bytes: Seq<u8>) -> Seq<char>;

/// `std::str::from_utf8`, printed with `{:?}`. The text rests on the bytes alone; it is not
/// spelled out further.
#[verifier::external_body]
fn debug_utf8(bytes: &[u8]) -> (r: String)
    ensures
        r@ == utf8_debug(bytes@),
{
    format!("{:?}", std::str::from_utf8(bytes))
}

/// The message about a head that the parser finds fault with, where `shown` is the head for a
/// reader.
pub open spec fn malformed_message(fault: Seq<char>, shown: Seq<char>) -> Seq<char> {
    "Malformed http request: "@ + fault + "\n"@ + shown
}

/// The message about a body that is longer than the head says.
pub open spec fn too_large_message(length: nat) -> Seq<char> {
    "Body is larger than stated content-length: "@ + decimal_text(length)
}

/// What the parser found in a head, or why the request is refused.
pub open spec fn judged(
    found: Result<Option<HeadText>, Seq<char>>,
    shown: Seq<char>,
) -> Result<HeadText, ErrorText> {
    match found {
        Ok(Some(text)) => Ok(text),
        Ok(None) => Err(
            ErrorText::IncompleteHttpRequest("HTTP request parser found partial info"@),
        ),
        Err(fault) => Err(ErrorText::MalformedHttpRequest(malformed_message(fault, shown))),
    }
}

/// Whether a body is all there, of which the head says that it has `declared` bytes and of which
/// `received` have come, or why the request is refused.
pub open spec fn body_verdict(received: nat, declared: nat) -> Result<bool, ErrorText> {
    if received > declared {
        Err(ErrorText::RequestBodyTooLarge(too_large_message(declared)))
    } else {
        Ok(received == declared)
    }
}

/// What the parser finds in the first `n` bytes of `b`, or why the request is refused. The parser
/// has room for as many header fields as there are lines behind the first.
pub open spec fn parsed(b: Seq<u8>, n: int) -> Result<HeadText, ErrorText> {
    judged(
        httparse_request(b.take(n), line_breaks(b, n - 4) as usize),
        utf8_debug(b.take(n)),
    )
}

/// The message about a head that the parser finds fault with.
pub fn malformed_text(fault: &str, shown: &str) -> (r: String)
    ensures
        r@ == malformed_message(fault@, shown@),
{
    let mut message = String::from_str("Malformed http request: ");
    message.append(fault);
    message.append("\n");
    message.append(shown);
    message
}

/// What the parser found in the head, or why the request is refused.
pub fn judge_head(found: Result<Option<ParsedHead>, String>, head: &[u8]) -> (r: Result<
    ParsedHead,
    ErrorKind,
>)
    ensures
        judgement_view(r) == judged(parse_view(found), utf8_debug(head@)),
{
    match found {
        Ok(Some(text)) => Ok(text),
        Ok(None) => Err(
            ErrorKind::IncompleteHttpRequest(
                String::from_str("HTTP request parser found partial info"),
            ),
        ),
        Err(fault) => Err(
            ErrorKind::MalformedHttpRequest(
                malformed_text(fault.as_str(), debug_utf8(head).as_str()),
            ),
        ),
    }
}

/// A judgement on a head, as a value.
pub open spec fn judgement_view(r: Result<ParsedHead, ErrorKind>) -> Result<HeadText, ErrorText> {
    match r {
        Ok(text) => Ok(text@),
        Err(error) => Err(error@),
    }
}

/// Whether a body is all there, or why the request is refused.
pub fn check_body(received: usize, declared: usize) -> (r: Result<bool, ErrorKind>)
    ensures
        verdict_view(r) == body_verdict(received as nat, declared as nat),
{
    if received > declared {
        let mut message = String::from_str("Body is larger than stated content-length: ");
        message.append(decimal_string(declared).as_str());
        Err(ErrorKind::RequestBodyTooLarge(message))
    } else {
        Ok(received == declared)
    }
}

/// A verdict on a body, as a value.
pub open spec fn verdict_view(r: Result<bool, ErrorKind>) -> Result<bool, ErrorText> {
    match r {
        Ok(complete) => Ok(complete),
        Err(error) => Err(error@),
    }
}

/// A head that `b` holds and that parses is one that a request can have.
pub open spec fn representable(b: Seq<u8>) -> bool {
    match head_length(b) {
        Some(n) => match parsed(b, n) {
            Ok(text) => built_head(text) is Some,
            Err(_) => true,
        },
        None => true,
    }
}

/// What the bytes `b` of a request come to: nothing yet, its head once the body is all there as
/// well, or the reason for refusing it. A request that was found `complete` stays so.
pub open spec fn outcome(b: Seq<u8>, complete: bool) -> Result<Option<HeadView>, ErrorText> {
    match head_length(b) {
        None => Ok(None),
        Some(n) => match parsed(b, n) {
            Err(error) => Err(error),
            Ok(text) => {
                let head = built_head(text)->0;
                if complete {
                    Ok(Some(head))
                } else {
                    match body_verdict((b.len() - n) as nat, declared_length(head.headers)) {
                        Ok(true) => Ok(Some(head)),
                        Ok(false) => Ok(None),
                        Err(error) => Err(error),
                    }
                }
            },
        },
    }
}

/// The result of building a request, as a value.
pub open spec fn result_view(r: Result<Option<RequestHead>, ErrorKind>) -> Result<
    Option<HeadView>,
    ErrorText,
> {
    match r {
        Ok(Some(head)) => Ok(Some(head@)),
        Ok(None) => Ok(None),
        Err(error) => Err(error@),
    }
}

/// What a reader has: the bytes that came, and whether they have been found to be a whole request.
pub struct ReaderView {
    pub bytes: Seq<u8>,
    pub complete: bool,
}

/// Http reader/parser for incrementally reading a request and
/// parsing its headers
pub struct HttpStreamReader {
    read_buf: Vec<u8>,
    headers_length: usize,
    header_lines: usize,
    headers_complete: bool,
    header_cursor: usize,
    request: Option<RequestHead>,
    content_length: usize,
    body_bytes_read: usize,
    body_complete: bool,
}

impl View for HttpStreamReader {
    type V = ReaderView;

    closed spec fn view(&self) -> ReaderView {
        ReaderView { bytes: self.read_buf@, complete: self.body_complete }
    }
}

proof fn lemma_parsed_stays(b: Seq<u8>, more: Seq<u8>, n: int)
    requires
        head_ends_at(b, n),
    ensures
        parsed(b + more, n) == parsed(b, n),
{
    lemma_head_length(b, n);
    law_head_stays(b, more);
    lemma_line_breaks_extend(b, more, n - 4);
}

impl HttpStreamReader {
    /// What the reader remembers is true of the bytes that it has.
    pub closed spec fn wf(&self) -> bool {
        let b = self.read_buf@;
        let n = self.headers_length as int;
        &&& self.header_cursor == 0 || self.header_cursor + 3 <= b.len()
        &&& forall|p: int| p < self.header_cursor ==> !blank_line_at(b, p)
        &&& self.header_lines == line_breaks(b, self.header_cursor as int)
        &&& self.header_lines <= self.header_cursor
        &&& self.headers_complete ==> head_ends_at(b, n) && self.header_cursor == n - 4
        &&& self.body_complete ==> self.headers_complete
        &&& self.request matches Some(head) ==> {
            &&& self.headers_complete
            &&& parsed(b, n) matches Ok(text) && built_head(text) == Some(head@)
            &&& self.content_length == declared_length(head@.headers)
        }
    }

    /// A reader that has nothing.
    pub fn new() -> (r: Self)
        ensures
            r.wf(),
            r@ == (ReaderView { bytes: Seq::empty(), complete: false }),
    {
        HttpStreamReader {
            read_buf: Vec::with_capacity(1024),
            headers_length: 0,
            header_lines: 0,
            headers_complete: false,
            header_cursor: 0,
            request: None,
            content_length: 0,
            body_bytes_read: 0,
            body_complete: false,
        }
    }

    /// Save a new chunk of bytes
    pub fn receive_chunk(&mut self, chunk: &[u8]) -> (r: usize)
        requires
            old(self).wf(),
        ensures
            final(self).wf(),
            final(self)@ == (ReaderView { bytes: old(self)@.bytes + chunk@, ..old(self)@ }),
            r == final(self)@.bytes.len(),
    {
        let ghost b = self.read_buf@;
        push_all(&mut self.read_buf, chunk);
        proof {
            let c = self.read_buf@;
            let n = self.headers_length as int;
            assert forall|p: int| p < self.header_cursor implies !blank_line_at(c, p) by {
                assert(!blank_line_at(b, p));
            }
            if self.header_cursor > 0 {
                lemma_line_breaks_extend(b, chunk@, self.header_cursor as int);
            }
            if self.headers_complete {
                lemma_parsed_stays(b, chunk@, n);
            }
        }
        self.read_buf.len()
    }

    /// Looks for the end of the head, from where the last look ended.
    fn scan_headers(&mut self)
        requires
            old(self).wf(),
        ensures
            final(self).wf(),
            final(self)@ == old(self)@,
            final(self).request == old(self).request,
            final(self).headers_complete == head_length(old(self)@.bytes) is Some,
            final(self).headers_complete ==> head_length(old(self)@.bytes) == Some(
                final(self).headers_length as int,
            ),
    {
        if self.headers_complete {
            proof {
                lemma_head_length(self.read_buf@, self.headers_length as int);
            }
            return;
        }
        let ghost b = self.read_buf@;
        let len = self.read_buf.len();
        while len >= 4 && self.header_cursor <= len - 4
            invariant
                self.wf(),
                self@ == old(self)@,
                self.request == old(self).request,
                !self.headers_complete,
                b == self.read_buf@,
                len == b.len(),
            decreases len - self.header_cursor,
        {
            let p = self.header_cursor;
            if self.read_buf[p] == CR && self.read_buf[p + 1] == LF {
                if self.read_buf[p + 2] == CR && self.read_buf[p + 3] == LF {
                    self.headers_complete = true;
                    self.headers_length = p + 4;
                    proof {
                        assert(blank_line_at(b, p as int));
                        assert(head_ends_at(b, p + 4));
                        lemma_head_length(b, p + 4);
                    }
                    return;
                }
                self.header_lines = self.header_lines + 1;
            }
            self.header_cursor = p + 1;
            proof {
                assert(!blank_line_at(b, p as int));
            }
        }
        proof {
            assert forall|p: int| !blank_line_at(b, p) by {
                if p < self.header_cursor {
                }
            }
            lemma_no_head(b);
        }
    }

    /// Parses the head, which has to be all there.
    fn parse(&self) -> (r: Result<ParsedHead, ErrorKind>)
        requires
            self.wf(),
            self.headers_complete,
        ensures
            judgement_view(r) == parsed(self@.bytes, self.headers_length as int),
    {
        proof {
            lemma_head_length(self.read_buf@, self.headers_length as int);
        }
        let bytes = vstd::slice::slice_subrange(
            self.read_buf.as_slice(),
            0,
            self.headers_length,
        );
        assert(bytes@ =~= self.read_buf@.take(self.headers_length as int));
        judge_head(parse_head(bytes, self.header_lines), bytes)
    }

    /// Makes a request of the head, once it is all there and where it parses. False where the head
    /// parses, but is none that a request can have.
    fn prepare(&mut self) -> (ok: bool)
        requires
            old(self).wf(),
        ensures
            final(self).wf(),
            final(self)@ == old(self)@,
            ok == representable(old(self)@.bytes),
    {
        self.scan_headers();
        if !self.headers_complete || self.request.is_some() {
            return true;
        }
        match self.parse() {
            Ok(text) => match text.build() {
                Some(head) => {
                    self.content_length = content_length(head.headers());
                    self.request = Some(head);
                    true
                },
                None => false,
            },
            Err(_) => true,
        }
    }

    /// Try parsing the current bytes into request headers.
    ///
    /// After headers are parsed, collect the remaining body bytes.
    /// After Content-length bytes are parsed, return the parsed request headers.
    pub fn try_build_request(&mut self) -> (r: Result<Option<RequestHead>, ErrorKind>)
        requires
            old(self).wf(),
            representable(old(self)@.bytes),
        ensures
            final(self).wf(),
            result_view(r) == outcome(old(self)@.bytes, old(self)@.complete),
            final(self)@ == (ReaderView {
                complete: old(self)@.complete || (r matches Ok(Some(_))),
                ..old(self)@
            }),
    {
        self.scan_headers();
        if !self.headers_complete {
            return Ok(None);
        }
        if self.request.is_none() {
            let text = match self.parse() {
                Ok(text) => text,
                Err(error) => return Err(error),
            };
            let head = text.build().unwrap();
            self.content_length = content_length(head.headers());
            self.request = Some(head);
        }
        proof {
            lemma_head_length(self.read_buf@, self.headers_length as int);
        }
        if !self.body_complete {
            self.body_bytes_read = self.read_buf.len() - self.headers_length;
            self.body_complete = match check_body(self.body_bytes_read, self.content_length) {
                Ok(complete) => complete,
                Err(error) => return Err(error),
            };
        }
        if !self.body_complete {
            return Ok(None);
        }
        Ok(self.request.take())
    }

    /// As `try_build_request`, and nothing where the head parses, but is none that a request can
    /// have.
    pub fn checked_build_request(&mut self) -> (r: Option<Result<Option<RequestHead>, ErrorKind>>)
        requires
            old(self).wf(),
        ensures
            final(self).wf(),
            r is Some == representable(old(self)@.bytes),
            r is None ==> final(self)@ == old(self)@,
            r matches Some(result) ==> {
                &&& result_view(result) == outcome(old(self)@.bytes, old(self)@.complete)
                &&& final(self)@ == (ReaderView {
                    complete: old(self)@.complete || (result matches Ok(Some(_))),
                    ..old(self)@
                })
            },
    {
        if self.prepare() {
            Some(self.try_build_request())
        } else {
            None
        }
    }

    /// Hands out the bytes that came and where the body starts in them. The reader is left with
    /// nothing.
    pub fn take_message(&mut self) -> (r: (Vec<u8>, usize))
        requires
            old(self).wf(),
            head_length(old(self)@.bytes) is Some,
        ensures
            final(self).wf(),
            final(self)@ == (ReaderView { bytes: Seq::empty(), complete: false }),
            r.0@ == old(self)@.bytes,
            head_length(old(self)@.bytes) == Some(r.1 as int),
            r.1 <= r.0@.len(),
    {
        self.scan_headers();
        proof {
            lemma_head_length(self.read_buf@, self.headers_length as int);
        }
        let mut taken = HttpStreamReader::new();
        std::mem::swap(self, &mut taken);
        (taken.read_buf, taken.headers_length)
    }
}

impl Default for HttpStreamReader {
    fn default() -> (r: Self)
        ensures
            r.wf(),
            r@ == (ReaderView { bytes: Seq::empty(), complete: false }),
    {
        HttpStreamReader::new()
    }
}

/// All the chunks, one behind the other.
pub open spec fn joined(chunks: Seq<Seq<u8>>) -> Seq<u8>
    decreases chunks.len(),
{
    if chunks.len() == 0 {
        Seq::empty()
    } else {
        joined(chunks.drop_last()) + chunks.last()
    }
}

/// A reader that got these chunks and was asked for the request after each of them.
pub open spec fn polled(chunks: Seq<Seq<u8>>) -> ReaderView
    decreases chunks.len(),
{
    if chunks.len() == 0 {
        ReaderView { bytes: Seq::empty(), complete: false }
    } else {
        let before = polled(chunks.drop_last());
        let bytes = before.bytes + chunks.last();
        ReaderView {
            bytes,
            complete: before.complete || (outcome(bytes, before.complete) matches Ok(Some(_))),
        }
    }
}

/// What such a reader answers after the last chunk.
pub open spec fn last_answer(chunks: Seq<Seq<u8>>) -> Result<Option<HeadView>, ErrorText>
    recommends
        chunks.len() > 0,
{
    let before = polled(chunks.drop_last());
    outcome(before.bytes + chunks.last(), before.complete)
}

/// A request can be read in any chunks, and asked for after any of them: until it has been handed
/// out, the answer is the one that the same bytes in one piece would get.
pub proof fn law_chunking_is_invisible(chunks: Seq<Seq<u8>>)
    requires
        chunks.len() > 0,
        forall|k: int|
            0 < k < chunks.len() ==> !(last_answer(#[trigger] chunks.take(k)) matches Ok(Some(_))),
    ensures
        last_answer(chunks) == outcome(joined(chunks), false),
        polled(chunks).bytes == joined(chunks),
    decreases chunks.len(),
{
    let before = chunks.drop_last();
    if before.len() > 0 {
        assert(before =~= chunks.take(before.len() as int));
        assert forall|k: int| 0 < k <= before.len() implies !(last_answer(
            #[trigger] before.take(k),
        ) matches Ok(Some(_))) by {
            assert(before.take(k) =~= chunks.take(k));
        }
        law_chunking_is_invisible(before);
        lemma_not_complete(before);
    }
    assert(polled(before).bytes == joined(before));
    assert(!polled(before).complete);
}

/// A reader that never answered with a request has none.
proof fn lemma_not_complete(chunks: Seq<Seq<u8>>)
    requires
        forall|k: int|
            0 < k <= chunks.len() ==> !(last_answer(#[trigger] chunks.take(k)) matches Ok(Some(_))),
    ensures
        !polled(chunks).complete,
    decreases chunks.len(),
{
    if chunks.len() > 0 {
        let before = chunks.drop_last();
        assert forall|k: int| 0 < k <= before.len() implies !(last_answer(
            #[trigger] before.take(k),
        ) matches Ok(Some(_))) by {
            assert(before.take(k) =~= chunks.take(k));
        }
        lemma_not_complete(before);
        assert(chunks.take(chunks.len() as int) =~= chunks);
    }
}

/// Whatever comes behind a request that is refused, it is refused, and for the same reason.
pub proof fn law_refusal_stands(b: Seq<u8>, more: Seq<u8>)
    requires
        outcome(b, false) is Err,
    ensures
        outcome(b + more, false) == outcome(b, false),
{
    let n = head_length(b)->0;
    law_head_stays(b, more);
    assert(head_ends_at(b, n));
    lemma_parsed_stays(b, more, n);
}

/// Once its head is all there, whether a request can have it does not change any more.
pub proof fn law_head_is_judged_once(b: Seq<u8>, more: Seq<u8>)
    requires
        head_length(b) is Some,
    ensures
        representable(b + more) == representable(b),
{
    let n = head_length(b)->0;
    law_head_stays(b, more);
    assert(head_ends_at(b, n));
    lemma_parsed_stays(b, more, n);
}

/// A request that was handed out is the answer from there on.
pub proof fn law_request_stands(b: Seq<u8>, more: Seq<u8>)
    requires
        outcome(b, false) matches Ok(Some(_)),
    ensures
        outcome(b + more, true) == outcome(b, false),
{
    let n = head_length(b)->0;
    law_head_stays(b, more);
    assert(head_ends_at(b, n));
    lemma_parsed_stays(b, more, n);
}

/// A request is handed out with exactly as many bytes behind its head as the head says.
pub proof fn law_body_has_declared_length(b: Seq<u8>)
    requires
        outcome(b, false) matches Ok(Some(_)),
    ensures
        head_length(b) matches Some(n) && 0 <= n <= b.len() && b.skip(n).len() == declared_length(
            (outcome(b, false)->Ok_0->Some_0).headers,
        ),
{
    let n = head_length(b)->0;
    assert(head_ends_at(b, n));
    lemma_head_length(b, n);
}

/// There is no answer as long as, and only as long as, the head is not all there, or the body is
/// shorter than the head says.
pub proof fn law_waits_for_the_rest(b: Seq<u8>)
    ensures
        (outcome(b, false) matches Ok(None)) <==> match head_length(b) {
            None => true,
            Some(n) => parsed(b, n) matches Ok(text) && b.len() - n < declared_length(
                (built_head(text)->0).headers,
            ),
        },
{
}

} // verus!
