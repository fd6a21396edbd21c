//! Responses, and the bytes that go back over the stream for one.
use vstd::prelude::*;

use crate::head::content_length_name;
use crate::head::declared_length;
use crate::head::lemma_content_length_name;
use crate::headers::Entry;
use crate::headers::Headers;
use crate::headers::MAX_NAMES;
use crate::headers::count_names;
use crate::headers::get_header;
use crate::headers::distinct_names;
use crate::headers::header_entries;
use crate::headers::header_pairs;
use crate::headers::insert_header;
use crate::headers::inserted;
use crate::headers::is_line;
use crate::headers::is_name;
use crate::headers::is_value;
use crate::headers::law_insert;
use crate::headers::law_lines_carry_the_table;
use crate::headers::lemma_slot;
use crate::headers::lines;
use crate::headers::new_headers;
use crate::headers::pair_views;
use crate::headers::paired_values;
use crate::headers::values;
use crate::reading::Reading;
use crate::reading::crlf;
use crate::reading::field_text;
use crate::reading::lemma_count_lines;
use crate::reading::lemma_field_reads_back;
use crate::reading::lemma_lines_read_back;
use crate::reading::lemma_status_reads_back;
use crate::reading::lemma_text_of_push;
use crate::reading::lines_of;
use crate::reading::read_field;
use crate::reading::read_fields;
use crate::reading::read_response;
use crate::reading::text_of;
use crate::reading::unpadded;
use crate::text::CR;
use crate::text::LF;
use crate::text::ascii;
use crate::text::ascii_bytes;
use crate::text::blank_line_at;
use crate::text::decimal;
use crate::text::decimal_string;
use crate::text::head_length;
use crate::text::law_decimal_reads_back;
use crate::text::law_head_stays;
use crate::text::lemma_decimal_text;
use crate::text::lemma_head_length;
use crate::text::line_breaks;
use crate::text::push_all;
use crate::text::unbroken;

verus! {

/// A response as a handler gives it.
pub struct Response {
    pub status: u16,
    pub headers: Headers,
    pub body: Vec<u8>,
}

/// Response wrapper with helpers for constructing the bytes
/// that needs to be written back a Stream
pub struct ResponseWrapper {
    inner: Response,
    header_data: Vec<u8>,
}

/// A `ResponseWrapper` as a value.
pub struct ResponseView {
    pub status: u16,
    pub headers: Seq<Entry>,
    pub body: Seq<u8>,
    pub header_data: Seq<u8>,
}

impl ResponseView {
    /// All the bytes that go back over the stream.
    pub open spec fn message(self) -> Seq<u8> {
        self.header_data + self.body
    }
}

impl View for ResponseWrapper {
    type V = ResponseView;

    closed spec fn view(&self) -> ResponseView {
        ResponseView {
            status: self.inner.status,
            headers: header_entries(self.inner.headers),
            body: self.inner.body@,
            header_data: self.header_data@,
        }
    }
}

/// A response as a handler gives it, of which nothing has been written down.
pub open spec fn wrapped(inner: Response) -> ResponseView {
    ResponseView {
        status: inner.status,
        headers: header_entries(inner.headers),
        body: inner.body@,
        header_data: Seq::empty(),
    }
}

/// The reason phrase that the `http` crate has for a status code.
pub uninterp spec fn reason_phrase(code: u16) -> Option<Seq<u8>>;

/// A reason phrase, as a value.
pub open spec fn phrase_view(r: Option<Vec<u8>>) -> Option<Seq<u8>> {
    match r {
        Some(phrase) => Some(phrase@),
        None => None,
    }
}

/// `s` is printable ASCII text.
pub open spec fn is_printable(s: Seq<u8>) -> bool {
    forall|i: int| 0 <= i < s.len() ==> 0x20 <= #[trigger] s[i] < 0x7f
}

/// `http::StatusCode::canonical_reason`: the phrase that its table has for the code, which is
/// printable ASCII text, or nothing where the table has none. The table is not spelled out.
#[verifier::external_body]
fn canonical_reason(code: u16) -> (r: Option<Vec<u8>>)
    ensures
        phrase_view(r) == reason_phrase(code),
        r matches Some(phrase) ==> is_printable(phrase@),
{
    let status = http::StatusCode::from_u16(code).ok();
    status.and_then(|s| s.canonical_reason()).map(|phrase| phrase.as_bytes().to_vec())
}

/// The name of the header that names the server.
pub open spec fn server_name() -> Seq<u8> {
    ascii("server"@)
}

/// How the server names itself.
pub open spec fn server_value() -> Seq<u8> {
    ascii("mini-http (rust)"@)
}

/// The headers that a response with these headers and a body of this length goes out with: the
/// server is named, and the length of a body is given.
pub open spec fn sent_headers(headers: Seq<Entry>, body_length: nat) -> Seq<Entry> {
    let named = inserted(headers, server_name(), server_value());
    if body_length > 0 {
        inserted(named, content_length_name(), decimal(body_length))
    } else {
        named
    }
}

/// The reason phrase that goes out with a status code that has this one.
pub open spec fn sent_reason(reason: Option<Seq<u8>>) -> Seq<u8> {
    match reason {
        Some(phrase) => phrase,
        None => ascii("Unsupported Status"@),
    }
}

/// The first line of a response with this status code, which has this reason phrase.
pub open spec fn status_line(code: u16, reason: Option<Seq<u8>>) -> Seq<u8> {
    ascii("HTTP/1.1 "@) + decimal(code as nat) + ascii(" "@) + sent_reason(reason) + crlf()
}

/// One header line.
pub open spec fn header_line(name: Seq<u8>, value: Seq<u8>) -> Seq<u8> {
    field_text(name, value) + crlf()
}

/// Header lines, one behind the other.
pub open spec fn header_lines(pairs: Seq<(Seq<u8>, Seq<u8>)>) -> Seq<u8>
    decreases pairs.len(),
{
    if pairs.len() == 0 {
        Seq::empty()
    } else {
        header_lines(pairs.drop_last()) + header_line(pairs.last().0, pairs.last().1)
    }
}

/// The head of a response: the status line, the header lines and a blank line.
pub open spec fn response_head(
    code: u16,
    reason: Option<Seq<u8>>,
    headers: Seq<Entry>,
) -> Seq<u8> {
    status_line(code, reason) + header_lines(lines(headers)) + crlf()
}

/// A response after its head has been written down, with this reason phrase.
pub open spec fn serialized(v: ResponseView, reason: Option<Seq<u8>>) -> ResponseView {
    let headers = sent_headers(v.headers, v.body.len());
    ResponseView {
        headers,
        header_data: v.header_data + response_head(v.status, reason, headers),
        ..v
    }
}

/// The answer to a request that is refused: its head is not written down.
pub open spec fn bad_request_view() -> ResponseView {
    ResponseView {
        status: 400,
        headers: Seq::empty(),
        body: ascii("bad request"@),
        header_data: Seq::empty(),
    }
}

/// Each of these pairs makes one header line.
pub open spec fn are_lines(pairs: Seq<(Seq<u8>, Seq<u8>)>) -> bool {
    forall|i: int| 0 <= i < pairs.len() ==> is_line(#[trigger] pairs[i])
}

/// No value begins or ends with white space.
pub open spec fn values_unpadded(pairs: Seq<(Seq<u8>, Seq<u8>)>) -> bool {
    forall|i: int| 0 <= i < pairs.len() ==> unpadded((#[trigger] pairs[i]).1)
}

/// `s` holds whole lines, and none of them is blank.
pub open spec fn whole_lines(s: Seq<u8>) -> bool {
    &&& s.len() >= 2
    &&& s[s.len() - 2] == CR
    &&& s[s.len() - 1] == LF
    &&& forall|p: int| !blank_line_at(s, p)
}

/// `s` holds no carriage return.
pub open spec fn no_cr(s: Seq<u8>) -> bool {
    forall|i: int| 0 <= i < s.len() ==> #[trigger] s[i] != CR
}

/// One line is a whole line.
pub proof fn lemma_first_line(content: Seq<u8>)
    requires
        no_cr(content),
    ensures
        whole_lines(content + crlf()),
{
    let s = content + crlf();
    assert forall|p: int| !blank_line_at(s, p) by {
        if blank_line_at(s, p) {
            assert(s[p] == CR && s[p + 2] == CR);
            assert(s[p] == content[p]);
        }
    }
}

/// Whole lines and another one are whole lines.
pub proof fn lemma_next_line(s: Seq<u8>, content: Seq<u8>)
    requires
        whole_lines(s),
        content.len() > 0,
        no_cr(content),
    ensures
        whole_lines(s + content + crlf()),
{
    let t = s + content + crlf();
    assert forall|p: int| !blank_line_at(t, p) by {
        if blank_line_at(t, p) {
            assert(t[p] == CR && t[p + 1] == LF && t[p + 2] == CR && t[p + 3] == LF);
            if p + 4 <= s.len() {
                assert(blank_line_at(s, p));
            } else if p + 3 == s.len() {
                assert(t[p + 2] == s[s.len() - 1]);
            } else if p + 2 < t.len() - 2 {
                assert(t[p + 2] == content[p + 2 - s.len()]);
            } else if p >= s.len() {
                assert(t[p] == content[p - s.len()]);
            } else {
                assert(t[p] == s[s.len() - 1]);
            }
        }
    }
}

/// Whole lines and a blank one are a head.
pub proof fn lemma_end_of_head(s: Seq<u8>)
    requires
        whole_lines(s),
    ensures
        head_length(s + crlf()) == Some((s + crlf()).len() as int),
{
    let t = s + crlf();
    let n = t.len() as int;
    assert(blank_line_at(t, n - 4));
    assert forall|p: int| p < n - 4 implies !blank_line_at(t, p) by {
        if blank_line_at(t, p) {
            assert(t[p + 2] == CR);
            if p + 4 <= s.len() {
                assert(blank_line_at(s, p));
            } else {
                assert(t[p + 2] == s[s.len() - 1]);
            }
        }
    }
    lemma_head_length(t, n);
}

proof fn lemma_literals()
    ensures
        is_name(server_name()),
        is_value(server_value()),
        vstd::string::is_ascii("server"),
        vstd::string::is_ascii("mini-http (rust)"),
        vstd::string::is_ascii("HTTP/1.1 "),
        vstd::string::is_ascii(" "),
        vstd::string::is_ascii(": "),
        vstd::string::is_ascii("\r\n"),
        vstd::string::is_ascii("Unsupported Status"),
        vstd::string::is_ascii("bad request"),
        is_printable(ascii("Unsupported Status"@)),
        ascii("\r\n"@) == crlf(),
        server_name() != content_length_name(),
{
    reveal_strlit("server");
    reveal_strlit("mini-http (rust)");
    reveal_strlit("HTTP/1.1 ");
    reveal_strlit(" ");
    reveal_strlit(": ");
    reveal_strlit("\r\n");
    reveal_strlit("Unsupported Status");
    reveal_strlit("bad request");
    reveal_strlit("content-length");
    assert(crate::text::lower_all(server_name()) =~= server_name());
    assert(ascii("\r\n"@) =~= crlf());
    assert(server_name().len() != content_length_name().len());
}

proof fn lemma_decimal_value_bytes(n: nat)
    ensures
        is_value(decimal(n)),
        decimal(n).len() > 0,
{
    law_decimal_reads_back(n);
}

/// Writes the status line for a status code with this reason phrase behind what `out` holds.
pub fn push_status_line(out: &mut Vec<u8>, code: u16, reason: Option<Vec<u8>>)
    ensures
        final(out)@ == old(out)@ + status_line(code, phrase_view(reason)),
{
    proof {
        lemma_literals();
        lemma_decimal_text(code as nat);
    }
    let number = decimal_string(code as usize);
    push_all(out, ascii_bytes("HTTP/1.1 "));
    push_all(out, ascii_bytes(number.as_str()));
    push_all(out, ascii_bytes(" "));
    match &reason {
        Some(phrase) => push_all(out, phrase.as_slice()),
        None => push_all(out, ascii_bytes("Unsupported Status")),
    }
    push_all(out, ascii_bytes("\r\n"));
    assert(out@ =~= old(out)@ + status_line(code, phrase_view(reason)));
}

/// The status line without its line break.
spec fn status_text(code: u16, reason: Option<Seq<u8>>) -> Seq<u8> {
    ascii("HTTP/1.1 "@) + decimal(code as nat) + ascii(" "@) + sent_reason(reason)
}

/// The lines of a head, without their line breaks.
spec fn head_texts(
    code: u16,
    reason: Option<Seq<u8>>,
    pairs: Seq<(Seq<u8>, Seq<u8>)>,
) -> Seq<Seq<u8>> {
    seq![status_text(code, reason)] + pairs.map_values(
        |p: (Seq<u8>, Seq<u8>)| field_text(p.0, p.1),
    )
}

/// The lines of a head are unbroken and not blank, and make up all of it but the blank line.
proof fn lemma_head_texts(code: u16, reason: Option<Seq<u8>>, pairs: Seq<(Seq<u8>, Seq<u8>)>)
    requires
        is_printable(sent_reason(reason)),
        are_lines(pairs),
    ensures
        text_of(head_texts(code, reason, pairs)) == status_line(code, reason) + header_lines(pairs),
        whole_lines(status_line(code, reason) + header_lines(pairs)),
        forall|i: int|
            0 <= i < head_texts(code, reason, pairs).len() ==> unbroken(
                #[trigger] head_texts(code, reason, pairs)[i],
            ),
    decreases pairs.len(),
{
    lemma_literals();
    let texts = head_texts(code, reason, pairs);
    let first = status_text(code, reason);
    assert(unbroken(sent_reason(reason)));
    lemma_status_reads_back(code as nat, sent_reason(reason));
    if pairs.len() == 0 {
        assert(texts =~= Seq::<Seq<u8>>::empty().push(first));
        lemma_text_of_push(Seq::empty(), first);
        assert(text_of(Seq::<Seq<u8>>::empty()) =~= Seq::empty());
        assert(text_of(texts) =~= status_line(code, reason) + header_lines(pairs));
        lemma_first_line(first);
        assert(first + crlf() =~= status_line(code, reason) + header_lines(pairs));
    } else {
        let before = pairs.drop_last();
        let (name, value) = pairs.last();
        assert(is_line(pairs[pairs.len() - 1]));
        assert forall|i: int| 0 <= i < before.len() implies is_line(#[trigger] before[i]) by {
            assert(before[i] == pairs[i]);
        }
        lemma_head_texts(code, reason, before);
        lemma_field_reads_back(name, value);
        let line = field_text(name, value);
        let written = status_line(code, reason) + header_lines(before);
        assert(texts =~= head_texts(code, reason, before).push(line));
        lemma_text_of_push(head_texts(code, reason, before), line);
        reveal_strlit(": ");
        lemma_next_line(written, line);
        assert(written + line + crlf() =~= status_line(code, reason) + header_lines(pairs));
        assert forall|i: int| 0 <= i < texts.len() implies unbroken(#[trigger] texts[i]) by {
            if i < texts.len() - 1 {
                assert(texts[i] == head_texts(code, reason, before)[i]);
            }
        }
    }
}

proof fn lemma_fields_read_back(pairs: Seq<(Seq<u8>, Seq<u8>)>)
    requires
        are_lines(pairs),
        values_unpadded(pairs),
    ensures
        read_fields(pairs.map_values(|p: (Seq<u8>, Seq<u8>)| field_text(p.0, p.1))) == Some(pairs),
    decreases pairs.len(),
{
    let texts = pairs.map_values(|p: (Seq<u8>, Seq<u8>)| field_text(p.0, p.1));
    if pairs.len() == 0 {
        assert(pairs =~= Seq::empty());
    } else {
        let before = pairs.drop_last();
        let last = pairs[pairs.len() - 1];
        assert(is_line(last) && unpadded(last.1));
        assert forall|i: int| 0 <= i < before.len() implies is_line(#[trigger] before[i])
            && unpadded(before[i].1) by {
            assert(before[i] == pairs[i]);
        }
        lemma_fields_read_back(before);
        lemma_field_reads_back(last.0, last.1);
        assert(texts.drop_last() =~= before.map_values(
            |p: (Seq<u8>, Seq<u8>)| field_text(p.0, p.1),
        ));
        assert(read_field(texts.last()) == Some(last));
        assert(before.push(last) =~= pairs);
    }
}

/// The head of a response has a line for the status, one for each header, and the blank line that
/// ends it, whatever the handler puts into the headers and the body.
pub proof fn law_head_has_one_line_per_header(
    code: u16,
    reason: Option<Seq<u8>>,
    headers: Seq<Entry>,
    body: Seq<u8>,
)
    requires
        is_printable(sent_reason(reason)),
        are_lines(lines(headers)),
    ensures
        ({
            let head = response_head(code, reason, headers);
            &&& line_breaks(head, head.len() as int) == lines(headers).len() + 2
            &&& head_length(head) == Some(head.len() as int)
            &&& head_length(head + body) == Some(head.len() as int)
        }),
{
    let pairs = lines(headers);
    let written = status_line(code, reason) + header_lines(pairs);
    let head = response_head(code, reason, headers);
    let texts = head_texts(code, reason, pairs);
    lemma_head_texts(code, reason, pairs);
    lemma_end_of_head(written);
    assert(head =~= written + crlf());
    law_head_stays(head, body);
    let all = texts.push(Seq::empty());
    lemma_text_of_push(texts, Seq::empty());
    assert(text_of(all) =~= head);
    assert forall|i: int| 0 <= i < all.len() implies unbroken(#[trigger] all[i]) by {
        if i < texts.len() {
            assert(all[i] == texts[i]);
        }
    }
    lemma_count_lines(all);
}

/// A response reads back: its status code, its headers in their order, and its body, where no value
/// of a header begins or ends with white space.
pub proof fn law_response_reads_back(
    code: u16,
    reason: Option<Seq<u8>>,
    headers: Seq<Entry>,
    body: Seq<u8>,
)
    requires
        is_printable(sent_reason(reason)),
        are_lines(lines(headers)),
        values_unpadded(lines(headers)),
    ensures
        read_response(response_head(code, reason, headers) + body) == Some(
            Reading { status: code as int, fields: lines(headers), body },
        ),
{
    let pairs = lines(headers);
    let written = status_line(code, reason) + header_lines(pairs);
    let head = response_head(code, reason, headers);
    let message = head + body;
    let texts = head_texts(code, reason, pairs);
    law_head_has_one_line_per_header(code, reason, headers, body);
    lemma_head_texts(code, reason, pairs);
    assert(message.take(head.len() - 2) =~= written);
    lemma_lines_read_back(texts);
    assert(lines_of(written) == texts);
    assert(unbroken(sent_reason(reason)));
    lemma_status_reads_back(code as nat, sent_reason(reason));
    lemma_fields_read_back(pairs);
    assert(texts.drop_first() =~= pairs.map_values(
        |p: (Seq<u8>, Seq<u8>)| field_text(p.0, p.1),
    ));
    assert(message.skip(head.len() as int) =~= body);
}

/// None of the values begins or ends with white space.
spec fn entry_unpadded(entry: Entry) -> bool {
    forall|j: int| 0 <= j < entry.1.len() ==> unpadded(#[trigger] entry.1[j])
}

/// The lines of a table have unpadded values where the values of the table are unpadded.
proof fn lemma_unpadded_entries(entries: Seq<Entry>)
    ensures
        values_unpadded(lines(entries)) == (forall|i: int|
            0 <= i < entries.len() ==> entry_unpadded(#[trigger] entries[i])),
    decreases entries.len(),
{
    if entries.len() > 0 {
        let before = entries.drop_last();
        let last = entries[entries.len() - 1];
        lemma_unpadded_entries(before);
        let own = last.1.map_values(|v: Seq<u8>| (last.0, v));
        let all = lines(entries);
        assert(all =~= lines(before) + own);
        if values_unpadded(all) {
            assert forall|i: int| 0 <= i < lines(before).len() implies unpadded(
                (#[trigger] lines(before)[i]).1,
            ) by {
                assert(all[i] == lines(before)[i]);
            }
            assert forall|j: int| 0 <= j < last.1.len() implies unpadded(#[trigger] last.1[j]) by {
                assert(all[lines(before).len() + j] == own[j]);
            }
            assert forall|i: int| 0 <= i < entries.len() implies entry_unpadded(
                #[trigger] entries[i],
            ) by {
                if i < before.len() {
                    assert(entry_unpadded(before[i]));
                }
            }
        }
        if forall|i: int| 0 <= i < entries.len() ==> entry_unpadded(#[trigger] entries[i]) {
            assert forall|i: int| 0 <= i < before.len() implies entry_unpadded(
                #[trigger] before[i],
            ) by {
                assert(entry_unpadded(entries[i]));
            }
            assert(entry_unpadded(last));
            assert forall|i: int| 0 <= i < all.len() implies unpadded((#[trigger] all[i]).1) by {
                if i < lines(before).len() {
                    assert(all[i] == lines(before)[i]);
                } else {
                    assert(all[i] == own[i - lines(before).len()]);
                }
            }
        }
    }
}

proof fn lemma_insert_unpadded(entries: Seq<Entry>, name: Seq<u8>, value: Seq<u8>)
    requires
        values_unpadded(lines(entries)),
        unpadded(value),
    ensures
        values_unpadded(lines(inserted(entries, name, value))),
{
    let after = inserted(entries, name, value);
    lemma_slot(entries, name);
    lemma_unpadded_entries(entries);
    lemma_unpadded_entries(after);
    assert(entry_unpadded((name, seq![value])));
    assert forall|i: int| 0 <= i < after.len() implies entry_unpadded(#[trigger] after[i]) by {
        if after[i] != (name, seq![value]) {
            assert(after[i] == entries[i]);
        }
    }
}

/// The server adds no value that begins or ends with white space.
proof fn lemma_sent_unpadded(headers: Seq<Entry>, body_length: nat)
    requires
        values_unpadded(lines(headers)),
    ensures
        values_unpadded(lines(sent_headers(headers, body_length))),
{
    reveal_strlit("mini-http (rust)");
    let named = inserted(headers, server_name(), server_value());
    lemma_insert_unpadded(headers, server_name(), server_value());
    law_decimal_reads_back(body_length);
    assert(unpadded(decimal(body_length)));
    lemma_insert_unpadded(named, content_length_name(), decimal(body_length));
}

impl ResponseWrapper {
    /// Wraps a response; nothing of it has been written down yet.
    pub fn new(inner: Response) -> (r: Self)
        ensures
            r@ == (ResponseView {
                status: inner.status,
                headers: header_entries(inner.headers),
                body: inner.body@,
                header_data: Seq::empty(),
            }),
            r@ == wrapped(inner),
    {
        ResponseWrapper { inner, header_data: Vec::with_capacity(1024) }
    }

    /// Whether there is room for the headers that the response goes out with.
    pub fn headers_fit(&self) -> (r: bool)
        ensures
            r == (sent_headers(self@.headers, self@.body.len()).len() <= MAX_NAMES),
    {
        let ghost entries = self@.headers;
        proof {
            lemma_literals();
            lemma_content_length_name();
            lemma_slot(entries, server_name());
            lemma_slot(entries, content_length_name());
            let named = inserted(entries, server_name(), server_value());
            lemma_slot(named, content_length_name());
            law_insert(entries, server_name(), server_value(), content_length_name());
        }
        let mut needed: usize = 0;
        if get_header(&self.inner.headers, ascii_bytes("server")).is_none() {
            needed = needed + 1;
        }
        if self.inner.body.len() > 0 && get_header(
            &self.inner.headers,
            ascii_bytes("content-length"),
        ).is_none() {
            needed = needed + 1;
        }
        count_names(&self.inner.headers) <= MAX_NAMES - needed
    }

    /// Writes down the head of the response, naming the server and giving the length of the body.
    pub fn serialize_headers(&mut self)
        requires
            sent_headers(old(self)@.headers, old(self)@.body.len()).len() <= MAX_NAMES,
        ensures
            final(self)@ == serialized(old(self)@, reason_phrase(old(self)@.status)),
            is_printable(sent_reason(reason_phrase(old(self)@.status))),
            are_lines(lines(final(self)@.headers)),
            old(self)@.header_data.len() == 0 ==> {
                let head = final(self)@.header_data;
                &&& head_length(head) == Some(head.len() as int)
                &&& head_length(final(self)@.message()) == Some(head.len() as int)
                &&& line_breaks(head, head.len() as int) == lines(final(self)@.headers).len() + 2
                &&& values_unpadded(lines(old(self)@.headers)) ==> read_response(
                    final(self)@.message(),
                ) == Some(
                    (Reading {
                        status: old(self)@.status as int,
                        fields: lines(final(self)@.headers),
                        body: old(self)@.body,
                    }),
                )
            },
    {
        let reason = canonical_reason(self.inner.status);
        proof {
            lemma_literals();
        }
        self.serialize_headers_with(reason);
    }

    /// As `serialize_headers`, with this reason phrase.
    pub fn serialize_headers_with(&mut self, reason: Option<Vec<u8>>)
        requires
            sent_headers(old(self)@.headers, old(self)@.body.len()).len() <= MAX_NAMES,
        ensures
            final(self)@ == serialized(old(self)@, phrase_view(reason)),
            are_lines(lines(final(self)@.headers)),
            old(self)@.header_data.len() == 0 && is_printable(sent_reason(phrase_view(reason)))
                ==> {
                let head = final(self)@.header_data;
                &&& head_length(head) == Some(head.len() as int)
                &&& head_length(final(self)@.message()) == Some(head.len() as int)
                &&& line_breaks(head, head.len() as int) == lines(final(self)@.headers).len() + 2
                &&& values_unpadded(lines(old(self)@.headers)) ==> read_response(
                    final(self)@.message(),
                ) == Some(
                    (Reading {
                        status: old(self)@.status as int,
                        fields: lines(final(self)@.headers),
                        body: old(self)@.body,
                    }),
                )
            },
    {
        let ghost phrase = phrase_view(reason);
        let ghost start = self.header_data@;
        let code = self.inner.status;
        let ghost entries = header_entries(self.inner.headers);
        let body_len = self.inner.body.len();
        proof {
            lemma_literals();
            lemma_content_length_name();
            lemma_slot(entries, server_name());
            lemma_slot(inserted(entries, server_name(), server_value()), content_length_name());
        }
        insert_header(
            &mut self.inner.headers,
            ascii_bytes("server"),
            ascii_bytes("mini-http (rust)"),
        );
        if body_len > 0 {
            proof {
                lemma_decimal_value_bytes(body_len as nat);
                lemma_decimal_text(body_len as nat);
            }
            let length = decimal_string(body_len);
            insert_header(
                &mut self.inner.headers,
                ascii_bytes("content-length"),
                ascii_bytes(length.as_str()),
            );
        }
        let ghost headers = header_entries(self.inner.headers);
        push_status_line(&mut self.header_data, code, reason);
        let pairs = header_pairs(&self.inner.headers);
        let ghost views = pair_views(pairs@);
        let mut i: usize = 0;
        assert(views.take(0) =~= Seq::empty());
        assert(self.header_data@ =~= start + (status_line(code, phrase) + header_lines(
            views.take(0),
        )));
        while i < pairs.len()
            invariant
                views == pair_views(pairs@),
                i <= pairs@.len(),
                header_entries(self.inner.headers) == headers,
                self.inner.status == code,
                self.inner.body@ == old(self).inner.body@,
                self.header_data@ == start + (status_line(code, phrase) + header_lines(
                    views.take(i as int),
                )),
            decreases pairs@.len() - i,
        {
            let (name, value) = (&pairs[i].0, &pairs[i].1);
            proof {
                lemma_literals();
                assert(views[i as int] == (name@, value@));
                assert(views.take(i + 1).drop_last() =~= views.take(i as int));
            }
            push_all(&mut self.header_data, name.as_slice());
            push_all(&mut self.header_data, ascii_bytes(": "));
            push_all(&mut self.header_data, value.as_slice());
            push_all(&mut self.header_data, ascii_bytes("\r\n"));
            assert(self.header_data@ =~= start + (status_line(code, phrase) + header_lines(
                views.take(i + 1),
            )));
            i += 1;
        }
        assert(views.take(i as int) =~= views);
        push_all(&mut self.header_data, ascii_bytes("\r\n"));
        proof {
            lemma_literals();
            let head = response_head(code, phrase, headers);
            assert(self.header_data@ =~= start + head);
            if start.len() == 0 && is_printable(sent_reason(phrase)) {
                assert(start + head =~= head);
                law_head_has_one_line_per_header(code, phrase, headers, self.inner.body@);
                if values_unpadded(lines(entries)) {
                    lemma_sent_unpadded(entries, body_len as nat);
                    law_response_reads_back(code, phrase, headers, self.inner.body@);
                }
            }
        }
    }

    /// The answer to a request that is refused. No head is written down for it: the words "bad
    /// request" are all that goes back.
    pub fn bad_request() -> (r: Self)
        ensures
            r@ == bad_request_view(),
            r@.message() == ascii("bad request"@),
    {
        proof {
            lemma_literals();
        }
        let mut body: Vec<u8> = Vec::new();
        push_all(&mut body, ascii_bytes("bad request"));
        assert(body@ =~= ascii("bad request"@));
        let response = ResponseWrapper::new(
            Response { status: 400, headers: new_headers(), body },
        );
        assert(response@.message() =~= ascii("bad request"@));
        response
    }

    /// What has been written down of the head.
    pub fn header_data(&self) -> (r: &[u8])
        ensures
            r@ == self@.header_data,
    {
        self.header_data.as_slice()
    }

    /// The body.
    pub fn body(&self) -> (r: &[u8])
        ensures
            r@ == self@.body,
    {
        self.inner.body.as_slice()
    }

    /// The status code.
    pub fn status(&self) -> (r: u16)
        ensures
            r == self@.status,
    {
        self.inner.status
    }

    /// The headers.
    pub fn headers(&self) -> (r: &Headers)
        ensures
            header_entries(*r) == self@.headers,
    {
        &self.inner.headers
    }
}

/// The lines of the head of a response: the first gives the version, the code and the phrase, and
/// each of the others a header, byte for byte as it is in the table.
pub proof fn law_head_says_what_is_in_the_table(
    code: u16,
    reason: Option<Seq<u8>>,
    headers: Seq<Entry>,
)
    requires
        is_printable(sent_reason(reason)),
        are_lines(lines(headers)),
    ensures
        ({
            let head = response_head(code, reason, headers);
            let said = lines_of(head);
            &&& said.len() == lines(headers).len() + 2
            &&& said[0] == ascii("HTTP/1.1 "@) + decimal(code as nat) + ascii(" "@) + match reason {
                Some(phrase) => phrase,
                None => ascii("Unsupported Status"@),
            }
            &&& forall|i: int|
                0 <= i < lines(headers).len() ==> said[i + 1] == (#[trigger] lines(headers)[i]).0
                    + ascii(": "@) + lines(headers)[i].1
            &&& said.last() == Seq::<u8>::empty()
            &&& text_of(said) == head
        }),
{
    let pairs = lines(headers);
    let texts = head_texts(code, reason, pairs);
    let all = texts.push(Seq::empty());
    let head = response_head(code, reason, headers);
    lemma_head_texts(code, reason, pairs);
    lemma_text_of_push(texts, Seq::empty());
    assert(text_of(all) =~= head);
    assert forall|i: int| 0 <= i < all.len() implies unbroken(#[trigger] all[i]) by {
        if i < texts.len() {
            assert(all[i] == texts[i]);
        }
    }
    lemma_lines_read_back(all);
    assert forall|i: int| 0 <= i < pairs.len() implies all[i + 1] == (#[trigger] pairs[i]).0
        + ascii(": "@) + pairs[i].1 by {
        assert(all[i + 1] == texts[i + 1]);
    }
}

/// What a client gets for the response of a handler, whatever it is: its status, its body, the
/// handler's values under each name but two, the name of the server under `server`, and under
/// `content-length` the length of the body if it has one, and else what the handler put there.
pub proof fn law_client_gets_the_handlers_response(inner: Response, reason: Option<Seq<u8>>)
    requires
        is_printable(sent_reason(reason)),
        distinct_names(header_entries(inner.headers)),
        values_unpadded(lines(header_entries(inner.headers))),
        are_lines(lines(serialized(wrapped(inner), reason).headers)),
    ensures
        read_response(serialized(wrapped(inner), reason).message()) matches Some(got) && {
            let given = header_entries(inner.headers);
            &&& got.status == inner.status
            &&& got.body == inner.body@
            &&& paired_values(got.fields, ascii("server"@)) == seq![ascii("mini-http (rust)"@)]
            &&& paired_values(got.fields, ascii("content-length"@)) == if inner.body@.len() > 0 {
                seq![decimal(inner.body@.len())]
            } else {
                values(given, ascii("content-length"@))
            }
            &&& forall|name: Seq<u8>|
                name != ascii("server"@) && name != ascii("content-length"@) ==> #[trigger]
                paired_values(got.fields, name) == values(given, name)
        },
{
    let given = header_entries(inner.headers);
    let length = inner.body@.len();
    let out = serialized(wrapped(inner), reason);
    let named = inserted(given, server_name(), server_value());
    lemma_literals();
    lemma_sent_unpadded(given, length);
    assert(out.message() =~= response_head(inner.status, reason, out.headers) + inner.body@);
    law_response_reads_back(inner.status, reason, out.headers, inner.body@);
    lemma_insert_distinct(given, server_name(), server_value());
    lemma_insert_distinct(named, content_length_name(), decimal(length));
    law_lines_carry_the_table(out.headers, server_name());
    law_lines_carry_the_table(out.headers, content_length_name());
    law_server_is_named(given, length);
    law_insert(given, server_name(), server_value(), content_length_name());
    law_insert(named, content_length_name(), decimal(length), content_length_name());
    assert forall|name: Seq<u8>|
        name != ascii("server"@) && name != ascii("content-length"@) implies #[trigger] paired_values(
        lines(out.headers),
        name,
    ) == values(given, name) by {
        law_lines_carry_the_table(out.headers, name);
        law_other_headers_are_kept(given, length, name);
    }
}

proof fn lemma_insert_distinct(entries: Seq<Entry>, name: Seq<u8>, value: Seq<u8>)
    requires
        distinct_names(entries),
    ensures
        distinct_names(inserted(entries, name, value)),
{
    let after = inserted(entries, name, value);
    lemma_slot(entries, name);
    assert forall|i: int, j: int| 0 <= i < j < after.len() implies (#[trigger] after[i]).0 != (
    #[trigger] after[j]).0 by {
        if j < entries.len() {
            assert(entries[i].0 != entries[j].0);
        } else {
            assert(entries[i].0 != name);
        }
    }
}

/// The headers of a handler stand in front, in the order in which they were, and no more than two
/// are added behind them.
pub proof fn law_headers_keep_their_places(headers: Seq<Entry>, body_length: nat, i: int)
    requires
        0 <= i < headers.len(),
    ensures
        headers.len() <= sent_headers(headers, body_length).len() <= headers.len() + 2,
        sent_headers(headers, body_length)[i].0 == headers[i].0,
{
    let named = inserted(headers, server_name(), server_value());
    lemma_slot(headers, server_name());
    lemma_slot(named, content_length_name());
    assert(named[i].0 == headers[i].0);
}

/// Every response names the server, and as this one alone.
pub proof fn law_server_is_named(headers: Seq<Entry>, body_length: nat)
    ensures
        values(sent_headers(headers, body_length), server_name()) == seq![server_value()],
{
    lemma_literals();
    let named = inserted(headers, server_name(), server_value());
    law_insert(headers, server_name(), server_value(), server_name());
    law_insert(named, content_length_name(), decimal(body_length), server_name());
}

/// The length that a response with a body gives is, to a reader of it, the length of the body.
pub proof fn law_length_reads_back(headers: Seq<Entry>, body_length: nat)
    requires
        0 < body_length <= usize::MAX,
    ensures
        declared_length(sent_headers(headers, body_length)) == body_length,
{
    let named = inserted(headers, server_name(), server_value());
    law_insert(named, content_length_name(), decimal(body_length), content_length_name());
    law_decimal_reads_back(body_length);
}

/// All other headers go out as the handler set them.
pub proof fn law_other_headers_are_kept(headers: Seq<Entry>, body_length: nat, name: Seq<u8>)
    requires
        name != server_name(),
        name != content_length_name(),
    ensures
        values(sent_headers(headers, body_length), name) == values(headers, name),
{
    let named = inserted(headers, server_name(), server_value());
    law_insert(headers, server_name(), server_value(), name);
    law_insert(named, content_length_name(), decimal(body_length), name);
}

} // verus!
