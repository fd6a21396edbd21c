//! How the client reads a response: what its bytes say, to anyone who knows the form of an HTTP
//! message.
use vstd::prelude::*;

use crate::headers::is_line;
use crate::response::lemma_end_of_head;
use crate::response::lemma_first_line;
use crate::response::lemma_next_line;
use crate::response::whole_lines;
use crate::text::COLON;
use crate::text::CR;
use crate::text::LF;
use crate::text::SP;
use crate::text::TAB;
use crate::text::ascii;
use crate::text::decimal;
use crate::text::decimal_value;
use crate::text::head_length;
use crate::text::law_decimal_reads_back;
use crate::text::law_head_stays;
use crate::text::lemma_line_breaks_extend;
use crate::text::line_break_at;
use crate::text::line_breaks;
use crate::text::unbroken;

verus! {

/// A line break.
pub open spec fn crlf() -> Seq<u8> {
    seq![CR, LF]
}

/// Where the first line break of `b` at or behind `p` stands.
pub open spec fn break_from(b: Seq<u8>, p: int) -> Option<int>
    decreases b.len() - p,
{
    if p + 2 > b.len() {
        None
    } else if line_break_at(b, p) {
        Some(p)
    } else {
        break_from(b, p + 1)
    }
}

/// The lines of `b`, each without the line break that ends it.
pub open spec fn lines_of(b: Seq<u8>) -> Seq<Seq<u8>>
    decreases b.len(),
{
    match break_from(b, 0) {
        Some(p) => if 0 <= p && p + 2 <= b.len() {
            seq![b.take(p)] + lines_of(b.skip(p + 2))
        } else {
            Seq::empty()
        },
        None => Seq::empty(),
    }
}

/// These lines one behind the other, each with a line break that ends it.
pub open spec fn text_of(lines: Seq<Seq<u8>>) -> Seq<u8>
    decreases lines.len(),
{
    if lines.len() == 0 {
        Seq::empty()
    } else {
        lines[0] + crlf() + text_of(lines.drop_first())
    }
}

/// White space within a line.
pub open spec fn is_blank(b: u8) -> bool {
    b == SP || b == TAB
}

/// `s` neither begins nor ends with white space.
pub open spec fn unpadded(s: Seq<u8>) -> bool {
    s.len() > 0 ==> !is_blank(s[0]) && !is_blank(s.last())
}

/// `s` without the white space around it.
pub open spec fn trimmed(s: Seq<u8>) -> Seq<u8>
    decreases s.len(),
{
    if s.len() == 0 {
        s
    } else if is_blank(s[0]) {
        trimmed(s.drop_first())
    } else if is_blank(s.last()) {
        trimmed(s.drop_last())
    } else {
        s
    }
}

/// The status code that a status line gives.
pub open spec fn read_status(line: Seq<u8>) -> Option<int> {
    let version = ascii("HTTP/1.1 "@);
    if version.is_prefix_of(line) {
        let rest = line.skip(version.len() as int);
        match rest.index_of_first(SP) {
            Some(p) => decimal_value(rest.take(p)),
            None => None,
        }
    } else {
        None
    }
}

/// The name and the value that a header line gives.
pub open spec fn read_field(line: Seq<u8>) -> Option<(Seq<u8>, Seq<u8>)> {
    match line.index_of_first(COLON) {
        Some(p) => Some((line.take(p), trimmed(line.skip(p + 1)))),
        None => None,
    }
}

/// The names and values that header lines give.
pub open spec fn read_fields(lines: Seq<Seq<u8>>) -> Option<Seq<(Seq<u8>, Seq<u8>)>>
    decreases lines.len(),
{
    if lines.len() == 0 {
        Some(Seq::empty())
    } else {
        match (read_fields(lines.drop_last()), read_field(lines.last())) {
            (Some(fields), Some(field)) => Some(fields.push(field)),
            _ => None,
        }
    }
}

/// What a response says.
pub struct Reading {
    pub status: int,
    pub fields: Seq<(Seq<u8>, Seq<u8>)>,
    pub body: Seq<u8>,
}

/// What the bytes of a response say: the first line its status code, the other lines up to the
/// first blank one its headers, and what stands behind that one its body.
pub open spec fn read_response(message: Seq<u8>) -> Option<Reading> {
    match head_length(message) {
        Some(n) => {
            let lines = lines_of(message.take(n - 2));
            if lines.len() == 0 {
                None
            } else {
                match (read_status(lines[0]), read_fields(lines.drop_first())) {
                    (Some(status), Some(fields)) => Some(
                        Reading { status, fields, body: message.skip(n) },
                    ),
                    _ => None,
                }
            }
        },
        None => None,
    }
}

proof fn lemma_first_break(line: Seq<u8>, rest: Seq<u8>, p: int)
    requires
        unbroken(line),
        0 <= p <= line.len(),
    ensures
        break_from(line + crlf() + rest, p) == Some(line.len() as int),
    decreases line.len() - p,
{
    let b = line + crlf() + rest;
    if p < line.len() {
        assert(b[p] == line[p]);
        lemma_first_break(line, rest, p + 1);
    } else {
        assert(line_break_at(b, p));
    }
}

/// Lines without line breaks read back from their text.
pub proof fn lemma_lines_read_back(lines: Seq<Seq<u8>>)
    requires
        forall|i: int| 0 <= i < lines.len() ==> unbroken(#[trigger] lines[i]),
    ensures
        lines_of(text_of(lines)) == lines,
    decreases lines.len(),
{
    let b = text_of(lines);
    if lines.len() > 0 {
        let rest = lines.drop_first();
        lemma_first_break(lines[0], text_of(rest), 0);
        assert forall|i: int| 0 <= i < rest.len() implies unbroken(#[trigger] rest[i]) by {
            assert(rest[i] == lines[i + 1]);
        }
        lemma_lines_read_back(rest);
        assert(b.take(lines[0].len() as int) =~= lines[0]);
        assert(b.skip(lines[0].len() as int + 2) =~= text_of(rest));
        assert(seq![lines[0]] + rest =~= lines);
    } else {
        assert(lines_of(b) =~= lines);
    }
}

/// The last line of a text stands at its end.
pub proof fn lemma_text_of_push(lines: Seq<Seq<u8>>, line: Seq<u8>)
    ensures
        text_of(lines.push(line)) == text_of(lines) + line + crlf(),
    decreases lines.len(),
{
    let more = lines.push(line);
    if lines.len() == 0 {
        assert(more.drop_first() =~= Seq::empty());
        assert(text_of(more.drop_first()) =~= Seq::empty());
        assert(text_of(more) =~= text_of(lines) + line + crlf());
    } else {
        lemma_text_of_push(lines.drop_first(), line);
        assert(more.drop_first() =~= lines.drop_first().push(line));
        assert(text_of(more) =~= text_of(lines) + line + crlf());
    }
}

/// Where no carriage return stands, no line break is counted.
proof fn lemma_no_breaks_between(b: Seq<u8>, from: int, to: int)
    requires
        0 <= from <= to <= b.len(),
        forall|i: int| from <= i < to ==> #[trigger] b[i] != CR,
    ensures
        line_breaks(b, to) == line_breaks(b, from),
    decreases to - from,
{
    if from < to {
        lemma_no_breaks_between(b, from, to - 1);
        assert(b[to - 1] != CR);
    }
}

/// Each line of a text has one line break.
pub proof fn lemma_count_lines(lines: Seq<Seq<u8>>)
    requires
        forall|i: int| 0 <= i < lines.len() ==> unbroken(#[trigger] lines[i]),
    ensures
        line_breaks(text_of(lines), text_of(lines).len() as int) == lines.len(),
        lines.len() > 0 ==> text_of(lines).len() > 0 && text_of(lines).last() == LF,
    decreases lines.len(),
{
    if lines.len() > 0 {
        let before = lines.drop_last();
        let line = lines.last();
        assert(before.push(line) =~= lines);
        assert forall|i: int| 0 <= i < before.len() implies unbroken(#[trigger] before[i]) by {
            assert(before[i] == lines[i]);
        }
        assert(unbroken(lines[lines.len() - 1]));
        lemma_count_lines(before);
        lemma_text_of_push(before, line);
        let t = text_of(before);
        let b = text_of(lines);
        let n = t.len() as int;
        let end = n + line.len();
        assert(b =~= t + (line + crlf()));
        if n > 0 {
            lemma_line_breaks_extend(t, line + crlf(), n - 1);
            assert(t[n - 1] == LF);
            assert(b[n - 1] == LF);
            assert(line_breaks(t, n) == line_breaks(t, n - 1));
            assert(line_breaks(b, n) == line_breaks(b, n - 1));
        }
        assert(line_breaks(b, n) == line_breaks(t, n));
        assert forall|i: int| n <= i < end implies #[trigger] b[i] != CR by {
            assert(b[i] == line[i - n]);
        }
        lemma_no_breaks_between(b, n, end);
        assert(line_break_at(b, end));
        assert(line_breaks(b, end + 1) == line_breaks(b, end) + 1);
        assert(b[end + 1] == LF);
        assert(line_breaks(b, end + 2) == line_breaks(b, end + 1));
    }
}

/// These are lines: none of them is blank, and none holds a line break.
pub open spec fn are_full_lines(lines: Seq<Seq<u8>>) -> bool {
    forall|i: int| 0 <= i < lines.len() ==> unbroken(#[trigger] lines[i]) && lines[i].len() > 0
}

/// A head: lines and a blank one.
pub open spec fn head_of(lines: Seq<Seq<u8>>) -> Seq<u8> {
    text_of(lines) + crlf()
}

proof fn lemma_whole_lines(lines: Seq<Seq<u8>>)
    requires
        lines.len() > 0,
        are_full_lines(lines),
    ensures
        whole_lines(text_of(lines)),
    decreases lines.len(),
{
    let before = lines.drop_last();
    let line = lines[lines.len() - 1];
    assert(unbroken(line) && line.len() > 0);
    assert(before.push(line) =~= lines);
    lemma_text_of_push(before, line);
    if before.len() == 0 {
        lemma_first_line(line);
        assert(text_of(before) =~= Seq::empty());
        assert(text_of(lines) =~= line + crlf());
    } else {
        assert forall|i: int| 0 <= i < before.len() implies unbroken(#[trigger] before[i])
            && before[i].len() > 0 by {
            assert(before[i] == lines[i]);
        }
        lemma_whole_lines(before);
        lemma_next_line(text_of(before), line);
    }
}

/// Lines with a blank one behind them are the head of a message, whatever its body is, and between
/// the first of them and the blank one stand all the others, which is how many line breaks are
/// counted up to the last of them.
pub proof fn law_lines_make_a_head(lines: Seq<Seq<u8>>, body: Seq<u8>)
    requires
        lines.len() > 0,
        are_full_lines(lines),
    ensures
        head_length(head_of(lines) + body) == Some(head_of(lines).len() as int),
        line_breaks(head_of(lines) + body, head_of(lines).len() - 4) == lines.len() - 1,
        (head_of(lines) + body).take(head_of(lines).len() as int) == head_of(lines),
        (head_of(lines) + body).skip(head_of(lines).len() as int) == body,
{
    let head = head_of(lines);
    let b = head + body;
    lemma_whole_lines(lines);
    lemma_end_of_head(text_of(lines));
    law_head_stays(head, body);
    assert(b.take(head.len() as int) =~= head);
    assert(b.skip(head.len() as int) =~= body);
    let before = lines.drop_last();
    let line = lines[lines.len() - 1];
    assert(unbroken(line) && line.len() > 0);
    assert(before.push(line) =~= lines);
    lemma_text_of_push(before, line);
    assert forall|i: int| 0 <= i < before.len() implies unbroken(#[trigger] before[i]) by {
        assert(before[i] == lines[i]);
    }
    lemma_count_lines(before);
    let t = text_of(before);
    let n = t.len() as int;
    let rest = line + crlf() + crlf() + body;
    assert(b =~= t + rest);
    if n > 0 {
        lemma_line_breaks_extend(t, rest, n - 1);
        assert(before.len() > 0);
        assert(t[n - 1] == LF && b[n - 1] == LF);
        assert(line_breaks(t, n) == line_breaks(t, n - 1));
        assert(line_breaks(b, n) == line_breaks(b, n - 1));
    }
    assert forall|i: int| n <= i < n + line.len() implies #[trigger] b[i] != CR by {
        assert(b[i] == line[i - n]);
    }
    lemma_no_breaks_between(b, n, n + line.len());
}

/// A header line without its line break.
pub open spec fn field_text(name: Seq<u8>, value: Seq<u8>) -> Seq<u8> {
    name + ascii(": "@) + value
}

/// A header line reads back.
pub proof fn lemma_field_reads_back(name: Seq<u8>, value: Seq<u8>)
    requires
        is_line((name, value)),
    ensures
        unbroken(field_text(name, value)),
        unpadded(value) ==> read_field(field_text(name, value)) == Some((name, value)),
{
    reveal_strlit(": ");
    let line = field_text(name, value);
    let n = name.len() as int;
    assert(ascii(": "@) =~= seq![COLON, SP]);
    assert forall|i: int| 0 <= i < line.len() implies #[trigger] line[i] != CR && line[i] != LF by {
        if i < n {
            assert(line[i] == name[i]);
        } else if i >= n + 2 {
            assert(line[i] == value[i - n - 2]);
        }
    }
    line.index_of_first_ensures(COLON);
    assert(line[n] == COLON);
    assert(line.contains(COLON));
    let p = line.index_of_first(COLON)->0;
    if p < n {
        assert(name[p] == COLON);
    }
    assert(p == n);
    assert(line.take(n) =~= name);
    let rest = line.skip(n + 1);
    assert(rest[0] == SP);
    assert(rest.drop_first() =~= value);
    assert(trimmed(rest) == trimmed(value));
}

/// A status line reads back.
pub proof fn lemma_status_reads_back(code: nat, reason: Seq<u8>)
    requires
        unbroken(reason),
    ensures
        unbroken(ascii("HTTP/1.1 "@) + decimal(code) + ascii(" "@) + reason),
        read_status(ascii("HTTP/1.1 "@) + decimal(code) + ascii(" "@) + reason) == Some(
            code as int,
        ),
{
    reveal_strlit("HTTP/1.1 ");
    reveal_strlit(" ");
    law_decimal_reads_back(code);
    let version = ascii("HTTP/1.1 "@);
    let number = decimal(code);
    let line = version + number + ascii(" "@) + reason;
    let rest = line.skip(version.len() as int);
    assert(ascii(" "@) =~= seq![SP]);
    assert forall|i: int| 0 <= i < line.len() implies #[trigger] line[i] != CR && line[i] != LF by {
        let n = version.len() + number.len();
        if i < version.len() {
            assert(line[i] == version[i]);
        } else if i < n {
            assert(line[i] == number[i - version.len()]);
        } else if i > n {
            assert(line[i] == reason[i - n - 1]);
        }
    }
    assert(version.is_prefix_of(line)) by {
        assert(version =~= line.subrange(0, version.len() as int));
    }
    rest.index_of_first_ensures(SP);
    let n = number.len() as int;
    assert(rest[n] == SP);
    assert(rest.contains(SP));
    let p = rest.index_of_first(SP)->0;
    if p < n {
        assert(rest[p] == number[p]);
    }
    assert(p == n);
    assert(rest.take(n) =~= number);
}

} // verus!
