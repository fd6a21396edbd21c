//! Request heads: what the parser finds in one, and the head that is made of it.
use vstd::prelude::*;

use crate::headers::Entry;
use crate::headers::Headers;
use crate::headers::MAX_NAMES;
use crate::headers::MAX_NAME_LENGTH;
use crate::headers::append_header;
use crate::headers::appended;
use crate::headers::count_names;
use crate::headers::distinct_names;
use crate::headers::first_value;
use crate::headers::get_header;
use crate::headers::header_entries;
use crate::headers::header_name;
use crate::headers::header_value;
use crate::headers::is_name;
use crate::headers::is_value;
use crate::headers::law_append;
use crate::headers::lemma_slot;
use crate::headers::lemma_slot_of_distinct;
use crate::headers::new_headers;
use crate::headers::pair_views;
use crate::headers::slot;
use crate::headers::spells_name;
use crate::headers::values;
use crate::text::ascii;
use crate::text::ascii_bytes;
use crate::text::decimal_value;
use crate::text::lemma_digits_value_bounds;
use crate::text::lower_all;
use crate::text::parse_decimal;

verus! {

/// The parts of a request head as they stand in it.
pub struct HeadText {
    pub method: Seq<char>,
    pub path: Seq<char>,
    pub fields: Seq<(Seq<u8>, Seq<u8>)>,
}

/// The parts of a request head as they stand in it: the method, the target and the header fields,
/// each a name and a value.
pub struct ParsedHead {
    pub method: String,
    pub path: String,
    pub fields: Vec<(Vec<u8>, Vec<u8>)>,
}

impl View for ParsedHead {
    type V = HeadText;

    open spec fn view(&self) -> HeadText {
        HeadText { method: self.method@, path: self.path@, fields: pair_views(self.fields@) }
    }
}

/// What `httparse::Request::parse` makes of `bytes` with room for `capacity` header fields: the
/// parts of the head, nothing where the head is not all there, or the name of the fault.
pub uninterp spec fn httparse_request(bytes: Seq<u8>, capacity: usize) -> Result<
    Option<HeadText>,
    Seq<char>,
>;

/// What a parser run gave, as a value.
pub open spec fn parse_view(r: Result<Option<ParsedHead>, String>) -> Result<
    Option<HeadText>,
    Seq<char>,
> {
    match r {
        Ok(Some(head)) => Ok(Some(head@)),
        Ok(None) => Ok(None),
        Err(fault) => Err(fault@),
    }
}

/// `httparse::Request::parse`, on a request with room for `capacity` header fields. What it finds
/// rests on the bytes and that room alone; it is not spelled out further.
#[verifier::external_body]
pub(crate) fn parse_head(bytes: &[u8], capacity: usize) -> (r: Result<Option<ParsedHead>, String>)
    requires
        capacity <= bytes@.len(),
    ensures
        parse_view(r) == httparse_request(bytes@, capacity),
{
    let mut room = vec![httparse::EMPTY_HEADER; capacity];
    let mut request = httparse::Request::new(&mut room);
    match request.parse(bytes) {
        Ok(httparse::Status::Complete(_)) => Ok(Some(ParsedHead {
            method: request.method.unwrap().to_string(),
            path: request.path.unwrap().to_string(),
            fields: request.headers.iter().map(|h| (h.name.as_bytes().to_vec(), h.value.to_vec())).collect(),
        })),
        Ok(httparse::Status::Partial) => Ok(None),
        Err(fault) => Err(format!("{:?}", fault)),
    }
}

/// The characters that a method may be spelled with.
pub open spec fn is_method_char(c: char) -> bool {
    ||| '0' <= c <= '9'
    ||| 'A' <= c <= 'Z'
    ||| 'a' <= c <= 'z'
    ||| c == '!' || c == '*' || c == '+' || c == '-' || c == '.'
    ||| c == '^' || c == '_' || c == '`' || c == '|' || c == '~'
}

/// `s` is a method.
pub open spec fn is_method(s: Seq<char>) -> bool {
    s.len() > 0 && forall|i: int| 0 <= i < s.len() ==> is_method_char(#[trigger] s[i])
}

/// `http::Method::from_bytes`: the method that `text` is, or nothing where it is none.
#[verifier::external_body]
fn parse_method(text: &str) -> (r: Option<String>)
    ensures
        r is Some == is_method(text@),
        r matches Some(m) ==> m@ == text@,
{
    http::Method::from_bytes(text.as_bytes()).ok().map(|m| m.as_str().to_string())
}

/// The text of the `http::Uri` that `text` reads as, or nothing where it reads as none.
pub uninterp spec fn uri_text(text: Seq<char>) -> Option<Seq<char>>;

/// A string or none, as a value.
pub open spec fn string_view(s: Option<String>) -> Option<Seq<char>> {
    match s {
        Some(s) => Some(s@),
        None => None,
    }
}

/// `http::Uri` from a string, and back to one. Which strings it takes, and what it leaves out of
/// them, rests on the string alone; it is not spelled out further.
#[verifier::external_body]
fn parse_uri(text: &str) -> (r: Option<String>)
    ensures
        string_view(r) == uri_text(text@),
{
    text.parse::<http::Uri>().ok().map(|u| u.to_string())
}

/// A request without its body: what it asks for, of what, and under which headers.
pub struct RequestHead {
    method: String,
    uri: String,
    headers: Headers,
}

/// A `RequestHead` as a value.
pub struct HeadView {
    pub method: Seq<char>,
    pub uri: Seq<char>,
    pub headers: Seq<Entry>,
}

impl View for RequestHead {
    type V = HeadView;

    closed spec fn view(&self) -> HeadView {
        HeadView {
            method: self.method@,
            uri: self.uri@,
            headers: header_entries(self.headers),
        }
    }
}

/// The header table that `fields` fill, one after the other.
pub open spec fn table_of(fields: Seq<(Seq<u8>, Seq<u8>)>) -> Seq<Entry>
    decreases fields.len(),
{
    if fields.len() == 0 {
        Seq::empty()
    } else {
        appended(
            table_of(fields.drop_last()),
            lower_all(fields.last().0),
            fields.last().1,
        )
    }
}

/// A header table takes this field.
pub open spec fn field_fits(field: (Seq<u8>, Seq<u8>)) -> bool {
    spells_name(field.0) && is_value(field.1)
}

/// A header table takes all of `fields`.
pub open spec fn fields_fit(fields: Seq<(Seq<u8>, Seq<u8>)>) -> bool {
    &&& forall|i: int| 0 <= i < fields.len() ==> field_fits(#[trigger] fields[i])
    &&& table_of(fields).len() <= MAX_NAMES
}

/// The head that is made of `text`, where its parts can stand in one and its target reads as
/// `uri`.
pub open spec fn head_with_uri(text: HeadText, uri: Option<Seq<char>>) -> Option<HeadView> {
    match uri {
        Some(uri) => if is_method(text.method) && fields_fit(text.fields) {
            Some(HeadView { method: text.method, uri, headers: table_of(text.fields) })
        } else {
            None
        },
        None => None,
    }
}

/// The head that is made of `text`, where its parts can stand in one.
pub open spec fn built_head(text: HeadText) -> Option<HeadView> {
    head_with_uri(text, uri_text(text.path))
}

/// The name of the header that gives the length of the body.
pub open spec fn content_length_name() -> Seq<u8> {
    ascii("content-length"@)
}

/// The length of the body that a message with these headers says it has: none where it says
/// nothing, or nothing that is the numeral of a length.
pub open spec fn declared_length(headers: Seq<Entry>) -> nat {
    match first_value(headers, content_length_name()) {
        Some(v) => match decimal_value(v) {
            Some(n) => if 0 <= n <= usize::MAX {
                n as nat
            } else {
                0
            },
            None => 0,
        },
        None => 0,
    }
}

proof fn lemma_appended_len(entries: Seq<Entry>, name: Seq<u8>, value: Seq<u8>)
    ensures
        entries.len() <= appended(entries, name, value).len(),
        slot(entries, name) is None ==> appended(entries, name, value).len() == entries.len() + 1,
        slot(entries, name) is Some ==> appended(entries, name, value).len() == entries.len(),
{
    lemma_slot(entries, name);
}

proof fn lemma_table_grows(fields: Seq<(Seq<u8>, Seq<u8>)>, k: int)
    requires
        0 <= k <= fields.len(),
    ensures
        table_of(fields.take(k)).len() <= table_of(fields).len(),
    decreases fields.len(),
{
    if k == fields.len() {
        assert(fields.take(k) =~= fields);
    } else {
        lemma_table_grows(fields.drop_last(), k);
        assert(fields.drop_last().take(k) =~= fields.take(k));
        lemma_appended_len(
            table_of(fields.drop_last()),
            lower_all(fields.last().0),
            fields.last().1,
        );
    }
}

/// The values of the fields whose names spell `name`, in whatever case, in the order of the fields.
pub open spec fn field_values(fields: Seq<(Seq<u8>, Seq<u8>)>, name: Seq<u8>) -> Seq<Seq<u8>>
    decreases fields.len(),
{
    if fields.len() == 0 {
        Seq::empty()
    } else if lower_all(fields.last().0) == lower_all(name) {
        field_values(fields.drop_last(), name).push(fields.last().1)
    } else {
        field_values(fields.drop_last(), name)
    }
}

/// Under every name of a request stand the values of the fields that spell it, byte for byte, all
/// of them and in their order, and nothing stands under a name that no field spells.
pub proof fn law_headers_are_as_sent(fields: Seq<(Seq<u8>, Seq<u8>)>, name: Seq<u8>)
    ensures
        values(table_of(fields), lower_all(name)) == field_values(fields, name),
        first_value(table_of(fields), lower_all(name)) == if field_values(fields, name).len() == 0 {
            None
        } else {
            Some(field_values(fields, name)[0])
        },
    decreases fields.len(),
{
    if fields.len() > 0 {
        let before = fields.drop_last();
        let (key, value) = fields.last();
        law_headers_are_as_sent(before, name);
        law_append(table_of(before), lower_all(key), value, lower_all(name));
    }
    lemma_slot(table_of(fields), lower_all(name));
    law_each_name_stands_once(fields);
    if slot(table_of(fields), lower_all(name)) is Some {
        let i = slot(table_of(fields), lower_all(name))->0;
        assert(table_of(fields)[i].1.len() > 0);
    }
}

/// A request has each of its names once, in lower case and with a value. As many names stand in it
/// as are spelled differently up to case.
pub proof fn law_each_name_stands_once(fields: Seq<(Seq<u8>, Seq<u8>)>)
    ensures
        distinct_names(table_of(fields)),
        forall|i: int|
            0 <= i < table_of(fields).len() ==> {
                let entry = #[trigger] table_of(fields)[i];
                entry.1.len() > 0 && lower_all(entry.0) == entry.0
            },
        table_of(fields).map_values(|e: Entry| e.0).to_set() == fields.map_values(
            |f: (Seq<u8>, Seq<u8>)| lower_all(f.0),
        ).to_set(),
        table_of(fields).len() == fields.map_values(
            |f: (Seq<u8>, Seq<u8>)| lower_all(f.0),
        ).to_set().len(),
    decreases fields.len(),
{
    let table = table_of(fields);
    let names = table.map_values(|e: Entry| e.0);
    let spelled = fields.map_values(|f: (Seq<u8>, Seq<u8>)| lower_all(f.0));
    if fields.len() > 0 {
        let before = fields.drop_last();
        let old = table_of(before);
        let (key, value) = fields.last();
        let name = lower_all(key);
        law_each_name_stands_once(before);
        lemma_slot(old, name);
        assert(lower_all(name) =~= name);
        let old_names = old.map_values(|e: Entry| e.0);
        let old_spelled = before.map_values(|f: (Seq<u8>, Seq<u8>)| lower_all(f.0));
        assert(spelled =~= old_spelled.push(name));
        assert forall|i: int, j: int| 0 <= i < j < table.len() implies (#[trigger] table[i]).0 != (
        #[trigger] table[j]).0 by {
            if j < old.len() {
                assert(old[i].0 != old[j].0);
                assert(table[i].0 == old[i].0);
                assert(table[j].0 == old[j].0);
            } else {
                assert(old[i].0 != name);
            }
        }
        assert forall|i: int| 0 <= i < table.len() implies ({
            let entry = #[trigger] table[i];
            entry.1.len() > 0 && lower_all(entry.0) == entry.0
        }) by {
            if i < old.len() {
                assert(old[i].1.len() > 0);
            }
        }
        assert forall|n: Seq<u8>| names.to_set().contains(n) == spelled.to_set().contains(n) by {
            assert(old_names.to_set().contains(n) == old_spelled.to_set().contains(n));
            if old_names.contains(n) {
                let i = choose|i: int| 0 <= i < old_names.len() && old_names[i] == n;
                assert(old[i].0 == n);
                assert(names[i] == n);
            }
            if old_spelled.contains(n) {
                let i = choose|i: int| 0 <= i < old_spelled.len() && old_spelled[i] == n;
                assert(spelled[i] == n);
            }
            if names.contains(n) {
                let i = choose|i: int| 0 <= i < names.len() && names[i] == n;
                if i < old.len() {
                    assert(old_names[i] == n);
                }
            }
            if spelled.contains(n) {
                let i = choose|i: int| 0 <= i < spelled.len() && spelled[i] == n;
                if i < old_spelled.len() {
                    assert(old_spelled[i] == n);
                }
            }
            assert(spelled[old_spelled.len() as int] == name);
            match slot(old, name) {
                Some(i) => assert(names[i] == name),
                None => assert(names[old.len() as int] == name),
            }
        }
    }
    assert(names.to_set() =~= spelled.to_set());
    assert(names.no_duplicates()) by {
        assert forall|i: int, j: int|
            0 <= i < names.len() && 0 <= j < names.len() && i != j implies names[i] != names[j] by {
            if i < j {
                assert(table[i].0 != table[j].0);
            } else {
                assert(table[j].0 != table[i].0);
            }
        }
    }
    names.unique_seq_to_set();
}

/// A name stands where it first came up: what comes later goes behind the names that are there.
pub proof fn law_new_names_go_behind(
    fields: Seq<(Seq<u8>, Seq<u8>)>,
    field: (Seq<u8>, Seq<u8>),
    i: int,
)
    requires
        0 <= i < table_of(fields).len(),
    ensures
        i < table_of(fields.push(field)).len(),
        table_of(fields.push(field))[i].0 == table_of(fields)[i].0,
{
    assert(fields.push(field).drop_last() =~= fields);
    lemma_slot(table_of(fields), lower_all(field.0));
}

/// The entries of a request, one by one: each holds the values of the fields that spell its name.
pub proof fn law_entries_are_as_sent(fields: Seq<(Seq<u8>, Seq<u8>)>, i: int)
    requires
        0 <= i < table_of(fields).len(),
    ensures
        table_of(fields)[i].1 == field_values(fields, table_of(fields)[i].0),
{
    law_each_name_stands_once(fields);
    lemma_slot_of_distinct(table_of(fields), i);
    law_headers_are_as_sent(fields, table_of(fields)[i].0);
}

/// A request has a body as long as the first of its fields named `Content-Length`, in whatever
/// case, says in decimal digits, and none where there is no such field or it says no length.
pub proof fn law_length_is_the_one_sent(fields: Seq<(Seq<u8>, Seq<u8>)>)
    ensures
        ({
            let sent = field_values(fields, ascii("Content-Length"@));
            let length = declared_length(table_of(fields));
            &&& sent.len() == 0 ==> length == 0
            &&& sent.len() > 0 ==> match decimal_value(sent[0]) {
                Some(n) => length == if n <= usize::MAX {
                    n
                } else {
                    0
                },
                None => length == 0,
            }
        }),
{
    reveal_strlit("Content-Length");
    reveal_strlit("content-length");
    assert(lower_all(ascii("Content-Length"@)) =~= content_length_name());
    law_headers_are_as_sent(fields, ascii("Content-Length"@));
    let sent = field_values(fields, ascii("Content-Length"@));
    if sent.len() > 0 && decimal_value(sent[0]) is Some {
        lemma_digits_value_bounds(sent[0], sent[0].len() as int);
        assert(sent[0].take(sent[0].len() as int) =~= sent[0]);
    }
}

/// A head is made of what was sent: it has the method and the headers as they were, and the target
/// as it reads. There is one where, and only where, the method is one, the target reads as one,
/// each header can be one, and there are not too many.
pub proof fn law_head_is_as_sent(text: HeadText, uri: Option<Seq<char>>)
    ensures
        head_with_uri(text, uri) is Some <==> {
            &&& table_of(text.fields).len() <= 32768
            &&& is_method(text.method)
            &&& uri is Some
            &&& forall|i: int|
                0 <= i < text.fields.len() ==> spells_name((#[trigger] text.fields[i]).0)
                    && is_value(text.fields[i].1)
        },
        head_with_uri(text, uri) matches Some(head) ==> {
            &&& head.method == text.method
            &&& Some(head.uri) == uri
            &&& head.headers == table_of(text.fields)
        },
{
    let fields = text.fields;
    if forall|i: int| 0 <= i < fields.len() ==> field_fits(#[trigger] fields[i]) {
        assert forall|i: int| 0 <= i < fields.len() implies spells_name((#[trigger] fields[i]).0)
            && is_value(fields[i].1) by {
            assert(field_fits(fields[i]));
        }
    } else {
        let i = choose|i: int| 0 <= i < fields.len() && !field_fits(#[trigger] fields[i]);
        assert(!(spells_name(fields[i].0) && is_value(fields[i].1)));
    }
}

proof fn lemma_lower_name(s: Seq<u8>)
    requires
        spells_name(s),
    ensures
        is_name(lower_all(s)),
{
    assert(lower_all(lower_all(s)) =~= lower_all(s));
}

/// The header table that `fields` fill, or nothing where one of them, or all of them together,
/// cannot stand in a table.
pub fn build_headers(fields: &Vec<(Vec<u8>, Vec<u8>)>) -> (r: Option<Headers>)
    ensures
        r is Some == fields_fit(pair_views(fields@)),
        r matches Some(map) ==> header_entries(map) == table_of(pair_views(fields@)),
{
    let ghost all = pair_views(fields@);
    let mut map = new_headers();
    let mut i: usize = 0;
    assert(all.take(0) =~= Seq::empty());
    while i < fields.len()
        invariant
            all == pair_views(fields@),
            i <= fields@.len(),
            forall|j: int| 0 <= j < i ==> field_fits(#[trigger] all[j]),
            header_entries(map) == table_of(all.take(i as int)),
            header_entries(map).len() <= MAX_NAMES,
        decreases fields@.len() - i,
    {
        let (name, value) = (&fields[i].0, &fields[i].1);
        assert(all[i as int] == (name@, value@));
        proof {
            lemma_table_grows(all, i + 1);
        }
        if name.len() >= MAX_NAME_LENGTH {
            assert(!field_fits(all[i as int]));
            return None;
        }
        let name = match header_name(name.as_slice()) {
            Some(n) => n,
            None => {
                assert(!field_fits(all[i as int]));
                return None;
            },
        };
        let value = match header_value(value.as_slice()) {
            Some(v) => v,
            None => {
                assert(!field_fits(all[i as int]));
                return None;
            },
        };
        assert(field_fits(all[i as int]));
        assert(all.take(i + 1).drop_last() =~= all.take(i as int));
        assert(all.take(i + 1).last() == all[i as int]);
        proof {
            lemma_lower_name(all[i as int].0);
            lemma_appended_len(header_entries(map), name@, value@);
        }
        if count_names(&map) == MAX_NAMES && get_header(&map, name.as_slice()).is_none() {
            return None;
        }
        append_header(&mut map, name.as_slice(), value.as_slice());
        i += 1;
    }
    assert(all.take(i as int) =~= all);
    Some(map)
}

impl ParsedHead {
    /// The head that is made of these parts, or nothing where one of them cannot stand in a head.
    pub fn build(&self) -> (r: Option<RequestHead>)
        ensures
            r is Some == built_head(self@) is Some,
            r matches Some(head) ==> built_head(self@) == Some(head@),
    {
        self.build_with_uri(parse_uri(self.path.as_str()))
    }

    /// As `build`, where the target reads as `uri`.
    pub fn build_with_uri(&self, uri: Option<String>) -> (r: Option<RequestHead>)
        ensures
            r is Some == head_with_uri(self@, string_view(uri)) is Some,
            r matches Some(head) ==> head_with_uri(self@, string_view(uri)) == Some(head@),
    {
        match (parse_method(self.method.as_str()), uri, build_headers(&self.fields)) {
            (Some(method), Some(uri), Some(headers)) => Some(RequestHead { method, uri, headers }),
            _ => None,
        }
    }
}

/// The length of the body that a message with these headers says it has.
pub fn content_length(headers: &Headers) -> (n: usize)
    ensures
        n == declared_length(header_entries(*headers)),
{
    proof {
        lemma_content_length_name();
    }
    match get_header(headers, ascii_bytes("content-length")) {
        Some(value) => match parse_decimal(value.as_slice()) {
            Some(n) => n,
            None => 0,
        },
        None => 0,
    }
}

/// `content-length` is a header name, and ASCII text.
pub proof fn lemma_content_length_name()
    ensures
        is_name(content_length_name()),
        vstd::string::is_ascii("content-length"),
{
    reveal_strlit("content-length");
    assert(lower_all(content_length_name()) =~= content_length_name());
}

impl RequestHead {
    /// The method, such as `GET`.
    pub fn method(&self) -> (r: &str)
        ensures
            r@ == self@.method,
    {
        self.method.as_str()
    }

    /// What the request is about.
    pub fn uri(&self) -> (r: &str)
        ensures
            r@ == self@.uri,
    {
        self.uri.as_str()
    }

    /// The version of HTTP. It is this one whatever the request says.
    pub fn version(&self) -> (r: &'static str)
        ensures
            r@ == "HTTP/1.1"@,
    {
        "HTTP/1.1"
    }

    /// The headers.
    pub fn headers(&self) -> (r: &Headers)
        ensures
            header_entries(*r) == self@.headers,
    {
        &self.headers
    }
}

} // verus!
