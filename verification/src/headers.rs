//! Header tables: what an `http::HeaderMap` holds, and the operations on it that the server uses.
use vstd::prelude::*;

use crate::text::COLON;
use crate::text::lower_all;
use crate::text::unbroken;

verus! {

/// The header table of the `http` crate.
#[verifier::external_type_specification]
#[verifier::external_body]
#[verifier::reject_recursive_types(T)]
pub struct ExHeaderMap<T>(http::header::HeaderMap<T>);

/// A header value of the `http` crate.
#[verifier::external_type_specification]
#[verifier::external_body]
pub struct ExHeaderValue(http::header::HeaderValue);

/// A header table.
pub type Headers = http::header::HeaderMap<http::header::HeaderValue>;

/// One header name, with the values that stand under it, oldest first.
pub type Entry = (Seq<u8>, Seq<Seq<u8>>);

/// What a header table holds: its names in the order in which it lists them, each with its values.
pub uninterp spec fn header_entries(
    map: http::header::HeaderMap<http::header::HeaderValue>,
) -> Seq<(Seq<u8>, Seq<Seq<u8>>)>;

/// How many different names a header table can hold.
pub const MAX_NAMES: usize = 32768;

/// The length that a header name has to stay under.
pub const MAX_NAME_LENGTH: usize = 65536;

/// The bytes that a header name may be spelled with.
pub open spec fn is_name_byte(b: u8) -> bool {
    ||| 0x30 <= b <= 0x39  // digits
    ||| 0x41 <= b <= 0x5a  // upper-case letters
    ||| 0x5e <= b <= 0x7a  // ^ _ ` and lower-case letters
    ||| 0x21 <= b <= 0x27  // ! " # $ % & '
    ||| b == 0x2a  // *
    ||| b == 0x2b  // +
    ||| b == 0x2d  // -
    ||| b == 0x2e  // .
    ||| b == 0x7c  // |
    ||| b == 0x7e  // ~

}

/// `s` spells a header name, in whatever case.
pub open spec fn spells_name(s: Seq<u8>) -> bool {
    &&& 0 < s.len() < MAX_NAME_LENGTH
    &&& forall|i: int| 0 <= i < s.len() ==> is_name_byte(#[trigger] s[i])
}

/// `s` is a header name as a table holds it: in lower case.
pub open spec fn is_name(s: Seq<u8>) -> bool {
    spells_name(s) && lower_all(s) == s
}

/// `s` can stand as the value of a header.
pub open spec fn is_value(s: Seq<u8>) -> bool {
    forall|i: int| 0 <= i < s.len() ==> (#[trigger] s[i] >= 0x20 && s[i] != 0x7f || s[i] == 0x09)
}

/// Where `name` stands among `entries`.
pub open spec fn slot(entries: Seq<Entry>, name: Seq<u8>) -> Option<int>
    decreases entries.len(),
{
    if entries.len() == 0 {
        None
    } else if slot(entries.drop_last(), name) is Some {
        slot(entries.drop_last(), name)
    } else if entries.last().0 == name {
        Some(entries.len() - 1)
    } else {
        None
    }
}

/// A slot is where the name stands, and a name without a slot stands nowhere.
pub proof fn lemma_slot(entries: Seq<Entry>, name: Seq<u8>)
    ensures
        slot(entries, name) matches Some(i) ==> 0 <= i < entries.len() && entries[i].0 == name,
        slot(entries, name) is None ==> forall|i: int|
            0 <= i < entries.len() ==> #[trigger] entries[i].0 != name,
    decreases entries.len(),
{
    if entries.len() > 0 {
        lemma_slot(entries.drop_last(), name);
        if slot(entries, name) is None {
            assert forall|i: int| 0 <= i < entries.len() implies #[trigger] entries[i].0 != name by {
                if i < entries.len() - 1 {
                    assert(entries.drop_last()[i].0 != name);
                }
            }
        }
    }
}

/// Slots are a matter of the names alone.
proof fn lemma_same_slots(a: Seq<Entry>, b: Seq<Entry>, name: Seq<u8>)
    requires
        a.len() == b.len(),
        forall|i: int| 0 <= i < a.len() ==> #[trigger] a[i].0 == b[i].0,
    ensures
        slot(a, name) == slot(b, name),
    decreases a.len(),
{
    if a.len() > 0 {
        assert forall|i: int| 0 <= i < a.len() - 1 implies #[trigger] a.drop_last()[i].0
            == b.drop_last()[i].0 by {
            assert(a[i].0 == b[i].0);
        }
        lemma_same_slots(a.drop_last(), b.drop_last(), name);
        assert(a[a.len() - 1].0 == b[a.len() - 1].0);
    }
}

/// The oldest value under `name`.
pub open spec fn first_value(entries: Seq<Entry>, name: Seq<u8>) -> Option<Seq<u8>> {
    match slot(entries, name) {
        Some(i) => Some(entries[i].1[0]),
        None => None,
    }
}

/// All the values under `name`, oldest first.
pub open spec fn values(entries: Seq<Entry>, name: Seq<u8>) -> Seq<Seq<u8>> {
    match slot(entries, name) {
        Some(i) => entries[i].1,
        None => Seq::empty(),
    }
}

/// `entries` with `value` as the one value under `name`.
pub open spec fn inserted(entries: Seq<Entry>, name: Seq<u8>, value: Seq<u8>) -> Seq<Entry> {
    match slot(entries, name) {
        Some(i) => entries.update(i, (name, seq![value])),
        None => entries.push((name, seq![value])),
    }
}

/// `entries` with `value` behind the values that stand under `name`.
pub open spec fn appended(entries: Seq<Entry>, name: Seq<u8>, value: Seq<u8>) -> Seq<Entry> {
    match slot(entries, name) {
        Some(i) => entries.update(i, (name, entries[i].1.push(value))),
        None => entries.push((name, seq![value])),
    }
}

/// What was inserted is what stands under its name; under any other name nothing changes.
pub proof fn law_insert(entries: Seq<Entry>, name: Seq<u8>, value: Seq<u8>, other: Seq<u8>)
    ensures
        values(inserted(entries, name, value), name) == seq![value],
        first_value(inserted(entries, name, value), name) == Some(value),
        other != name ==> values(inserted(entries, name, value), other) == values(entries, other),
        other != name ==> first_value(inserted(entries, name, value), other) == first_value(
            entries,
            other,
        ),
{
    lemma_slot(entries, name);
    lemma_slot(entries, other);
    let after = inserted(entries, name, value);
    match slot(entries, name) {
        Some(i) => {
            lemma_same_slots(entries, after, name);
            lemma_same_slots(entries, after, other);
        },
        None => {
            assert(after.drop_last() =~= entries);
        },
    }
}

/// What was appended stands behind all that stood under its name before; under any other name
/// nothing changes.
pub proof fn law_append(entries: Seq<Entry>, name: Seq<u8>, value: Seq<u8>, other: Seq<u8>)
    ensures
        values(appended(entries, name, value), name) == values(entries, name).push(value),
        other != name ==> values(appended(entries, name, value), other) == values(entries, other),
{
    lemma_slot(entries, name);
    lemma_slot(entries, other);
    let after = appended(entries, name, value);
    match slot(entries, name) {
        Some(i) => {
            lemma_same_slots(entries, after, name);
            lemma_same_slots(entries, after, other);
        },
        None => {
            assert(after.drop_last() =~= entries);
            assert(Seq::<Seq<u8>>::empty().push(value) =~= seq![value]);
        },
    }
}

/// No name stands in two places.
pub open spec fn distinct_names(entries: Seq<Entry>) -> bool {
    forall|i: int, j: int|
        0 <= i < j < entries.len() ==> (#[trigger] entries[i]).0 != (#[trigger] entries[j]).0
}

/// Where names are distinct, a name's slot is the one place where it stands.
pub proof fn lemma_slot_of_distinct(entries: Seq<Entry>, i: int)
    requires
        distinct_names(entries),
        0 <= i < entries.len(),
    ensures
        slot(entries, entries[i].0) == Some(i),
        values(entries, entries[i].0) == entries[i].1,
{
    lemma_slot(entries, entries[i].0);
    let k = slot(entries, entries[i].0)->0;
    if k < i {
        assert(entries[k].0 != entries[i].0);
    } else if i < k {
        assert(entries[i].0 != entries[k].0);
    }
}

/// The values that stand behind `name` in these pairs, in their order.
pub open spec fn paired_values(pairs: Seq<(Seq<u8>, Seq<u8>)>, name: Seq<u8>) -> Seq<Seq<u8>>
    decreases pairs.len(),
{
    if pairs.len() == 0 {
        Seq::empty()
    } else if pairs.last().0 == name {
        paired_values(pairs.drop_last(), name).push(pairs.last().1)
    } else {
        paired_values(pairs.drop_last(), name)
    }
}

proof fn lemma_paired_values_add(
    a: Seq<(Seq<u8>, Seq<u8>)>,
    b: Seq<(Seq<u8>, Seq<u8>)>,
    name: Seq<u8>,
)
    ensures
        paired_values(a + b, name) == paired_values(a, name) + paired_values(b, name),
    decreases b.len(),
{
    if b.len() == 0 {
        assert(a + b =~= a);
        assert(paired_values(a, name) + paired_values(b, name) =~= paired_values(a, name));
    } else {
        assert((a + b).drop_last() =~= a + b.drop_last());
        assert((a + b).last() == b.last());
        lemma_paired_values_add(a, b.drop_last(), name);
        assert(paired_values(a + b, name) =~= paired_values(a, name) + paired_values(b, name));
    }
}

proof fn lemma_paired_values_of_one(key: Seq<u8>, vs: Seq<Seq<u8>>, name: Seq<u8>)
    ensures
        paired_values(vs.map_values(|v: Seq<u8>| (key, v)), name) == if key == name {
            vs
        } else {
            Seq::empty()
        },
    decreases vs.len(),
{
    let pairs = vs.map_values(|v: Seq<u8>| (key, v));
    if vs.len() > 0 {
        lemma_paired_values_of_one(key, vs.drop_last(), name);
        assert(pairs.drop_last() =~= vs.drop_last().map_values(|v: Seq<u8>| (key, v)));
        assert(pairs.last() == (key, vs.last()));
        assert(vs.drop_last().push(vs.last()) =~= vs);
    } else {
        assert(vs =~= Seq::empty());
    }
}

/// The header lines of a table carry, under each name, the values that stand under it, all of them
/// and in their order, and under no other name any.
pub proof fn law_lines_carry_the_table(entries: Seq<Entry>, name: Seq<u8>)
    requires
        distinct_names(entries),
    ensures
        paired_values(lines(entries), name) == values(entries, name),
    decreases entries.len(),
{
    if entries.len() > 0 {
        let before = entries.drop_last();
        let last = entries[entries.len() - 1];
        assert forall|i: int, j: int| 0 <= i < j < before.len() implies (#[trigger] before[i]).0
            != (#[trigger] before[j]).0 by {
            assert(before[i] == entries[i] && before[j] == entries[j]);
        }
        law_lines_carry_the_table(before, name);
        lemma_paired_values_add(
            lines(before),
            last.1.map_values(|v: Seq<u8>| (last.0, v)),
            name,
        );
        lemma_paired_values_of_one(last.0, last.1, name);
        assert(entries.last() == last);
        lemma_slot(before, name);
        if last.0 == name {
            lemma_slot_of_distinct(entries, entries.len() - 1);
            if slot(before, name) is Some {
                let k = slot(before, name)->0;
                assert(entries[k] == before[k]);
            }
            assert(paired_values(lines(entries), name) =~= last.1);
        } else {
            assert(slot(entries, name) == slot(before, name));
            assert(paired_values(lines(entries), name) =~= values(before, name));
        }
    }
}

/// The name and value of every header line that `entries` gives, in order.
pub open spec fn lines(entries: Seq<Entry>) -> Seq<(Seq<u8>, Seq<u8>)>
    decreases entries.len(),
{
    if entries.len() == 0 {
        Seq::empty()
    } else {
        lines(entries.drop_last()) + entries.last().1.map_values(
            |v: Seq<u8>| (entries.last().0, v),
        )
    }
}

/// A name and a value that make one header line: neither breaks the line, and the name ends where
/// the first colon stands.
pub open spec fn is_line(pair: (Seq<u8>, Seq<u8>)) -> bool {
    unbroken(pair.0) && unbroken(pair.1) && !pair.0.contains(COLON)
}

/// The same pairs, with their bytes.
pub open spec fn pair_views(pairs: Seq<(Vec<u8>, Vec<u8>)>) -> Seq<(Seq<u8>, Seq<u8>)> {
    pairs.map_values(|p: (Vec<u8>, Vec<u8>)| (p.0@, p.1@))
}

/// `http::HeaderMap::new`: the new table holds nothing.
#[verifier::external_body]
pub(crate) fn new_headers() -> (map: Headers)
    ensures
        header_entries(map) == Seq::<Entry>::empty(),
{
    http::header::HeaderMap::new()
}

/// `http::HeaderMap::keys_len`: the number of different names in the table.
#[verifier::external_body]
pub(crate) fn count_names(map: &Headers) -> (n: usize)
    ensures
        n == header_entries(*map).len(),
{
    map.keys_len()
}

/// `http::HeaderMap::get`: the oldest value under `name`, if any stands there.
#[verifier::external_body]
pub(crate) fn get_header(map: &Headers, name: &[u8]) -> (value: Option<Vec<u8>>)
    requires
        is_name(name@),
    ensures
        value is Some == first_value(header_entries(*map), name@) is Some,
        value matches Some(v) ==> first_value(header_entries(*map), name@) == Some(v@),
{
    let key = http::header::HeaderName::from_bytes(name).unwrap();
    map.get(key).map(|v| v.as_bytes().to_vec())
}

/// `http::HeaderMap::insert`: `value` replaces all that stands under `name`; a new name goes
/// behind the others. A table that is full takes no new name.
#[verifier::external_body]
pub(crate) fn insert_header(map: &mut Headers, name: &[u8], value: &[u8])
    requires
        is_name(name@),
        is_value(value@),
        slot(header_entries(*old(map)), name@) is Some || header_entries(*old(map)).len()
            < MAX_NAMES,
    ensures
        header_entries(*final(map)) == inserted(header_entries(*old(map)), name@, value@),
{
    let key = http::header::HeaderName::from_bytes(name).unwrap();
    map.insert(key, http::header::HeaderValue::from_bytes(value).unwrap());
}

/// `http::HeaderMap::append`: `value` goes behind what stands under `name`; a new name goes
/// behind the others. A table that is full takes no new name.
#[verifier::external_body]
pub(crate) fn append_header(map: &mut Headers, name: &[u8], value: &[u8])
    requires
        is_name(name@),
        is_value(value@),
        slot(header_entries(*old(map)), name@) is Some || header_entries(*old(map)).len()
            < MAX_NAMES,
    ensures
        header_entries(*final(map)) == appended(header_entries(*old(map)), name@, value@),
{
    let key = http::header::HeaderName::from_bytes(name).unwrap();
    map.append(key, http::header::HeaderValue::from_bytes(value).unwrap());
}

/// `http::HeaderMap::iter`: every name with each of its values, name after name in the order of the
/// table and each name's values oldest first. However a table was filled, no name and no value in
/// it holds a carriage return or a line feed, and no name a colon. That a name is in lower case and
/// of the right bytes is left unsaid: a table takes a long `&'static str` as a name without looking
/// at its bytes, and holds a zero for each that is not allowed.
#[verifier::external_body]
pub(crate) fn header_pairs(map: &Headers) -> (pairs: Vec<(Vec<u8>, Vec<u8>)>)
    ensures
        pair_views(pairs@) == lines(header_entries(*map)),
        forall|i: int| 0 <= i < pairs@.len() ==> is_line(#[trigger] pair_views(pairs@)[i]),
{
    map.iter().map(|(k, v)| (k.as_str().as_bytes().to_vec(), v.as_bytes().to_vec())).collect()
}

/// `http::header::HeaderName::from_bytes`: the header name that `name` spells, in lower case, or
/// nothing where it spells none.
#[verifier::external_body]
pub(crate) fn header_name(name: &[u8]) -> (r: Option<Vec<u8>>)
    requires
        name@.len() < MAX_NAME_LENGTH,
    ensures
        r is Some == spells_name(name@),
        r matches Some(n) ==> n@ == lower_all(name@),
{
    http::header::HeaderName::from_bytes(name).ok().map(|n| n.as_str().as_bytes().to_vec())
}

/// `http::header::HeaderValue::from_bytes`: the same bytes, or nothing where they cannot stand as
/// a header value.
#[verifier::external_body]
pub(crate) fn header_value(value: &[u8]) -> (r: Option<Vec<u8>>)
    ensures
        r is Some == is_value(value@),
        r matches Some(v) ==> v@ == value@,
{
    http::header::HeaderValue::from_bytes(value).ok().map(|v| v.as_bytes().to_vec())
}

} // verus!
