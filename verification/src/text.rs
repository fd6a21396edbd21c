//! Bytes and decimal numbers, as an HTTP message spells them.
use vstd::prelude::*;

verus! {

/// Carriage return.
pub const CR: u8 = 0x0d;

/// Line feed.
pub const LF: u8 = 0x0a;

/// A colon.
pub const COLON: u8 = 0x3a;

/// A blank.
pub const SP: u8 = 0x20;

/// A tab.
pub const TAB: u8 = 0x09;

/// `s` holds neither of the bytes that a line break is made of.
pub open spec fn unbroken(s: Seq<u8>) -> bool {
    forall|i: int| 0 <= i < s.len() ==> #[trigger] s[i] != CR && s[i] != LF
}

/// `b` holds a line break at `p`.
pub open spec fn line_break_at(b: Seq<u8>, p: int) -> bool {
    &&& 0 <= p
    &&& p + 2 <= b.len()
    &&& b[p] == CR
    &&& b[p + 1] == LF
}

/// `b` holds a line break at `p` and another one right behind it.
pub open spec fn blank_line_at(b: Seq<u8>, p: int) -> bool {
    line_break_at(b, p) && line_break_at(b, p + 2)
}

/// How many of the first `n` positions of `b` a line break stands at.
pub open spec fn line_breaks(b: Seq<u8>, n: int) -> nat
    decreases n,
{
    if n <= 0 {
        0
    } else {
        line_breaks(b, n - 1) + if line_break_at(b, n - 1) {
            1nat
        } else {
            0nat
        }
    }
}

/// The head of the message `b` is its first `n` bytes: they end with the first blank line.
pub open spec fn head_ends_at(b: Seq<u8>, n: int) -> bool {
    &&& blank_line_at(b, n - 4)
    &&& forall|p: int| p < n - 4 ==> !blank_line_at(b, p)
}

/// The length of the head of `b`, where `b` holds all of it.
pub open spec fn head_length(b: Seq<u8>) -> Option<int> {
    if exists|n: int| head_ends_at(b, n) {
        Some(choose|n: int| head_ends_at(b, n))
    } else {
        None
    }
}

/// The length of the head is a matter of the bytes alone.
pub proof fn lemma_head_length(b: Seq<u8>, n: int)
    requires
        head_ends_at(b, n),
    ensures
        head_length(b) == Some(n),
        4 <= n <= b.len(),
{
    let m = choose|m: int| head_ends_at(b, m);
    assert(head_ends_at(b, m));
    assert(!(m - 4 < n - 4));
    assert(!(n - 4 < m - 4));
}

/// No blank line, no head.
pub proof fn lemma_no_head(b: Seq<u8>)
    requires
        forall|p: int| !blank_line_at(b, p),
    ensures
        head_length(b) is None,
{
    assert forall|n: int| !head_ends_at(b, n) by {
        assert(!blank_line_at(b, n - 4));
    }
}

/// Counting line breaks over a prefix only looks at that prefix and the byte behind it.
pub proof fn lemma_line_breaks_extend(b: Seq<u8>, more: Seq<u8>, n: int)
    requires
        n < b.len(),
    ensures
        line_breaks(b + more, n) == line_breaks(b, n),
    decreases n,
{
    if n > 0 {
        lemma_line_breaks_extend(b, more, n - 1);
        assert(line_break_at(b + more, n - 1) == line_break_at(b, n - 1));
    }
}

/// What arrives later does not move the end of a head that is complete.
pub proof fn law_head_stays(b: Seq<u8>, more: Seq<u8>)
    requires
        head_length(b) is Some,
    ensures
        head_length(b + more) == head_length(b),
        (b + more).take(head_length(b)->0) == b.take(head_length(b)->0),
{
    let n = head_length(b)->0;
    assert(head_ends_at(b, n));
    lemma_head_length(b, n);
    let c = b + more;
    assert(blank_line_at(c, n - 4));
    assert forall|p: int| p < n - 4 implies !blank_line_at(c, p) by {
        assert(!blank_line_at(b, p));
    }
    lemma_head_length(c, n);
    assert(c.take(n) =~= b.take(n));
}

/// A head is what stands before the body and ends with the first blank line: with the first
/// carriage return, line feed, carriage return and line feed in a row. Bytes without these four
/// hold no head.
pub proof fn law_head_ends_with_the_first_blank_line(b: Seq<u8>)
    ensures
        match head_length(b) {
            Some(n) => {
                &&& 4 <= n <= b.len()
                &&& b[n - 4] == 13 && b[n - 3] == 10 && b[n - 2] == 13 && b[n - 1] == 10
                &&& forall|p: int|
                    0 <= p < n - 4 && #[trigger] b[p] == 13 ==> !(b[p + 1] == 10 && b[p + 2] == 13
                        && b[p + 3] == 10)
            },
            None => forall|p: int|
                0 <= p <= b.len() - 4 && #[trigger] b[p] == 13 ==> !(b[p + 1] == 10 && b[p + 2]
                    == 13 && b[p + 3] == 10),
        },
{
    match head_length(b) {
        Some(n) => {
            assert(head_ends_at(b, n));
            assert forall|p: int| 0 <= p < n - 4 && #[trigger] b[p] == 13 implies !(b[p + 1] == 10
                && b[p + 2] == 13 && b[p + 3] == 10) by {
                assert(!blank_line_at(b, p));
            }
        },
        None => {
            assert forall|p: int| 0 <= p <= b.len() - 4 && #[trigger] b[p] == 13 implies !(b[p + 1]
                == 10 && b[p + 2] == 13 && b[p + 3] == 10) by {
                if blank_line_at(b, p) {
                    lemma_some_head(b, p);
                }
            }
        },
    }
}

/// A blank line, wherever it stands, makes for a head.
proof fn lemma_some_head(b: Seq<u8>, p: int)
    requires
        blank_line_at(b, p),
    ensures
        head_length(b) is Some,
    decreases p,
{
    if exists|q: int| q < p && blank_line_at(b, q) {
        lemma_some_head(b, choose|q: int| q < p && blank_line_at(b, q));
    } else {
        assert(head_ends_at(b, p + 4));
    }
}

/// The bytes of an ASCII text.
pub open spec fn ascii(s: Seq<char>) -> Seq<u8> {
    s.map_values(|c: char| c as u8)
}

/// The bytes of an ASCII text.
pub fn ascii_bytes(s: &str) -> (r: &[u8])
    requires
        vstd::string::is_ascii(s),
    ensures
        r@ == ascii(s@),
{
    proof {
        vstd::string::is_ascii_spec_bytes(s);
    }
    let r = s.as_bytes();
    assert(r@ =~= ascii(s@));
    r
}

/// Writes `s` behind what `v` holds.
pub fn push_all(v: &mut Vec<u8>, s: &[u8])
    ensures
        final(v)@ == old(v)@ + s@,
{
    v.extend_from_slice(s);
    assert(v@ =~= old(v)@ + s@);
}

/// The lower-case form of an ASCII letter; any other byte is left as it is.
pub open spec fn lower(b: u8) -> u8 {
    if 0x41 <= b <= 0x5a {
        (b + 32) as u8
    } else {
        b
    }
}

/// `lower` on each byte.
pub open spec fn lower_all(s: Seq<u8>) -> Seq<u8> {
    s.map_values(|b: u8| lower(b))
}

/// Two byte strings are the same in lower case where, and only where, they are as long and differ
/// in nothing but the case of ASCII letters. Putting a string in lower case leaves no upper-case
/// letter, and nothing for a second time.
pub proof fn law_case_is_all_that_is_ignored(a: Seq<u8>, b: Seq<u8>)
    ensures
        lower_all(a) == lower_all(b) <==> a.len() == b.len() && forall|i: int|
            0 <= i < a.len() ==> {
                ||| #[trigger] a[i] == b[i]
                ||| 0x41 <= a[i] <= 0x5a && b[i] == a[i] + 32
                ||| 0x41 <= b[i] <= 0x5a && a[i] == b[i] + 32
            },
        forall|i: int| 0 <= i < a.len() ==> !(0x41 <= #[trigger] lower_all(a)[i] <= 0x5a),
        lower_all(lower_all(a)) == lower_all(a),
{
    assert(lower_all(lower_all(a)) =~= lower_all(a));
    if lower_all(a) == lower_all(b) {
        assert(lower_all(a).len() == lower_all(b).len());
        assert forall|i: int| 0 <= i < a.len() implies {
            ||| #[trigger] a[i] == b[i]
            ||| 0x41 <= a[i] <= 0x5a && b[i] == a[i] + 32
            ||| 0x41 <= b[i] <= 0x5a && a[i] == b[i] + 32
        } by {
            assert(lower_all(a)[i] == lower_all(b)[i]);
        }
    }
    if a.len() == b.len() && forall|i: int|
        0 <= i < a.len() ==> {
            ||| #[trigger] a[i] == b[i]
            ||| 0x41 <= a[i] <= 0x5a && b[i] == a[i] + 32
            ||| 0x41 <= b[i] <= 0x5a && a[i] == b[i] + 32
        } {
        assert(lower_all(a) =~= lower_all(b));
    }
}

fn to_lower(b: u8) -> (r: u8)
    ensures
        r == lower(b),
{
    if 0x41 <= b && b <= 0x5a {
        b + 32
    } else {
        b
    }
}

/// Whether two byte strings are the same up to the case of ASCII letters.
pub fn eq_ignore_ascii_case(a: &[u8], b: &[u8]) -> (r: bool)
    ensures
        r == (lower_all(a@) == lower_all(b@)),
{
    if a.len() != b.len() {
        assert(lower_all(a@).len() != lower_all(b@).len());
        return false;
    }
    let mut i: usize = 0;
    while i < a.len()
        invariant
            a@.len() == b@.len(),
            i <= a@.len(),
            forall|j: int| 0 <= j < i ==> lower(a@[j]) == lower(b@[j]),
        decreases a@.len() - i,
    {
        if to_lower(a[i]) != to_lower(b[i]) {
            assert(lower_all(a@)[i as int] != lower_all(b@)[i as int]);
            return false;
        }
        i += 1;
    }
    assert(lower_all(a@) =~= lower_all(b@));
    true
}

/// The character of the digit `d`.
pub open spec fn digit_char(d: int) -> char {
    (48 + d) as char
}

/// The decimal numeral of `n`, without leading zeros.
pub open spec fn decimal_text(n: nat) -> Seq<char>
    decreases n,
{
    if n < 10 {
        seq![digit_char(n as int)]
    } else {
        decimal_text(n / 10).push(digit_char((n % 10) as int))
    }
}

/// The bytes of the decimal numeral of `n`.
pub open spec fn decimal(n: nat) -> Seq<u8> {
    ascii(decimal_text(n))
}

/// A numeral is ASCII text.
pub proof fn lemma_decimal_text(n: nat)
    ensures
        vstd::utf8::is_ascii_chars(decimal_text(n)),
    decreases n,
{
    if n >= 10 {
        lemma_decimal_text(n / 10);
    }
}

/// `s` is decimal digits and nothing else.
pub open spec fn all_digits(s: Seq<u8>) -> bool {
    forall|i: int| 0 <= i < s.len() ==> 0x30 <= #[trigger] s[i] <= 0x39
}

/// The number that a run of decimal digits stands for.
pub open spec fn digits_value(s: Seq<u8>) -> int
    decreases s.len(),
{
    if s.len() == 0 {
        0
    } else {
        digits_value(s.drop_last()) * 10 + (s.last() - 0x30)
    }
}

/// The number that `s` spells, where it is one or more decimal digits and nothing else.
pub open spec fn decimal_value(s: Seq<u8>) -> Option<int> {
    if s.len() > 0 && all_digits(s) {
        Some(digits_value(s))
    } else {
        None
    }
}

/// A number is no smaller than what its first digits stand for.
pub proof fn lemma_digits_value_bounds(s: Seq<u8>, k: int)
    requires
        all_digits(s),
        0 <= k <= s.len(),
    ensures
        0 <= digits_value(s.take(k)) <= digits_value(s),
    decreases s.len(),
{
    if s.len() == 0 {
        assert(s.take(k) =~= s);
    } else if k == s.len() {
        assert(s.take(k) =~= s);
        lemma_digits_value_bounds(s.drop_last(), 0);
        assert(s.drop_last().take(0) =~= Seq::<u8>::empty());
        assert(0x30 <= s[s.len() - 1] <= 0x39);
    } else {
        lemma_digits_value_bounds(s.drop_last(), k);
        assert(s.drop_last().take(k) =~= s.take(k));
        assert(0x30 <= s[s.len() - 1] <= 0x39);
    }
}

/// A number reads back from its numeral.
pub proof fn law_decimal_reads_back(n: nat)
    ensures
        decimal_value(decimal(n)) == Some(n as int),
    decreases n,
{
    let s = decimal(n);
    if n < 10 {
        assert(s =~= seq![(48 + n) as u8]);
        assert(s.drop_last() =~= Seq::<u8>::empty());
        assert(digits_value(s) == digits_value(s.drop_last()) * 10 + (s.last() - 0x30));
    } else {
        let t = decimal(n / 10);
        law_decimal_reads_back(n / 10);
        assert(s =~= t.push((48 + n % 10) as u8));
        assert(s.drop_last() =~= t);
        assert forall|i: int| 0 <= i < s.len() implies 0x30 <= #[trigger] s[i] <= 0x39 by {
            if i < t.len() {
                assert(s[i] == t[i]);
            }
        }
    }
}

/// A numeral has no zero in front.
pub proof fn law_numerals_have_no_zero_in_front(n: nat)
    ensures
        decimal(n).len() > 0,
        decimal(n)[0] == 0x30 ==> n == 0 && decimal(n).len() == 1,
    decreases n,
{
    if n >= 10 {
        law_numerals_have_no_zero_in_front(n / 10);
        assert(decimal(n) =~= decimal(n / 10).push((48 + n % 10) as u8));
        assert(decimal(n)[0] == decimal(n / 10)[0]);
    } else {
        assert(decimal(n) =~= seq![(48 + n) as u8]);
    }
}

/// Digits are read by their place: a digit behind a number makes it ten times what it was and that
/// digit more. Nothing, or anything that is no digit, is no number.
pub proof fn law_digits_count_by_their_place(s: Seq<u8>, d: u8)
    ensures
        decimal_value(Seq::empty()) is None,
        0x30 <= d <= 0x39 ==> decimal_value(seq![d]) == Some(d - 0x30),
        0x30 <= d <= 0x39 ==> (decimal_value(s) matches Some(v) ==> decimal_value(s.push(d)) == Some(
            v * 10 + (d - 0x30),
        )),
        !(0x30 <= d <= 0x39) ==> decimal_value(s.push(d)) is None,
        s.len() > 0 && decimal_value(s) is None ==> decimal_value(s.push(d)) is None,
{
    let t = s.push(d);
    assert(t.drop_last() =~= s);
    assert(t[s.len() as int] == d);
    if s.len() > 0 && decimal_value(s) is None {
        let i = choose|i: int| 0 <= i < s.len() && !(0x30 <= #[trigger] s[i] <= 0x39);
        assert(t[i] == s[i]);
    }
    let one = seq![d];
    assert(one.drop_last() =~= Seq::<u8>::empty());
    assert(digits_value(one) == digits_value(one.drop_last()) * 10 + (one.last() - 0x30));
    if all_digits(s) && 0x30 <= d <= 0x39 {
        assert forall|i: int| 0 <= i < t.len() implies 0x30 <= #[trigger] t[i] <= 0x39 by {
            if i < s.len() {
                assert(t[i] == s[i]);
            }
        }
    }
}

/// The number that `s` spells, where it does so and the number fits.
pub fn parse_decimal(s: &[u8]) -> (r: Option<usize>)
    ensures
        r matches Some(n) ==> decimal_value(s@) == Some(n as int),
        r is None ==> (decimal_value(s@) matches Some(v) ==> v > usize::MAX),
{
    if s.len() == 0 {
        return None;
    }
    let mut value: usize = 0;
    let mut i: usize = 0;
    assert(s@.take(0) =~= Seq::<u8>::empty());
    while i < s.len()
        invariant
            0 < s@.len(),
            i <= s@.len(),
            all_digits(s@.take(i as int)),
            digits_value(s@.take(i as int)) == value,
        decreases s@.len() - i,
    {
        let b = s[i];
        let ghost next = s@.take(i + 1);
        assert(next.drop_last() =~= s@.take(i as int));
        assert(next.last() == b);
        if b < 0x30 || b > 0x39 {
            assert(!all_digits(s@));
            return None;
        }
        let d: usize = (b - 0x30) as usize;
        assert(all_digits(next)) by {
            assert forall|j: int| 0 <= j < next.len() implies 0x30 <= #[trigger] next[j] <= 0x39 by {
                if j < i {
                    assert(next[j] == s@.take(i as int)[j]);
                }
            }
        }
        if value > (usize::MAX - d) / 10 {
            proof {
                if all_digits(s@) {
                    lemma_digits_value_bounds(s@, i + 1);
                }
            }
            return None;
        }
        value = value * 10 + d;
        i += 1;
    }
    assert(s@.take(i as int) =~= s@);
    Some(value)
}

fn digit(d: usize) -> (r: &'static str)
    requires
        d < 10,
    ensures
        r@ == seq![digit_char(d as int)],
{
    proof {
        reveal_strlit("0");
        reveal_strlit("1");
        reveal_strlit("2");
        reveal_strlit("3");
        reveal_strlit("4");
        reveal_strlit("5");
        reveal_strlit("6");
        reveal_strlit("7");
        reveal_strlit("8");
        reveal_strlit("9");
    }
    match d {
        0 => "0",
        1 => "1",
        2 => "2",
        3 => "3",
        4 => "4",
        5 => "5",
        6 => "6",
        7 => "7",
        8 => "8",
        _ => "9",
    }
}

/// The decimal numeral of `n`.
pub fn decimal_string(n: usize) -> (r: String)
    ensures
        r@ == decimal_text(n as nat),
        r@.len() > 0,
    decreases n,
{
    if n < 10 {
        String::from_str(digit(n))
    } else {
        let mut s = decimal_string(n / 10);
        s.append(digit(n % 10));
        s
    }
}

} // verus!
