//! Percent-encoding, and the query part of a request.

use crate::numbers::{digit_value, hex_char_upper};
use crate::strmap::StrMap;
use crate::text::{
    chars_of, find_next, lossy_text, next_at, split, split_chars, string_of_range, text_of_bytes,
    texts,
};
use vstd::prelude::*;
use vstd::string::*;
use vstd::utf8::*;

verus! {

// ---------- encoding ----------

/// The bytes that stand for themselves.
pub open spec fn unreserved(b: u8) -> bool {
    ||| 0x41 <= b <= 0x5A
    ||| 0x61 <= b <= 0x7A
    ||| 0x30 <= b <= 0x39
    ||| b == 0x2D
    ||| b == 0x5F
    ||| b == 0x2E
    ||| b == 0x7E
}

/// The encoded form of one byte.
pub open spec fn escape(b: u8) -> Seq<char> {
    if unreserved(b) {
        seq![b as char]
    } else {
        seq!['%', hex_char_upper((b / 16) as nat), hex_char_upper((b % 16) as nat)]
    }
}

/// The encoded form of some bytes.
pub open spec fn escaped(b: Seq<u8>) -> Seq<char>
    decreases b.len(),
{
    if b.len() == 0 {
        seq![]
    } else {
        escape(b[0]) + escaped(b.skip(1))
    }
}

/// The percent-encoded form of a text.
pub open spec fn encoded(s: Seq<char>) -> Seq<char> {
    escaped(encode_utf8(s))
}

fn upper_digit(d: u8) -> (r: char)
    requires
        d < 16,
    ensures
        r == hex_char_upper(d as nat),
{
    if d < 10 {
        (48u8 + d) as char
    } else {
        (55u8 + d) as char
    }
}

/// Percent-encodes a text: letters, digits and `-_.~` stand for themselves.
pub fn url_encode(s: &str) -> (r: String)
    ensures
        r@ == encoded(s@),
{
    let b = s.as_bytes();
    let mut out = String::new();
    let mut i: usize = 0;
    assert(b@.skip(0) =~= b@);
    assert(out@ + escaped(b@) =~= escaped(b@));
    while i < b.len()
        invariant
            i <= b@.len(),
            out@ + escaped(b@.skip(i as int)) == escaped(b@),
        decreases b@.len() - i,
    {
        let c: u8 = b[i];
        let ghost before = out@;
        if (0x41 <= c && c <= 0x5A) || (0x61 <= c && c <= 0x7A) || (0x30 <= c && c <= 0x39) || c
            == 0x2D || c == 0x5F || c == 0x2E || c == 0x7E {
            out.push(c as char);
        } else {
            out.push('%');
            out.push(upper_digit(c / 16));
            out.push(upper_digit(c % 16));
        }
        assert(out@ =~= before + escape(c));
        assert(b@.skip(i as int).skip(1) =~= b@.skip(i + 1));
        assert(before + (escape(c) + escaped(b@.skip(i + 1))) =~= out@ + escaped(b@.skip(i + 1)));
        i = i + 1;
    }
    assert(out@ + escaped(b@.skip(i as int)) =~= out@);
    out
}

// ---------- decoding ----------

/// The byte that two characters behind a percent sign stand for: two
/// hexadecimal digits, or a plus sign and one.
pub open spec fn hex_pair(a: u8, b: u8) -> Option<u8> {
    match (digit_value(a as char), digit_value(b as char)) {
        (Some(x), Some(y)) => Some((16 * x + y) as u8),
        (None, Some(y)) => if a == 0x2B {
            Some(y as u8)
        } else {
            None
        },
        _ => None,
    }
}

/// The bytes that an encoded text stands for: a percent sign that does not
/// start a code stands for itself, a plus sign for a space.
pub open spec fn unescaped(b: Seq<u8>) -> Seq<u8>
    decreases b.len(),
{
    if b.len() == 0 {
        seq![]
    } else if b[0] == 0x25 && b.len() > 2 && hex_pair(b[1], b[2]) is Some {
        seq![hex_pair(b[1], b[2])->0] + unescaped(b.skip(3))
    } else if b[0] == 0x2B {
        seq![0x20u8] + unescaped(b.skip(1))
    } else {
        seq![b[0]] + unescaped(b.skip(1))
    }
}

/// The text that a percent-encoded text stands for.
pub open spec fn decoded(s: Seq<char>) -> Seq<char> {
    lossy_text(unescaped(encode_utf8(s)))
}

fn digit(b: u8) -> (r: Option<u8>)
    ensures
        match digit_value(b as char) {
            Some(d) => r == Some(d as u8) && d < 16,
            None => r is None,
        },
{
    if 0x30 <= b && b <= 0x39 {
        Some(b - 0x30)
    } else if 0x61 <= b && b <= 0x66 {
        Some(b - 87)
    } else if 0x41 <= b && b <= 0x46 {
        Some(b - 55)
    } else {
        None
    }
}

fn pair(a: u8, b: u8) -> (r: Option<u8>)
    ensures
        r == hex_pair(a, b),
{
    match (digit(a), digit(b)) {
        (Some(x), Some(y)) => Some(16 * x + y),
        (None, Some(y)) => if a == 0x2B {
            Some(y)
        } else {
            None
        },
        _ => None,
    }
}

/// Decodes a percent-encoded text.
pub fn url_decode(s: &str) -> (r: String)
    ensures
        r@ == decoded(s@),
{
    let b = s.as_bytes();
    let n: usize = b.len();
    let mut out: Vec<u8> = Vec::new();
    let mut i: usize = 0;
    assert(b@.skip(0) =~= b@);
    assert(out@ + unescaped(b@) =~= unescaped(b@));
    while i < n
        invariant
            n == b@.len(),
            i <= n,
            out@ + unescaped(b@.skip(i as int)) == unescaped(b@),
        decreases n - i,
    {
        let ghost before = out@;
        let ghost rest = b@.skip(i as int);
        let code: Option<u8> = if b[i] == 0x25 && n - i > 2 {
            pair(b[i + 1], b[i + 2])
        } else {
            None
        };
        match code {
            Some(v) => {
                out.push(v);
                assert(rest.skip(3) =~= b@.skip(i + 3));
                assert(before + (seq![v] + unescaped(b@.skip(i + 3))) =~= out@ + unescaped(
                    b@.skip(i + 3),
                ));
                i = i + 3;
            },
            None => {
                let v: u8 = if b[i] == 0x2B {
                    0x20
                } else {
                    b[i]
                };
                out.push(v);
                assert(rest.skip(1) =~= b@.skip(i + 1));
                assert(before + (seq![v] + unescaped(b@.skip(i + 1))) =~= out@ + unescaped(
                    b@.skip(i + 1),
                ));
                i = i + 1;
            },
        }
    }
    assert(out@ + unescaped(b@.skip(i as int)) =~= out@);
    text_of_bytes(out.as_slice())
}

// ---------- the way there and back ----------

/// The encoded form of some bytes, as bytes.
spec fn escaped_bytes(b: Seq<u8>) -> Seq<u8> {
    escaped(b).map_values(|c: char| c as u8)
}

proof fn lemma_escaped_ascii(b: Seq<u8>)
    ensures
        is_ascii_chars(escaped(b)),
    decreases b.len(),
{
    if b.len() > 0 {
        lemma_escaped_ascii(b.skip(1));
        let e = escape(b[0]);
        assert forall|i: int| 0 <= i < e.len() implies '\0' <= #[trigger] e[i] <= '\u{7f}' by {}
        let all = escaped(b);
        assert forall|i: int| 0 <= i < all.len() implies '\0' <= #[trigger] all[i] <= '\u{7f}' by {
            if i >= e.len() {
                assert(all[i] == escaped(b.skip(1))[i - e.len()]);
            } else {
                assert(all[i] == e[i]);
            }
        }
    }
}

proof fn lemma_escape_undone(b: Seq<u8>)
    ensures
        unescaped(escaped_bytes(b)) == b,
    decreases b.len(),
{
    let e = escaped_bytes(b);
    if b.len() > 0 {
        lemma_escape_undone(b.skip(1));
        let rest = escaped_bytes(b.skip(1));
        let x = b[0];
        if unreserved(x) {
            assert(escaped(b)[0] == x as char);
            assert(e[0] == x);
            assert(e.skip(1) =~= rest);
        } else {
            assert(escaped(b)[0] == '%');
            assert(escaped(b)[1] == hex_char_upper((x / 16) as nat));
            assert(escaped(b)[2] == hex_char_upper((x % 16) as nat));
            assert(e[0] == 0x25);
            assert(digit_value(e[1] as char) == Some((x / 16) as nat));
            assert(digit_value(e[2] as char) == Some((x % 16) as nat));
            assert(e.skip(3) =~= rest);
        }
        assert(seq![x] + b.skip(1) =~= b);
    }
}

/// Decoding a percent-encoded text gives the text back.
pub proof fn decoding_undoes_encoding(s: Seq<char>)
    ensures
        decoded(encoded(s)) == s,
{
    let b = encode_utf8(s);
    lemma_escaped_ascii(b);
    is_ascii_chars_encode_utf8(encoded(s));
    assert(encode_utf8(encoded(s)) =~= escaped_bytes(b));
    lemma_escape_undone(b);
    encode_utf8_valid_utf8(s);
    encode_utf8_decode_utf8(s);
}

/// A percent-encoded text holds letters, digits and `-_.~%` only: no white
/// space and no line break, so that it can stand in a header line.
pub proof fn encoded_is_plain(s: Seq<char>)
    ensures
        forall|i: int|
            0 <= i < encoded(s).len() ==> (#[trigger] encoded(s)[i] == '%' || (encoded(s)[i] as u32)
                < 128 && unreserved(encoded(s)[i] as u8)),
{
    lemma_escaped_plain(encode_utf8(s));
}

proof fn lemma_escaped_plain(b: Seq<u8>)
    ensures
        forall|i: int|
            0 <= i < escaped(b).len() ==> (#[trigger] escaped(b)[i] == '%' || (escaped(b)[i] as u32)
                < 128 && unreserved(escaped(b)[i] as u8)),
    decreases b.len(),
{
    if b.len() > 0 {
        lemma_escaped_plain(b.skip(1));
        let e = escape(b[0]);
        let all = escaped(b);
        assert forall|i: int| 0 <= i < e.len() implies (#[trigger] e[i] == '%' || (e[i] as u32)
            < 128 && unreserved(e[i] as u8)) by {}
        assert forall|i: int| 0 <= i < all.len() implies (#[trigger] all[i] == '%' || (
        all[i] as u32) < 128 && unreserved(all[i] as u8)) by {
            if i >= e.len() {
                assert(all[i] == escaped(b.skip(1))[i - e.len()]);
            } else {
                assert(all[i] == e[i]);
            }
        }
    }
}

// ---------- queries ----------

/// The values that the parts of a query give: a part counts where a name stands
/// before its first equals sign; of several with one name the last one counts.
pub open spec fn query_of_parts(parts: Seq<Seq<char>>) -> Map<Seq<char>, Seq<char>>
    decreases parts.len(),
{
    if parts.len() == 0 {
        Map::empty()
    } else {
        let before = query_of_parts(parts.drop_last());
        let part = parts.last();
        let at = next_at(part, 0, '=');
        if 0 < at < part.len() {
            before.insert(
                decoded(part.subrange(0, at)),
                decoded(part.subrange(at + 1, part.len() as int)),
            )
        } else {
            before
        }
    }
}

/// The values of a query.
pub open spec fn query_values(q: Seq<char>) -> Map<Seq<char>, Seq<char>> {
    query_of_parts(split(q, '&'))
}

/// Reads the values of a query.
pub fn parse_query(q: &str) -> (r: StrMap<String>)
    ensures
        r@ == query_values(q@),
{
    let parts = split_chars(&chars_of(q), '&');
    let mut m: StrMap<String> = StrMap::new();
    let mut i: usize = 0;
    let ghost all = texts(parts@);
    assert(all.take(0) =~= Seq::<Seq<char>>::empty());
    while i < parts.len()
        invariant
            i <= parts@.len(),
            all == texts(parts@),
            m@ == query_of_parts(all.take(i as int)),
        decreases parts@.len() - i,
    {
        let part = &parts[i];
        assert(all.take(i + 1).drop_last() =~= all.take(i as int));
        assert(all.take(i + 1).last() == part@);
        let at = find_next(part, 0, '=');
        if at > 0 && at < part.len() {
            let k = url_decode(string_of_range(part, 0, at).as_str());
            let v = url_decode(string_of_range(part, at + 1, part.len()).as_str());
            m.insert(k, v);
        }
        i = i + 1;
    }
    assert(all.take(i as int) =~= all);
    m
}

// ---------- laws of addresses ----------

/// Letters, digits and the four marks `-`, `_`, `.` and `~` go out as they are; every
/// other byte goes out as a percent sign and two hexadecimal digits in capitals.
pub proof fn bytes_are_escaped(b: u8)
    ensures
        (b >= 48 && b <= 57) || (b >= 65 && b <= 90) || (b >= 97 && b <= 122) || b == 45 || b == 95
            || b == 46 || b == 126 ==> escaped(seq![b]) == seq![b as char],
        !((b >= 48 && b <= 57) || (b >= 65 && b <= 90) || (b >= 97 && b <= 122) || b == 45 || b
            == 95 || b == 46 || b == 126) ==> {
            let e = escaped(seq![b]);
            &&& e.len() == 3
            &&& e[0] == '%'
            &&& ('0' <= e[1] && e[1] <= '9') || ('A' <= e[1] && e[1] <= 'F')
            &&& ('0' <= e[2] && e[2] <= '9') || ('A' <= e[2] && e[2] <= 'F')
            &&& digit_value(e[1]) == Some((b / 16) as nat)
            &&& digit_value(e[2]) == Some((b % 16) as nat)
        },
{
    let one = seq![b];
    assert(one.skip(1) =~= Seq::<u8>::empty());
    assert(escaped(Seq::<u8>::empty()) =~= Seq::<char>::empty());
    assert(escape(b) + Seq::<char>::empty() =~= escape(b));
    assert(escaped(one) == escape(b));
    let h = (b / 16) as nat;
    let l = (b % 16) as nat;
    assert(h < 16 && l < 16);
}

/// Texts are encoded piece by piece.
pub proof fn encoding_goes_byte_by_byte(a: Seq<u8>, b: Seq<u8>)
    ensures
        escaped(Seq::empty()) == Seq::<char>::empty(),
        escaped(a + b) == escaped(a) + escaped(b),
    decreases a.len(),
{
    if a.len() == 0 {
        assert(a + b =~= b);
        assert(escaped(a) + escaped(b) =~= escaped(b));
    } else {
        encoding_goes_byte_by_byte(a.skip(1), b);
        assert((a + b).skip(1) =~= a.skip(1) + b);
        assert((a + b)[0] == a[0]);
        assert(escaped(a + b) =~= escaped(a) + escaped(b));
    }
}

/// A byte other than a percent sign or a plus is decoded as itself, a plus as a blank,
/// and a percent sign with two hexadecimal digits as the byte of their value; a percent
/// sign without them stays.
pub proof fn bytes_are_decoded(c: u8, x: u8, y: u8, rest: Seq<u8>)
    ensures
        unescaped(Seq::empty()) == Seq::<u8>::empty(),
        c != 37 && c != 43 ==> unescaped(seq![c] + rest) == seq![c] + unescaped(rest),
        unescaped(seq![43u8] + rest) == seq![32u8] + unescaped(rest),
        digit_value(x as char) is Some && digit_value(y as char) is Some ==> unescaped(
            seq![37u8, x, y] + rest,
        ) == seq![(16 * digit_value(x as char)->0 + digit_value(y as char)->0) as u8] + unescaped(
            rest,
        ),
        digit_value(y as char) is None ==> unescaped(seq![37u8, x, y] + rest) == seq![37u8]
            + unescaped(seq![x, y] + rest),
        unescaped(seq![37u8]) == seq![37u8],
        unescaped(seq![37u8, x]) == seq![37u8] + unescaped(seq![x]),
{
    assert((seq![c] + rest).skip(1) =~= rest);
    assert((seq![43u8] + rest).skip(1) =~= rest);
    assert((seq![37u8, x, y] + rest).skip(3) =~= rest);
    assert((seq![37u8, x, y] + rest).skip(1) =~= seq![x, y] + rest);
    assert(seq![37u8].skip(1) =~= Seq::<u8>::empty());
    assert(unescaped(Seq::<u8>::empty()) =~= Seq::<u8>::empty());
    assert(seq![37u8] + Seq::<u8>::empty() =~= seq![37u8]);
    assert(seq![37u8, x].skip(1) =~= seq![x]);
}

proof fn lemma_split_last(a: Seq<char>, b: Seq<char>, sep: char)
    requires
        forall|i: int| 0 <= i < b.len() ==> b[i] != sep,
    ensures
        split(a + seq![sep] + b, sep) == split(a, sep).push(b),
    decreases a.len(),
{
    let at = next_at(a, 0, sep);
    crate::text::lemma_next_at(a, 0, sep);
    if at >= a.len() {
        crate::text::splitting_goes_by_separators(a, b, sep);
        crate::text::splitting_goes_by_separators(b, b, sep);
        assert(seq![a] + seq![b] =~= seq![a].push(b));
    } else {
        let x = a.subrange(0, at);
        let y = a.subrange(at + 1, a.len() as int);
        assert(a =~= x + seq![sep] + y);
        lemma_split_last(y, b, sep);
        crate::text::splitting_goes_by_separators(x, y, sep);
        crate::text::splitting_goes_by_separators(x, y + seq![sep] + b, sep);
        assert(a + seq![sep] + b =~= x + seq![sep] + (y + seq![sep] + b));
        assert(seq![x] + split(y, sep).push(b) =~= (seq![x] + split(y, sep)).push(b));
    }
}

/// A query is read name by name: `name=value` gives the name its value, both decoded,
/// and a later one of the same name takes the place of an earlier; what has no name
/// counts for nothing, and so does what has no equals sign.
pub proof fn queries_are_read_name_by_name(q: Seq<char>, k: Seq<char>, v: Seq<char>)
    requires
        k.len() > 0,
        forall|i: int| 0 <= i < k.len() ==> k[i] != '=' && k[i] != '&',
        forall|i: int| 0 <= i < v.len() ==> v[i] != '&',
    ensures
        query_values(k + seq!['='] + v) == Map::<Seq<char>, Seq<char>>::empty().insert(
            decoded(k),
            decoded(v),
        ),
        query_values(q + seq!['&'] + (k + seq!['='] + v)) == query_values(q).insert(
            decoded(k),
            decoded(v),
        ),
        query_values(k) == Map::<Seq<char>, Seq<char>>::empty(),
        query_values(q + seq!['&'] + k) == query_values(q),
        query_values(q + seq!['&'] + (seq!['='] + v)) == query_values(q),
        query_values(Seq::empty()) == Map::<Seq<char>, Seq<char>>::empty(),
{
    let p = k + seq!['='] + v;
    let e = seq!['='] + v;
    let none = Seq::<char>::empty();
    let n = k.len() as int;
    assert forall|i: int| 0 <= i < p.len() implies p[i] != '&' by {
        if i < n {
            assert(p[i] == k[i]);
        } else if i > n {
            assert(p[i] == v[i - n - 1]);
        }
    }
    assert forall|i: int| 0 <= i < e.len() implies e[i] != '&' by {
        if i > 0 {
            assert(e[i] == v[i - 1]);
        }
    }
    crate::text::lemma_next_at(p, 0, '=');
    crate::text::lemma_next_at(k, 0, '=');
    crate::text::lemma_next_at(e, 0, '=');
    assert(p[n] == '=');
    assert(e[0] == '=');
    let at = next_at(p, 0, '=');
    if at < n {
        assert(p[at] == k[at]);
    }
    assert(next_at(k, 0, '=') == n);
    assert(next_at(e, 0, '=') == 0);
    assert(p.subrange(0, n) =~= k);
    assert(p.subrange(n + 1, p.len() as int) =~= v);
    crate::text::splitting_goes_by_separators(p, none, '&');
    crate::text::splitting_goes_by_separators(k, none, '&');
    crate::text::splitting_goes_by_separators(none, none, '&');
    lemma_split_last(q, p, '&');
    lemma_split_last(q, k, '&');
    lemma_split_last(q, e, '&');
    let parts = split(q, '&');
    assert(parts.push(p).drop_last() =~= parts);
    assert(parts.push(k).drop_last() =~= parts);
    assert(parts.push(e).drop_last() =~= parts);
    let nothing = Seq::<Seq<char>>::empty();
    assert(seq![p].drop_last() =~= nothing);
    assert(seq![k].drop_last() =~= nothing);
    assert(seq![none].drop_last() =~= nothing);
    assert(query_of_parts(nothing) == Map::<Seq<char>, Seq<char>>::empty());
}

/// A percent sign before something that is no hexadecimal number of two characters
/// stays; a plus and a digit are read as the digit.
pub proof fn odd_escapes(x: u8, y: u8, rest: Seq<u8>)
    requires
        digit_value(x as char) is None,
    ensures
        x != 43 ==> unescaped(seq![37u8, x, y] + rest) == seq![37u8] + unescaped(
            seq![x, y] + rest,
        ),
        x == 43 && digit_value(y as char) is Some ==> unescaped(seq![37u8, x, y] + rest) == seq![
            digit_value(y as char)->0 as u8,
        ] + unescaped(rest),
{
    assert((seq![37u8, x, y] + rest).skip(3) =~= rest);
    assert((seq![37u8, x, y] + rest).skip(1) =~= seq![x, y] + rest);
}

} // verus!
