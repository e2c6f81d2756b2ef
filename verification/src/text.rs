//! Text as a sequence of characters: trimming, splitting, searching.
//!
//! Specifications speak of `Seq<char>`; the executable functions work on the
//! characters of a string, collected once.

use vstd::prelude::*;
use vstd::string::*;
use vstd::utf8::*;

verus! {

// ---------- std text functions ----------

/// `String::push` appends one character.
pub assume_specification[ String::push ](s: &mut String, c: char)
    ensures
        final(s)@ == old(s)@.push(c),
;

/// `==` on string slices compares their characters.
pub assume_specification[ <str as PartialEq>::eq ](a: &str, b: &str) -> (r: bool)
    ensures
        r == (a@ == b@),
;

/// What `str::to_lowercase` gives for text that is not plain ASCII.
pub uninterp spec fn unicode_lowercase(s: Seq<char>) -> Seq<char>;

/// The lowercase form of one ASCII character.
pub open spec fn ascii_lower(c: char) -> char {
    if 'A' <= c && c <= 'Z' {
        (c as u32 + 32) as char
    } else {
        c
    }
}

/// The lowercase form of a text: letter by letter where it is ASCII, by the
/// Unicode tables where it is not.
pub open spec fn lowercase(s: Seq<char>) -> Seq<char> {
    if is_ascii_chars(s) {
        s.map_values(|c: char| ascii_lower(c))
    } else {
        unicode_lowercase(s)
    }
}

/// `str::to_lowercase`: on ASCII text only `A` to `Z` change, each to its small
/// letter; on other text the result is the one that the Unicode tables give.
#[verifier::external_body]
fn std_to_lowercase(s: &str) -> (r: String)
    ensures
        is_ascii_chars(s@) ==> r@ == s@.map_values(|c: char| ascii_lower(c)),
        !is_ascii_chars(s@) ==> r@ == unicode_lowercase(s@),
{
    s.to_lowercase()
}

/// What `String::from_utf8_lossy` gives for bytes that are not valid UTF-8.
pub uninterp spec fn repaired_utf8(b: Seq<u8>) -> Seq<char>;

/// The text of a byte string: decoded where it is valid UTF-8, otherwise with
/// the faulty parts replaced.
pub open spec fn lossy_text(b: Seq<u8>) -> Seq<char> {
    if valid_utf8(b) {
        decode_utf8(b)
    } else {
        repaired_utf8(b)
    }
}

/// `String::from_utf8_lossy`: valid UTF-8 is decoded as it stands; for other
/// bytes the result depends on the bytes alone.
#[verifier::external_body]
fn std_from_utf8_lossy(b: &[u8]) -> (r: String)
    ensures
        valid_utf8(b@) ==> r@ == decode_utf8(b@),
        !valid_utf8(b@) ==> r@ == repaired_utf8(b@),
{
    String::from_utf8_lossy(b).to_string()
}

/// The text of `b`, faulty parts replaced.
pub fn text_of_bytes(b: &[u8]) -> (r: String)
    ensures
        r@ == lossy_text(b@),
{
    std_from_utf8_lossy(b)
}

/// The lowercase form of `s`.
pub fn lower(s: &str) -> (r: String)
    ensures
        r@ == lowercase(s@),
{
    std_to_lowercase(s)
}

/// Whether two texts are the same.
pub fn same(a: &str, b: &str) -> (r: bool)
    ensures
        r == (a@ == b@),
{
    a.eq(b)
}

// ---------- strings and characters ----------

/// The characters of `s`.
pub fn chars_of(s: &str) -> (r: Vec<char>)
    ensures
        r@ == s@,
{
    let mut out: Vec<char> = Vec::new();
    for c in it: s.chars()
        invariant
            it.seq() == s@,
            out@ == s@.take(it.index() as int),
    {
        out.push(c);
    }
    out
}

/// The string made of `v[from..to]`.
pub fn string_of_range(v: &Vec<char>, from: usize, to: usize) -> (r: String)
    requires
        from <= to <= v@.len(),
    ensures
        r@ == v@.subrange(from as int, to as int),
{
    let mut out = String::new();
    let mut i: usize = from;
    assert(out@ =~= v@.subrange(from as int, from as int));
    while i < to
        invariant
            from <= i <= to <= v@.len(),
            out@ == v@.subrange(from as int, i as int),
        decreases to - i,
    {
        out.push(v[i]);
        i = i + 1;
        assert(out@ =~= v@.subrange(from as int, i as int));
    }
    out
}

/// The string made of `v`.
pub fn string_of(v: &Vec<char>) -> (r: String)
    ensures
        r@ == v@,
{
    let r = string_of_range(v, 0, v.len());
    assert(v@.subrange(0, v@.len() as int) =~= v@);
    r
}

/// `v[from..to]` as a vector of its own.
pub fn slice_of(v: &Vec<char>, from: usize, to: usize) -> (r: Vec<char>)
    requires
        from <= to <= v@.len(),
    ensures
        r@ == v@.subrange(from as int, to as int),
{
    let mut out: Vec<char> = Vec::new();
    let mut i: usize = from;
    assert(out@ =~= v@.subrange(from as int, from as int));
    while i < to
        invariant
            from <= i <= to <= v@.len(),
            out@ == v@.subrange(from as int, i as int),
        decreases to - i,
    {
        out.push(v[i]);
        i = i + 1;
        assert(out@ =~= v@.subrange(from as int, i as int));
    }
    out
}

// ---------- classes of characters ----------

/// The characters with the Unicode property White_Space.
pub open spec fn white_space(c: char) -> bool {
    let n = c as u32;
    ||| 0x9 <= n <= 0xD
    ||| n == 0x20
    ||| n == 0x85
    ||| n == 0xA0
    ||| n == 0x1680
    ||| 0x2000 <= n <= 0x200A
    ||| n == 0x2028
    ||| n == 0x2029
    ||| n == 0x202F
    ||| n == 0x205F
    ||| n == 0x3000
}

/// Whether `c` is white space.
pub fn is_white_space(c: char) -> (r: bool)
    ensures
        r == white_space(c),
{
    let n: u32 = c as u32;
    (0x9 <= n && n <= 0xD) || n == 0x20 || n == 0x85 || n == 0xA0 || n == 0x1680 || (0x2000 <= n
        && n <= 0x200A) || n == 0x2028 || n == 0x2029 || n == 0x202F || n == 0x205F || n == 0x3000
}

/// The control characters, Unicode general category Cc.
pub open spec fn control(c: char) -> bool {
    c as u32 <= 0x1F || 0x7F <= c as u32 <= 0x9F
}

/// Whether `c` is a control character.
pub fn is_control(c: char) -> (r: bool)
    ensures
        r == control(c),
{
    let n: u32 = c as u32;
    n <= 0x1F || (0x7F <= n && n <= 0x9F)
}

/// ASCII letters and digits.
pub open spec fn ascii_alphanumeric(c: char) -> bool {
    ('0' <= c && c <= '9') || ('A' <= c && c <= 'Z') || ('a' <= c && c <= 'z')
}

/// Whether `c` is an ASCII letter or digit.
pub fn is_ascii_alphanumeric(c: char) -> (r: bool)
    ensures
        r == ascii_alphanumeric(c),
{
    ('0' <= c && c <= '9') || ('A' <= c && c <= 'Z') || ('a' <= c && c <= 'z')
}

// ---------- trimming ----------

/// `s` without its leading white space.
pub open spec fn trim_start(s: Seq<char>) -> Seq<char>
    decreases s.len(),
{
    if s.len() > 0 && white_space(s[0]) {
        trim_start(s.skip(1))
    } else {
        s
    }
}

/// `s` without its trailing white space.
pub open spec fn trim_end(s: Seq<char>) -> Seq<char>
    decreases s.len(),
{
    if s.len() > 0 && white_space(s.last()) {
        trim_end(s.drop_last())
    } else {
        s
    }
}

/// `s` without white space at either end.
pub open spec fn trim(s: Seq<char>) -> Seq<char> {
    trim_end(trim_start(s))
}

/// `v` without white space at either end.
pub fn trim_chars(v: &Vec<char>) -> (r: Vec<char>)
    ensures
        r@ == trim(v@),
{
    let mut from: usize = 0;
    assert(v@.skip(0) =~= v@);
    while from < v.len() && is_white_space(v[from])
        invariant
            from <= v@.len(),
            trim_start(v@) == trim_start(v@.skip(from as int)),
        decreases v@.len() - from,
    {
        assert(v@.skip(from as int).skip(1) =~= v@.skip(from + 1));
        from = from + 1;
    }
    let mut to: usize = v.len();
    assert(v@.skip(from as int) =~= v@.subrange(from as int, to as int));
    while to > from && is_white_space(v[to - 1])
        invariant
            from <= to <= v@.len(),
            trim(v@) == trim_end(v@.subrange(from as int, to as int)),
        decreases to,
    {
        assert(v@.subrange(from as int, to as int).drop_last() =~= v@.subrange(
            from as int,
            to - 1,
        ));
        to = to - 1;
    }
    slice_of(v, from, to)
}

/// `s` without white space at either end.
pub fn trimmed(s: &str) -> (r: String)
    ensures
        r@ == trim(s@),
{
    string_of(&trim_chars(&chars_of(s)))
}

/// Whether `s` is white space throughout (or empty).
pub open spec fn blank(s: Seq<char>) -> bool {
    forall|i: int| 0 <= i < s.len() ==> white_space(#[trigger] s[i])
}

/// Trimming leaves nothing exactly of a blank text.
pub proof fn lemma_trim_blank(s: Seq<char>)
    ensures
        trim(s).len() == 0 <==> blank(s),
    decreases s.len(),
{
    lemma_trim_start_blank(s);
    lemma_trim_end_blank(trim_start(s));
}

/// What is trimmed already is not changed by trimming.
pub proof fn lemma_trim_twice(s: Seq<char>)
    ensures
        trim(trim(s)) == trim(s),
{
    let a = trim_start(s);
    lemma_trim_start_done(s);
    lemma_trim_end_done(a);
    let t = trim(s);
    if t.len() > 0 {
        assert(t[0] == a[0]);
    }
}

proof fn lemma_trim_start_done(s: Seq<char>)
    ensures
        trim_start(s).len() > 0 ==> !white_space(trim_start(s)[0]),
    decreases s.len(),
{
    if s.len() > 0 && white_space(s[0]) {
        lemma_trim_start_done(s.skip(1));
    }
}

proof fn lemma_trim_end_done(s: Seq<char>)
    ensures
        trim_end(s).len() <= s.len(),
        trim_end(s) == s.take(trim_end(s).len() as int),
        trim_end(s).len() > 0 ==> !white_space(trim_end(s).last()),
    decreases s.len(),
{
    if s.len() > 0 && white_space(s.last()) {
        lemma_trim_end_done(s.drop_last());
        let n = trim_end(s).len() as int;
        assert(s.drop_last().take(n) =~= s.take(n));
    } else {
        assert(s.take(s.len() as int) =~= s);
    }
}

proof fn lemma_trim_start_blank(s: Seq<char>)
    ensures
        blank(trim_start(s)) <==> blank(s),
        blank(s) ==> trim_start(s).len() == 0,
    decreases s.len(),
{
    if s.len() > 0 && white_space(s[0]) {
        lemma_trim_start_blank(s.skip(1));
        assert forall|i: int| 0 <= i < s.len() && blank(s.skip(1)) implies white_space(
            #[trigger] s[i],
        ) by {
            if i > 0 {
                assert(s.skip(1)[i - 1] == s[i]);
            }
        }
        assert(blank(s) ==> blank(s.skip(1)));
    }
}

proof fn lemma_trim_end_blank(s: Seq<char>)
    ensures
        trim_end(s).len() == 0 <==> blank(s),
    decreases s.len(),
{
    if s.len() > 0 && white_space(s.last()) {
        lemma_trim_end_blank(s.drop_last());
        assert forall|i: int| 0 <= i < s.len() && blank(s.drop_last()) implies white_space(
            #[trigger] s[i],
        ) by {
            if i < s.len() - 1 {
                assert(s.drop_last()[i] == s[i]);
            }
        }
        assert(blank(s) ==> blank(s.drop_last()));
    } else if s.len() > 0 {
        assert(s.last() == s[s.len() - 1]);
    }
}

// ---------- searching ----------

/// The first place of `c` in `s` at or after `from`; `s.len()` where there is none.
pub open spec fn next_at(s: Seq<char>, from: int, c: char) -> int
    decreases s.len() - from,
{
    if from >= s.len() {
        s.len() as int
    } else if s[from] == c {
        from
    } else {
        next_at(s, from + 1, c)
    }
}

/// `next_at` is a place of `c`, and none comes before it.
pub proof fn lemma_next_at(s: Seq<char>, from: int, c: char)
    requires
        0 <= from <= s.len(),
    ensures
        from <= next_at(s, from, c) <= s.len(),
        next_at(s, from, c) < s.len() ==> s[next_at(s, from, c)] == c,
        forall|i: int| from <= i < next_at(s, from, c) ==> s[i] != c,
    decreases s.len() - from,
{
    if from < s.len() && s[from] != c {
        lemma_next_at(s, from + 1, c);
    }
}

/// The first place of `c` at or after `from`; the length where there is none.
pub fn find_next(v: &Vec<char>, from: usize, c: char) -> (r: usize)
    requires
        from <= v@.len(),
    ensures
        r == next_at(v@, from as int, c),
        from <= r <= v@.len(),
{
    let mut i: usize = from;
    while i < v.len() && v[i] != c
        invariant
            from <= i <= v@.len(),
            next_at(v@, from as int, c) == next_at(v@, i as int, c),
        decreases v@.len() - i,
    {
        i = i + 1;
    }
    i
}

/// The last place of `c` in `s`; -1 where there is none.
pub open spec fn last_at(s: Seq<char>, c: char) -> int
    decreases s.len(),
{
    if s.len() == 0 {
        -1
    } else if s.last() == c {
        s.len() - 1
    } else {
        last_at(s.drop_last(), c)
    }
}

/// The last place of `c`, if it occurs.
pub fn find_last(v: &Vec<char>, c: char) -> (r: Option<usize>)
    ensures
        r matches Some(i) ==> i < v@.len() && i == last_at(v@, c),
        r is None ==> last_at(v@, c) == -1,
{
    let mut i: usize = v.len();
    assert(v@.take(i as int) =~= v@);
    while i > 0
        invariant
            i <= v@.len(),
            last_at(v@, c) == last_at(v@.take(i as int), c),
        decreases i,
    {
        if v[i - 1] == c {
            return Some(i - 1);
        }
        assert(v@.take(i as int).drop_last() =~= v@.take(i - 1));
        i = i - 1;
    }
    None
}

/// Whether `pat` stands in `s` at `at`.
pub open spec fn matches_at(s: Seq<char>, at: int, pat: Seq<char>) -> bool {
    0 <= at && at + pat.len() <= s.len() && s.subrange(at, at + pat.len()) == pat
}

/// The first place at or after `from` where `pat` stands in `s`; -1 where there is none.
pub open spec fn find_from(s: Seq<char>, from: int, pat: Seq<char>) -> int
    decreases s.len() + 1 - from,
{
    if from > s.len() {
        -1
    } else if matches_at(s, from, pat) {
        from
    } else {
        find_from(s, from + 1, pat)
    }
}

/// Whether `pat` stands in `v` at `at`.
pub fn stands_at(v: &Vec<char>, at: usize, pat: &Vec<char>) -> (r: bool)
    requires
        at <= v@.len(),
    ensures
        r == matches_at(v@, at as int, pat@),
{
    let n: usize = v.len();
    if pat.len() > n - at {
        return false;
    }
    let mut i: usize = 0;
    while i < pat.len()
        invariant
            i <= pat@.len(),
            at + pat@.len() <= n,
            n == v@.len(),
            forall|j: int| 0 <= j < i ==> v@[at + j] == pat@[j],
        decreases pat@.len() - i,
    {
        if v[at + i] != pat[i] {
            assert(v@.subrange(at as int, at + pat@.len())[i as int] != pat@[i as int]);
            return false;
        }
        i = i + 1;
    }
    assert(v@.subrange(at as int, at + pat@.len()) =~= pat@);
    true
}

/// The first place where `pat` stands in `v`.
pub fn find_text(v: &Vec<char>, pat: &Vec<char>) -> (r: Option<usize>)
    ensures
        r matches Some(i) ==> i == find_from(v@, 0, pat@) && i + pat@.len() <= v@.len(),
        r is None ==> find_from(v@, 0, pat@) == -1,
{
    let mut i: usize = 0;
    while i < v.len()
        invariant
            i <= v@.len(),
            find_from(v@, 0, pat@) == find_from(v@, i as int, pat@),
        decreases v@.len() - i,
    {
        if stands_at(v, i, pat) {
            return Some(i);
        }
        i = i + 1;
    }
    assert(find_from(v@, v@.len() as int + 1, pat@) == -1);
    if stands_at(v, i, pat) {
        return Some(i);
    }
    None
}

// ---------- splitting ----------

/// The parts of `s` from `from` on, between the separators `sep`.
pub open spec fn split_from(s: Seq<char>, from: int, sep: char) -> Seq<Seq<char>>
    decreases s.len() - from,
    via split_from_decreases
{
    let end = next_at(s, from, sep);
    if from > s.len() || end >= s.len() {
        seq![s.subrange(from, s.len() as int)]
    } else {
        seq![s.subrange(from, end)] + split_from(s, end + 1, sep)
    }
}

#[via_fn]
proof fn split_from_decreases(s: Seq<char>, from: int, sep: char) {
    if 0 <= from <= s.len() {
        lemma_next_at(s, from, sep);
    } else if from < 0 {
        lemma_next_at_low(s, from, sep);
    }
}

proof fn lemma_next_at_low(s: Seq<char>, from: int, c: char)
    requires
        from <= s.len(),
    ensures
        from <= next_at(s, from, c),
    decreases s.len() - from,
{
    if from < s.len() && s[from] != c {
        lemma_next_at_low(s, from + 1, c);
    }
}

/// The parts of `s` between the separators `sep`.
pub open spec fn split(s: Seq<char>, sep: char) -> Seq<Seq<char>> {
    split_from(s, 0, sep)
}

/// A text without the separator is one part.
pub proof fn lemma_split_none(a: Seq<char>, sep: char)
    requires
        forall|i: int| 0 <= i < a.len() ==> a[i] != sep,
    ensures
        split(a, sep) == seq![a],
{
    lemma_next_at(a, 0, sep);
    assert(next_at(a, 0, sep) == a.len());
    assert(a.subrange(0, a.len() as int) =~= a);
}

/// Two parts without the separator, put together with it, are split into just these.
pub proof fn lemma_split_two(a: Seq<char>, b: Seq<char>, sep: char)
    requires
        forall|i: int| 0 <= i < a.len() ==> a[i] != sep,
        forall|i: int| 0 <= i < b.len() ==> b[i] != sep,
    ensures
        split(a + seq![sep] + b, sep) == seq![a, b],
{
    let s = a + seq![sep] + b;
    let n = a.len() as int;
    lemma_next_at(s, 0, sep);
    let at = next_at(s, 0, sep);
    assert(s[n] == sep);
    if at < n {
        assert(s[at] == a[at]);
    }
    assert(s.subrange(0, n) =~= a);
    lemma_next_at(s, n + 1, sep);
    let end = next_at(s, n + 1, sep);
    if end < s.len() {
        assert(s[end] == b[end - n - 1]);
    }
    assert(s.subrange(n + 1, s.len() as int) =~= b);
    assert(split_from(s, n + 1, sep) == seq![b]);
    assert(seq![a] + seq![b] =~= seq![a, b]);
}

/// The views of a list of texts.
pub open spec fn texts(v: Seq<Vec<char>>) -> Seq<Seq<char>> {
    v.map_values(|t: Vec<char>| t@)
}

/// The parts of `v` between the separators `sep`.
pub fn split_chars(v: &Vec<char>, sep: char) -> (r: Vec<Vec<char>>)
    ensures
        texts(r@) == split(v@, sep),
        r@.len() >= 1,
{
    let mut out: Vec<Vec<char>> = Vec::new();
    let mut from: usize = 0;
    assert(texts(out@) =~= Seq::<Seq<char>>::empty());
    assert(Seq::<Seq<char>>::empty() + split_from(v@, 0, sep) =~= split_from(v@, 0, sep));
    loop
        invariant_except_break
            from <= v@.len(),
            split(v@, sep) == texts(out@) + split_from(v@, from as int, sep),
        ensures
            split(v@, sep) == texts(out@),
            out@.len() >= 1,
        decreases v@.len() - from,
    {
        let end = find_next(v, from, sep);
        let part = slice_of(v, from, end);
        let ghost before = texts(out@);
        let ghost p = part@;
        out.push(part);
        assert(texts(out@) =~= before.push(p));
        if end >= v.len() {
            assert(before + seq![p] =~= before.push(p));
            break;
        }
        assert(before + (seq![p] + split_from(v@, end + 1, sep)) =~= before.push(p) + split_from(
            v@,
            end + 1,
            sep,
        ));
        from = end + 1;
    }
    out
}

/// A line without the carriage return before its line feed.
pub open spec fn strip_cr(s: Seq<char>) -> Seq<char> {
    if s.len() > 0 && s.last() == '\r' {
        s.drop_last()
    } else {
        s
    }
}

/// The lines of `s` from `from` on: each ends at a line feed, or at a carriage
/// return and a line feed, which it does not hold; what follows the last line
/// feed is a line unless it is empty.
pub open spec fn lines_from(s: Seq<char>, from: int) -> Seq<Seq<char>>
    decreases s.len() - from,
    via lines_from_decreases
{
    let end = next_at(s, from, '\n');
    if from >= s.len() {
        seq![]
    } else if end >= s.len() {
        seq![s.subrange(from, s.len() as int)]
    } else {
        seq![strip_cr(s.subrange(from, end))] + lines_from(s, end + 1)
    }
}

#[via_fn]
proof fn lines_from_decreases(s: Seq<char>, from: int) {
    if from < s.len() {
        lemma_next_at_low(s, from, '\n');
    }
}

/// The lines of `s`.
pub open spec fn lines(s: Seq<char>) -> Seq<Seq<char>> {
    lines_from(s, 0)
}

/// The lines of `v`.
pub fn lines_of(v: &Vec<char>) -> (r: Vec<Vec<char>>)
    ensures
        texts(r@) == lines(v@),
{
    let mut out: Vec<Vec<char>> = Vec::new();
    let mut from: usize = 0;
    assert(texts(out@) =~= Seq::<Seq<char>>::empty());
    assert(Seq::<Seq<char>>::empty() + lines_from(v@, 0) =~= lines_from(v@, 0));
    while from < v.len()
        invariant
            from <= v@.len(),
            lines(v@) == texts(out@) + lines_from(v@, from as int),
        decreases v@.len() - from,
    {
        let end = find_next(v, from, '\n');
        let ghost before = texts(out@);
        if end >= v.len() {
            let part = slice_of(v, from, end);
            let ghost p = part@;
            out.push(part);
            assert(texts(out@) =~= before.push(p));
            assert(before + seq![p] =~= before.push(p));
            return out;
        }
        let stop = if end > from && v[end - 1] == '\r' {
            end - 1
        } else {
            end
        };
        let part = slice_of(v, from, stop);
        let ghost p = part@;
        assert(p =~= strip_cr(v@.subrange(from as int, end as int)));
        out.push(part);
        assert(texts(out@) =~= before.push(p));
        assert(before + (seq![p] + lines_from(v@, end + 1)) =~= before.push(p) + lines_from(
            v@,
            end + 1,
        ));
        from = end + 1;
    }
    assert(texts(out@) + Seq::<Seq<char>>::empty() =~= texts(out@));
    out
}

/// What follows the last path separator of `s` (all of it where there is none).
pub open spec fn base_name(s: Seq<char>) -> Seq<char>
    decreases s.len(),
{
    if s.len() == 0 || s.last() == '\\' || s.last() == '/' {
        seq![]
    } else {
        base_name(s.drop_last()).push(s.last())
    }
}

/// `base_name` is a suffix of the path and holds no separator.
pub proof fn lemma_base_name(s: Seq<char>)
    ensures
        base_name(s).len() <= s.len(),
        base_name(s) == s.skip(s.len() - base_name(s).len()),
        forall|i: int|
            0 <= i < base_name(s).len() ==> #[trigger] base_name(s)[i] != '\\' && base_name(s)[i]
                != '/',
    decreases s.len(),
{
    if s.len() == 0 || s.last() == '\\' || s.last() == '/' {
        assert(base_name(s) =~= s.skip(s.len() as int));
    } else {
        lemma_base_name(s.drop_last());
        let b = base_name(s.drop_last());
        assert(b.push(s.last()) =~= s.skip(s.len() - b.len() - 1));
    }
}

/// What follows the last path separator.
pub fn base_name_of(v: &Vec<char>) -> (r: Vec<char>)
    ensures
        r@ == base_name(v@),
{
    let mut i: usize = v.len();
    assert(v@.take(i as int) =~= v@);
    assert(v@.subrange(i as int, v@.len() as int) =~= Seq::<char>::empty());
    assert(base_name(v@) + Seq::<char>::empty() =~= base_name(v@));
    while i > 0 && v[i - 1] != '\\' && v[i - 1] != '/'
        invariant
            i <= v@.len(),
            base_name(v@) == base_name(v@.take(i as int)) + v@.subrange(
                i as int,
                v@.len() as int,
            ),
        decreases i,
    {
        let ghost t = v@.take(i as int);
        assert(t.drop_last() =~= v@.take(i - 1));
        assert(base_name(t) == base_name(v@.take(i - 1)).push(v@[i - 1]));
        assert(base_name(v@.take(i - 1)).push(v@[i - 1]) + v@.subrange(i as int, v@.len() as int)
            =~= base_name(v@.take(i - 1)) + v@.subrange(i - 1, v@.len() as int));
        i = i - 1;
    }
    assert(base_name(v@.take(i as int)) =~= Seq::<char>::empty());
    assert(Seq::<char>::empty() + v@.subrange(i as int, v@.len() as int) =~= v@.subrange(
        i as int,
        v@.len() as int,
    ));
    slice_of(v, i, v.len())
}

// ---------- optional texts ----------

/// The text of an optional string.
pub open spec fn opt_text(o: Option<String>) -> Option<Seq<char>> {
    match o {
        Some(s) => Some(s@),
        None => None,
    }
}

/// A copy of an optional string.
pub fn copy_text(o: &Option<String>) -> (r: Option<String>)
    ensures
        r == *o,
{
    match o {
        Some(s) => Some(s.clone()),
        None => None,
    }
}

/// Whether two optional strings hold the same text.
pub fn same_text(a: &Option<String>, b: &Option<String>) -> (r: bool)
    ensures
        r == (opt_text(*a) == opt_text(*b)),
{
    match (a, b) {
        (Some(x), Some(y)) => same(x.as_str(), y.as_str()),
        (None, None) => true,
        _ => false,
    }
}

// ---------- order ----------

/// Whether `a` comes before `b` in the order of the characters' numbers, or is the same.
pub open spec fn text_le(a: Seq<char>, b: Seq<char>) -> bool
    decreases a.len(),
{
    if a.len() == 0 {
        true
    } else if b.len() == 0 {
        false
    } else if a[0] != b[0] {
        a[0] < b[0]
    } else {
        text_le(a.skip(1), b.skip(1))
    }
}

/// Of two texts one comes before the other.
pub proof fn lemma_text_le_total(a: Seq<char>, b: Seq<char>)
    ensures
        text_le(a, b) || text_le(b, a),
    decreases a.len(),
{
    if a.len() > 0 && b.len() > 0 && a[0] == b[0] {
        lemma_text_le_total(a.skip(1), b.skip(1));
    }
}

/// What comes before something comes before all that comes after that.
pub proof fn lemma_text_le_transitive(a: Seq<char>, b: Seq<char>, c: Seq<char>)
    requires
        text_le(a, b),
        text_le(b, c),
    ensures
        text_le(a, c),
    decreases a.len(),
{
    if a.len() > 0 && a[0] == b[0] && b[0] == c[0] {
        lemma_text_le_transitive(a.skip(1), b.skip(1), c.skip(1));
    }
}

/// Two texts that come before each other are the same.
pub proof fn lemma_text_le_antisymmetric(a: Seq<char>, b: Seq<char>)
    requires
        text_le(a, b),
        text_le(b, a),
    ensures
        a == b,
    decreases a.len(),
{
    if a.len() > 0 && b.len() > 0 {
        lemma_text_le_antisymmetric(a.skip(1), b.skip(1));
        assert(a =~= seq![a[0]] + a.skip(1));
        assert(b =~= seq![b[0]] + b.skip(1));
    } else {
        assert(a =~= b);
    }
}

/// Whether `a` comes before `b`, or is the same.
pub fn in_order(a: &str, b: &str) -> (r: bool)
    ensures
        r == text_le(a@, b@),
{
    let x = chars_of(a);
    let y = chars_of(b);
    let mut i: usize = 0;
    assert(x@.skip(0) =~= x@);
    assert(y@.skip(0) =~= y@);
    while i < x.len() && i < y.len() && x[i] == y[i]
        invariant
            i <= x@.len(),
            i <= y@.len(),
            text_le(x@, y@) == text_le(x@.skip(i as int), y@.skip(i as int)),
        decreases x@.len() - i,
    {
        assert(x@.skip(i as int).skip(1) =~= x@.skip(i + 1));
        assert(y@.skip(i as int).skip(1) =~= y@.skip(i + 1));
        i = i + 1;
    }
    if i >= x.len() {
        true
    } else if i >= y.len() {
        false
    } else {
        x[i] < y[i]
    }
}

// ---------- laws of texts ----------

/// White space is the tabs, the line and page breaks, and the blanks of Unicode:
/// these twenty-five characters and no others.
pub proof fn white_space_is_blanks_and_breaks(c: char)
    ensures
        white_space(c) <==> seq![
            9u32,
            10,
            11,
            12,
            13,
            32,
            133,
            160,
            5760,
            8192,
            8193,
            8194,
            8195,
            8196,
            8197,
            8198,
            8199,
            8200,
            8201,
            8202,
            8232,
            8233,
            8239,
            8287,
            12288,
        ].contains(c as u32),
{
    let w = seq![
        9u32,
        10,
        11,
        12,
        13,
        32,
        133,
        160,
        5760,
        8192,
        8193,
        8194,
        8195,
        8196,
        8197,
        8198,
        8199,
        8200,
        8201,
        8202,
        8232,
        8233,
        8239,
        8287,
        12288,
    ];
    let n = c as u32;
    assert(w[0] == 9 && w[1] == 10 && w[2] == 11 && w[3] == 12 && w[4] == 13 && w[5] == 32 && w[6]
        == 133 && w[7] == 160 && w[8] == 5760);
    assert(w[9] == 8192 && w[10] == 8193 && w[11] == 8194 && w[12] == 8195 && w[13] == 8196 && w[14]
        == 8197 && w[15] == 8198 && w[16] == 8199 && w[17] == 8200 && w[18] == 8201 && w[19]
        == 8202);
    assert(w[20] == 8232 && w[21] == 8233 && w[22] == 8239 && w[23] == 8287 && w[24] == 12288);
    if w.contains(n) {
        let i = choose|i: int| 0 <= i < w.len() && w[i] == n;
        assert(white_space(c));
    }
}

/// The control characters come before the blank, or are the delete character or one
/// of the 32 after it; no letter, digit or other printable character is one.
pub proof fn control_characters_come_first(c: char)
    ensures
        c < ' ' ==> control(c),
        ' ' <= c && c <= '~' ==> !control(c),
        c as u32 == 127 ==> control(c),
        128 <= c as u32 && (c as u32) < 160 ==> control(c),
        c as u32 >= 160 ==> !control(c),
{
}

/// The letters and digits of ASCII are those from `0` to `9`, from `A` to `Z` and
/// from `a` to `z`.
pub proof fn letters_and_digits(c: char)
    ensures
        48 <= c as u32 && c as u32 <= 57 ==> ascii_alphanumeric(c),
        65 <= c as u32 && c as u32 <= 90 ==> ascii_alphanumeric(c),
        97 <= c as u32 && c as u32 <= 122 ==> ascii_alphanumeric(c),
        ascii_alphanumeric(c) ==> 48 <= c as u32 && c as u32 <= 122 && !(58 <= c as u32 && c as u32
            <= 64) && !(91 <= c as u32 && c as u32 <= 96),
{
}

/// Trimming cuts white space off both ends, all of it and nothing else: what is
/// left is the part from `r.0` to `r.1`, before and after which all is white space,
/// and which neither starts nor ends with it.
pub proof fn trimming_cuts_white_space(s: Seq<char>) -> (r: (int, int))
    ensures
        0 <= r.0 <= r.1 <= s.len(),
        trim(s) == s.subrange(r.0, r.1),
        forall|i: int| 0 <= i < r.0 ==> white_space(#[trigger] s[i]),
        forall|i: int| r.1 <= i < s.len() ==> white_space(#[trigger] s[i]),
        r.0 < r.1 ==> !white_space(s[r.0]) && !white_space(s[r.1 - 1]),
{
    let a = lemma_trim_start_part(s);
    let t = trim_start(s);
    lemma_trim_end_done(t);
    lemma_trim_end_rest(t);
    let b = a + trim_end(t).len();
    assert(s.subrange(a, b) =~= trim(s));
    assert forall|i: int| b <= i < s.len() implies white_space(#[trigger] s[i]) by {
        assert(s[i] == t[i - a]);
    }
    if a < b {
        assert(s[a] == t[0]);
        assert(s[b - 1] == trim_end(t).last());
    }
    (a, b)
}

proof fn lemma_trim_start_part(s: Seq<char>) -> (a: int)
    ensures
        0 <= a <= s.len(),
        trim_start(s) == s.skip(a),
        forall|i: int| 0 <= i < a ==> white_space(#[trigger] s[i]),
        a < s.len() ==> !white_space(s[a]),
    decreases s.len(),
{
    if s.len() > 0 && white_space(s[0]) {
        let rest = s.skip(1);
        let a = lemma_trim_start_part(rest);
        assert(s.skip(a + 1) =~= rest.skip(a));
        assert forall|i: int| 0 <= i < a + 1 implies white_space(#[trigger] s[i]) by {
            if i > 0 {
                assert(s[i] == rest[i - 1]);
            }
        }
        if a + 1 < s.len() {
            assert(s[a + 1] == rest[a]);
        }
        a + 1
    } else {
        assert(s.skip(0) =~= s);
        0
    }
}

proof fn lemma_trim_end_rest(s: Seq<char>)
    ensures
        forall|i: int| trim_end(s).len() <= i < s.len() ==> white_space(#[trigger] s[i]),
    decreases s.len(),
{
    if s.len() > 0 && white_space(s.last()) {
        let d = s.drop_last();
        lemma_trim_end_rest(d);
        assert forall|i: int| trim_end(s).len() <= i < s.len() implies white_space(
            #[trigger] s[i],
        ) by {
            if i < s.len() - 1 {
                assert(s[i] == d[i]);
            }
        }
    }
}

/// What neither starts nor ends with white space is not changed by trimming.
pub proof fn trimmed_stays(s: Seq<char>)
    requires
        s.len() > 0 ==> !white_space(s[0]) && !white_space(s.last()),
    ensures
        trim(s) == s,
{
}

/// White space around a text makes no difference once it is trimmed.
pub proof fn white_space_around_is_cut(a: Seq<char>, s: Seq<char>, b: Seq<char>)
    requires
        blank(a),
        blank(b),
        s.len() > 0,
        !white_space(s[0]),
        !white_space(s.last()),
    ensures
        trim(a + s + b) == s,
{
    let t = a + s + b;
    let (i, j) = trimming_cuts_white_space(t);
    let n = a.len() as int;
    let m = n + s.len();
    assert(t[n] == s[0]);
    assert(t[m - 1] == s.last());
    assert(i <= n);
    assert(j >= m);
    if i < n {
        assert(t[i] == a[i]);
    }
    if j > m {
        assert(t[j - 1] == b[j - 1 - m]);
    }
    assert(t.subrange(n, m) =~= s);
}

/// The last place of a character holds it, and no later one does; where there is
/// none, no place holds it.
pub proof fn last_place_is_last(s: Seq<char>, c: char)
    ensures
        -1 <= last_at(s, c) < s.len(),
        last_at(s, c) >= 0 ==> s[last_at(s, c)] == c,
        forall|i: int| last_at(s, c) < i < s.len() ==> #[trigger] s[i] != c,
    decreases s.len(),
{
    if s.len() > 0 && s.last() != c {
        let d = s.drop_last();
        last_place_is_last(d, c);
        assert forall|i: int| last_at(s, c) < i < s.len() implies #[trigger] s[i] != c by {
            if i < s.len() - 1 {
                assert(s[i] == d[i]);
            }
        }
    }
}

/// The first place of a pattern holds it, and no earlier one does; where there is
/// none, no place holds it.
pub proof fn first_match_is_first(s: Seq<char>, from: int, pat: Seq<char>)
    requires
        0 <= from <= s.len() + 1,
    ensures
        find_from(s, from, pat) == -1 || from <= find_from(s, from, pat) <= s.len() - pat.len(),
        find_from(s, from, pat) >= 0 ==> s.subrange(
            find_from(s, from, pat),
            find_from(s, from, pat) + pat.len(),
        ) == pat,
        forall|i: int|
            #![trigger s.subrange(i, i + pat.len())]
            from <= i <= s.len() - pat.len() && (find_from(s, from, pat) < 0 || i < find_from(
                s,
                from,
                pat,
            )) ==> s.subrange(i, i + pat.len()) != pat,
    decreases s.len() + 1 - from,
{
    if from <= s.len() && !matches_at(s, from, pat) {
        first_match_is_first(s, from + 1, pat);
    }
}

proof fn lemma_next_at_shift(a: Seq<char>, b: Seq<char>, from: int, c: char)
    requires
        0 <= from <= b.len(),
    ensures
        next_at(a + b, a.len() + from, c) == a.len() + next_at(b, from, c),
    decreases b.len() - from,
{
    if from < b.len() {
        assert((a + b)[a.len() + from] == b[from]);
        if b[from] != c {
            lemma_next_at_shift(a, b, from + 1, c);
        }
    }
}

proof fn lemma_split_shift(a: Seq<char>, b: Seq<char>, from: int, sep: char)
    requires
        0 <= from <= b.len(),
    ensures
        split_from(a + b, a.len() + from, sep) == split_from(b, from, sep),
    decreases b.len() - from,
{
    let s = a + b;
    let n = a.len() as int;
    lemma_next_at_shift(a, b, from, sep);
    lemma_next_at(b, from, sep);
    let end = next_at(b, from, sep);
    if end >= b.len() {
        assert(s.subrange(n + from, s.len() as int) =~= b.subrange(from, b.len() as int));
    } else {
        assert(s.subrange(n + from, n + end) =~= b.subrange(from, end));
        lemma_split_shift(a, b, end + 1, sep);
    }
}

proof fn lemma_next_at_here(a: Seq<char>, c: char, b: Seq<char>)
    requires
        forall|i: int| 0 <= i < a.len() ==> a[i] != c,
    ensures
        next_at(a + seq![c] + b, 0, c) == a.len(),
{
    let s = a + seq![c] + b;
    lemma_next_at(s, 0, c);
    let at = next_at(s, 0, c);
    assert(s[a.len() as int] == c);
    if at < a.len() {
        assert(s[at] == a[at]);
    }
}

/// A text is split at each separator: what comes before the first is the first
/// part, and what comes after it is split in turn.
pub proof fn splitting_goes_by_separators(a: Seq<char>, b: Seq<char>, sep: char)
    requires
        forall|i: int| 0 <= i < a.len() ==> a[i] != sep,
    ensures
        split(a, sep) == seq![a],
        split(a + seq![sep] + b, sep) == seq![a] + split(b, sep),
{
    lemma_split_none(a, sep);
    let s = a + seq![sep] + b;
    lemma_next_at_here(a, sep, b);
    assert(s.subrange(0, a.len() as int) =~= a);
    lemma_split_shift(a + seq![sep], b, 0, sep);
    assert(split_from(s, a.len() as int + 1, sep) == split(b, sep));
}

proof fn lemma_lines_shift(a: Seq<char>, b: Seq<char>, from: int)
    requires
        0 <= from <= b.len(),
    ensures
        lines_from(a + b, a.len() + from) == lines_from(b, from),
    decreases b.len() - from,
{
    let s = a + b;
    let n = a.len() as int;
    lemma_next_at_shift(a, b, from, '\n');
    lemma_next_at(b, from, '\n');
    let end = next_at(b, from, '\n');
    if from < b.len() {
        if end >= b.len() {
            assert(s.subrange(n + from, s.len() as int) =~= b.subrange(from, b.len() as int));
        } else {
            assert(s.subrange(n + from, n + end) =~= b.subrange(from, end));
            lemma_lines_shift(a, b, end + 1);
        }
    }
}

/// The lines of a text: each ends at a line feed, and what follows it has lines of
/// its own. One carriage return before the line feed is no part of the line. What
/// has no line feed is one line as it is, or none where it is empty.
pub proof fn lines_end_at_line_feeds(a: Seq<char>, b: Seq<char>)
    requires
        forall|i: int| 0 <= i < a.len() ==> a[i] != '\n',
    ensures
        lines(Seq::<char>::empty()) == Seq::<Seq<char>>::empty(),
        a.len() > 0 ==> lines(a) == seq![a],
        a.len() == 0 || a.last() != '\r' ==> lines(a + seq!['\n'] + b) == seq![a] + lines(b),
        lines(a + seq!['\r'] + seq!['\n'] + b) == seq![a] + lines(b),
{
    lemma_next_at(a, 0, '\n');
    assert(next_at(a, 0, '\n') == a.len());
    assert(a.subrange(0, a.len() as int) =~= a);
    let s = a + seq!['\n'] + b;
    lemma_next_at_here(a, '\n', b);
    assert(s.subrange(0, a.len() as int) =~= a);
    lemma_lines_shift(a + seq!['\n'], b, 0);
    assert(lines_from(s, a.len() as int + 1) == lines(b));
    let c = a + seq!['\r'];
    let t = c + seq!['\n'] + b;
    lemma_next_at_here(c, '\n', b);
    assert(t.subrange(0, c.len() as int) =~= c);
    assert(c.drop_last() =~= a);
    lemma_lines_shift(c + seq!['\n'], b, 0);
    assert(lines_from(t, c.len() as int + 1) == lines(b));
}

/// The last component of a path is what follows its last separator, whichever of
/// the two that is; a path without separators is its own last component.
pub proof fn last_component_follows_the_separator(d: Seq<char>, s: Seq<char>)
    requires
        forall|i: int| 0 <= i < s.len() ==> #[trigger] s[i] != '/' && s[i] != '\\',
    ensures
        base_name(s) == s,
        base_name(d + seq!['/'] + s) == s,
        base_name(d + seq!['\\'] + s) == s,
    decreases s.len(),
{
    let a = d + seq!['/'] + s;
    let b = d + seq!['\\'] + s;
    if s.len() == 0 {
        assert(a.last() == '/');
        assert(b.last() == '\\');
        assert(s =~= seq![]);
    } else {
        let t = s.drop_last();
        assert forall|i: int| 0 <= i < t.len() implies #[trigger] t[i] != '/' && t[i] != '\\' by {
            assert(t[i] == s[i]);
        }
        last_component_follows_the_separator(d, t);
        assert(s[s.len() - 1] == s.last());
        assert(a.drop_last() =~= d + seq!['/'] + t);
        assert(b.drop_last() =~= d + seq!['\\'] + t);
        assert(t.push(s.last()) =~= s);
    }
}

/// Texts are ordered by the first character in which they differ; a text comes
/// before every longer one that starts with it.
pub proof fn first_difference_orders(p: Seq<char>, a: char, x: Seq<char>, b: char, y: Seq<char>)
    ensures
        a != b ==> text_le(p + seq![a] + x, p + seq![b] + y) == (a < b),
        text_le(p, p + y),
        x.len() > 0 ==> !text_le(p + x, p),
    decreases p.len(),
{
    let s = p + seq![a] + x;
    let t = p + seq![b] + y;
    if p.len() == 0 {
        assert(s[0] == a);
        assert(t[0] == b);
    } else {
        first_difference_orders(p.skip(1), a, x, b, y);
        assert(s.skip(1) =~= p.skip(1) + seq![a] + x);
        assert(t.skip(1) =~= p.skip(1) + seq![b] + y);
        assert((p + y).skip(1) =~= p.skip(1) + y);
        assert((p + x).skip(1) =~= p.skip(1) + x);
    }
}

/// The lowercase of an ASCII text has its length; each of the letters from `A` to
/// `Z` becomes the small one, 32 places on, and every other character stays.
pub proof fn lowercase_changes_capitals(s: Seq<char>, i: int)
    requires
        is_ascii_chars(s),
        0 <= i < s.len(),
    ensures
        lowercase(s).len() == s.len(),
        65 <= s[i] as u32 && s[i] as u32 <= 90 ==> lowercase(s)[i] as u32 == s[i] as u32 + 32,
        !(65 <= s[i] as u32 && s[i] as u32 <= 90) ==> lowercase(s)[i] == s[i],
{
}

} // verus!
