//! The small part of HTTP that devices speak with each other.

use crate::numbers::{dec, decimal, parse_unsigned, read_decimal, read_u16};
use crate::strmap::StrMap;
use crate::text::{
    ascii_lower, chars_of, find_next, is_white_space, lossy_text, lower, lowercase, next_at, same,
    slice_of, split, split_chars, string_of, text_of_bytes, texts, trim, trim_chars, trim_start,
    white_space,
};
use crate::url::{encoded, encoded_is_plain};
use vstd::prelude::*;
use vstd::slice::*;
use vstd::string::*;
use vstd::utf8::*;

verus! {

/// The largest head of a request or a response.
pub const MAX_HEAD: usize = 65536;

// ---------- searching bytes ----------

/// Whether `needle` stands in `hay` at `at`.
pub open spec fn found_at(hay: Seq<u8>, needle: Seq<u8>, at: int) -> bool {
    0 <= at && at + needle.len() <= hay.len() && hay.subrange(at, at + needle.len()) == needle
}

/// The first place of `needle` in `haystack`.
pub fn find_subslice(haystack: &[u8], needle: &[u8]) -> (r: Option<usize>)
    requires
        needle@.len() > 0,
    ensures
        match r {
            Some(i) => found_at(haystack@, needle@, i as int) && forall|j: int|
                0 <= j < i ==> !found_at(haystack@, needle@, j),
            None => forall|j: int| !found_at(haystack@, needle@, j),
        },
{
    let n: usize = haystack.len();
    let m: usize = needle.len();
    if m > n {
        return None;
    }
    let mut i: usize = 0;
    while i <= n - m
        invariant
            n == haystack@.len(),
            m == needle@.len(),
            0 < m <= n,
            i <= n - m + 1,
            forall|j: int| 0 <= j < i ==> !found_at(haystack@, needle@, j),
        decreases n - m + 1 - i,
    {
        let mut k: usize = 0;
        while k < m && haystack[i + k] == needle[k]
            invariant
                n == haystack@.len(),
                m == needle@.len(),
                i <= n - m,
                m <= n,
                k <= m,
                forall|j: int| 0 <= j < k ==> haystack@[i + j] == needle@[j],
            decreases m - k,
        {
            k = k + 1;
        }
        if k == m {
            assert(haystack@.subrange(i as int, i + m) =~= needle@);
            return Some(i);
        }
        assert(haystack@.subrange(i as int, i + m)[k as int] != needle@[k as int]);
        i = i + 1;
    }
    None
}

/// The bytes that end a head: an empty line.
pub open spec fn head_mark() -> Seq<u8> {
    seq![0x0Du8, 0x0A, 0x0D, 0x0A]
}

/// What is to be done with the bytes of a head that have come in so far.
pub enum HeadProgress {
    /// The head is complete: it ends at this place.
    Complete(usize),
    /// The head is longer than any that is accepted.
    TooLarge,
    /// More is to be read.
    More,
}

/// Whether the head in `buf` is complete.
pub fn head_progress(buf: &Vec<u8>) -> (r: HeadProgress)
    ensures
        match r {
            HeadProgress::Complete(n) => found_at(buf@, head_mark(), n as int) && forall|j: int|
                0 <= j < n ==> !found_at(buf@, head_mark(), j),
            HeadProgress::TooLarge => buf@.len() > MAX_HEAD && forall|j: int|
                !found_at(buf@, head_mark(), j),
            HeadProgress::More => buf@.len() <= MAX_HEAD && forall|j: int|
                !found_at(buf@, head_mark(), j),
        },
{
    let mark: [u8; 4] = [0x0D, 0x0A, 0x0D, 0x0A];
    assert(mark@ =~= head_mark());
    match find_subslice(buf.as_slice(), &mark) {
        Some(n) => HeadProgress::Complete(n),
        None => if buf.len() > MAX_HEAD {
            HeadProgress::TooLarge
        } else {
            HeadProgress::More
        },
    }
}

// ---------- lines and words ----------

/// The first place at or after `from` of a carriage return and a line feed; the
/// length where there is none.
pub open spec fn next_crlf(s: Seq<char>, from: int) -> int
    decreases s.len() - from,
{
    if from + 1 >= s.len() {
        s.len() as int
    } else if s[from] == '\r' && s[from + 1] == '\n' {
        from
    } else {
        next_crlf(s, from + 1)
    }
}

proof fn lemma_next_crlf(s: Seq<char>, from: int)
    requires
        from <= s.len(),
    ensures
        from <= next_crlf(s, from) <= s.len(),
        next_crlf(s, from) < s.len() ==> next_crlf(s, from) + 2 <= s.len(),
    decreases s.len() - from,
{
    if from + 1 < s.len() && !(s[from] == '\r' && s[from + 1] == '\n') {
        lemma_next_crlf(s, from + 1);
    }
}

/// The lines of a head from `from` on.
pub open spec fn crlf_lines_from(s: Seq<char>, from: int) -> Seq<Seq<char>>
    decreases s.len() - from,
    via crlf_lines_decreases
{
    let end = next_crlf(s, from);
    if from > s.len() || end >= s.len() {
        seq![s.subrange(from, s.len() as int)]
    } else {
        seq![s.subrange(from, end)] + crlf_lines_from(s, end + 2)
    }
}

#[via_fn]
proof fn crlf_lines_decreases(s: Seq<char>, from: int) {
    if from <= s.len() {
        lemma_next_crlf(s, from);
    }
}

/// The lines of a head.
pub open spec fn crlf_lines(s: Seq<char>) -> Seq<Seq<char>> {
    crlf_lines_from(s, 0)
}

/// The lines of a head.
fn split_crlf(v: &Vec<char>) -> (r: Vec<Vec<char>>)
    ensures
        texts(r@) == crlf_lines(v@),
        r@.len() >= 1,
{
    let n: usize = v.len();
    let mut out: Vec<Vec<char>> = Vec::new();
    let mut from: usize = 0;
    assert(texts(out@) =~= Seq::<Seq<char>>::empty());
    assert(Seq::<Seq<char>>::empty() + crlf_lines_from(v@, 0) =~= crlf_lines_from(v@, 0));
    loop
        invariant_except_break
            n == v@.len(),
            from <= n,
            crlf_lines(v@) == texts(out@) + crlf_lines_from(v@, from as int),
        ensures
            crlf_lines(v@) == texts(out@),
            out@.len() >= 1,
        decreases n - from,
    {
        let mut end: usize = from;
        while end < n && n - end > 1 && !(v[end] == '\r' && v[end + 1] == '\n')
            invariant
                n == v@.len(),
                from <= end <= n,
                next_crlf(v@, from as int) == next_crlf(v@, end as int),
            decreases n - end,
        {
            end = end + 1;
        }
        if n - end <= 1 {
            end = n;
        }
        proof {
            lemma_next_crlf(v@, from as int);
        }
        assert(end == next_crlf(v@, from as int));
        let part = slice_of(v, from, end);
        let ghost before = texts(out@);
        let ghost p = part@;
        out.push(part);
        assert(texts(out@) =~= before.push(p));
        if end >= n {
            assert(before + seq![p] =~= before.push(p));
            break;
        }
        assert(before + (seq![p] + crlf_lines_from(v@, end + 2)) =~= before.push(p)
            + crlf_lines_from(v@, end + 2));
        from = end + 2;
    }
    out
}

/// The first place at or after `from` that holds no white space.
pub open spec fn skip_white(s: Seq<char>, from: int) -> int
    decreases s.len() - from,
{
    if from < s.len() && white_space(s[from]) {
        skip_white(s, from + 1)
    } else {
        from
    }
}

/// The first place at or after `from` that holds white space; the length where
/// there is none.
pub open spec fn skip_word(s: Seq<char>, from: int) -> int
    decreases s.len() - from,
{
    if from < s.len() && !white_space(s[from]) {
        skip_word(s, from + 1)
    } else {
        from
    }
}

proof fn lemma_skips(s: Seq<char>, from: int)
    requires
        from <= s.len(),
    ensures
        from <= skip_white(s, from) <= s.len(),
        from <= skip_word(s, from) <= s.len(),
        skip_white(s, from) < s.len() ==> !white_space(s[skip_white(s, from)]),
    decreases s.len() - from,
{
    if from < s.len() {
        lemma_skips(s, from + 1);
    }
}

/// The words of `s` from `from` on, parted by white space.
pub open spec fn words_from(s: Seq<char>, from: int) -> Seq<Seq<char>>
    decreases s.len() - from,
    via words_decreases
{
    let a = skip_white(s, from);
    let b = skip_word(s, a);
    if from >= s.len() || a >= s.len() {
        seq![]
    } else {
        seq![s.subrange(a, b)] + words_from(s, b)
    }
}

#[via_fn]
proof fn words_decreases(s: Seq<char>, from: int) {
    if from < s.len() {
        lemma_skips(s, from);
        let a = skip_white(s, from);
        if a < s.len() {
            lemma_skips(s, a + 1);
        }
    }
}

/// The words of `s`.
pub open spec fn words(s: Seq<char>) -> Seq<Seq<char>> {
    words_from(s, 0)
}

/// The words of a line.
fn split_words(v: &Vec<char>) -> (r: Vec<Vec<char>>)
    ensures
        texts(r@) == words(v@),
{
    let mut out: Vec<Vec<char>> = Vec::new();
    let mut from: usize = 0;
    assert(texts(out@) =~= Seq::<Seq<char>>::empty());
    assert(Seq::<Seq<char>>::empty() + words_from(v@, 0) =~= words_from(v@, 0));
    while from < v.len()
        invariant
            from <= v@.len(),
            words(v@) == texts(out@) + words_from(v@, from as int),
        decreases v@.len() - from,
    {
        let mut a: usize = from;
        while a < v.len() && is_white_space(v[a])
            invariant
                from <= a <= v@.len(),
                skip_white(v@, from as int) == skip_white(v@, a as int),
            decreases v@.len() - a,
        {
            a = a + 1;
        }
        let ghost before = texts(out@);
        if a >= v.len() {
            assert(before + Seq::<Seq<char>>::empty() =~= before);
            return out;
        }
        let mut b: usize = a;
        while b < v.len() && !is_white_space(v[b])
            invariant
                a <= b <= v@.len(),
                skip_word(v@, a as int) == skip_word(v@, b as int),
                a < v@.len(),
                !white_space(v@[a as int]),
            decreases v@.len() - b,
        {
            b = b + 1;
        }
        let part = slice_of(v, a, b);
        let ghost p = part@;
        out.push(part);
        assert(texts(out@) =~= before.push(p));
        assert(before + (seq![p] + words_from(v@, b as int)) =~= before.push(p) + words_from(
            v@,
            b as int,
        ));
        from = b;
    }
    assert(texts(out@) + Seq::<Seq<char>>::empty() =~= texts(out@));
    out
}

// ---------- writing heads ----------

/// The views of several strings.
pub open spec fn string_views(v: Seq<String>) -> Seq<Seq<char>> {
    v.map_values(|s: String| s@)
}

/// Lines, parted by a carriage return and a line feed.
pub open spec fn lines_text(lines: Seq<Seq<char>>) -> Seq<char>
    decreases lines.len(),
{
    if lines.len() == 0 {
        seq![]
    } else if lines.len() == 1 {
        lines[0]
    } else {
        lines_text(lines.drop_last()) + seq!['\r', '\n'] + lines.last()
    }
}

/// A head: its lines, then an empty one.
pub open spec fn head_text(lines: Seq<Seq<char>>) -> Seq<char> {
    lines_text(lines) + seq!['\r', '\n', '\r', '\n']
}

/// A head: its lines, then an empty one.
pub fn text_of_head(lines: &Vec<String>) -> (r: String)
    ensures
        r@ == head_text(string_views(lines@)),
{
    let mut out = String::new();
    let ghost all = string_views(lines@);
    let mut i: usize = 0;
    assert(out@ =~= lines_text(all.take(0)));
    while i < lines.len()
        invariant
            i <= lines@.len(),
            all == string_views(lines@),
            out@ == lines_text(all.take(i as int)),
        decreases lines@.len() - i,
    {
        if i > 0 {
            out.push('\r');
            out.push('\n');
        }
        out.append(lines[i].as_str());
        assert(all.take(i + 1).drop_last() =~= all.take(i as int));
        assert(all.take(i + 1).last() == lines@[i as int]@);
        assert(out@ =~= lines_text(all.take(i + 1)));
        i = i + 1;
    }
    assert(all.take(i as int) =~= all);
    let ghost text = out@;
    out.push('\r');
    out.push('\n');
    out.push('\r');
    out.push('\n');
    assert(out@ =~= text + seq!['\r', '\n', '\r', '\n']);
    out
}

/// Adds bytes at the end.
pub fn append_bytes(out: &mut Vec<u8>, more: &[u8])
    ensures
        final(out)@ == old(out)@ + more@,
{
    let ghost h = out@;
    let mut i: usize = 0;
    assert(h + more@.take(0) =~= h);
    while i < more.len()
        invariant
            i <= more@.len(),
            out@ == h + more@.take(i as int),
        decreases more@.len() - i,
    {
        out.push(more[i]);
        assert(out@ =~= h + more@.take(i + 1));
        i = i + 1;
    }
    assert(more@.take(i as int) =~= more@);
}

// ---------- headers ----------

/// The header that a line holds: the name in small letters, and the value, both
/// trimmed; `None` for a line without a colon.
pub open spec fn header_of_line(line: Seq<char>) -> Option<(Seq<char>, Seq<char>)> {
    let at = next_at(line, 0, ':');
    if at < line.len() {
        Some(
            (
                lowercase(trim(line.subrange(0, at))),
                trim(line.subrange(at + 1, line.len() as int)),
            ),
        )
    } else {
        None
    }
}

/// The headers of some lines; of several with one name the last one counts.
pub open spec fn headers_of(lines: Seq<Seq<char>>) -> Map<Seq<char>, Seq<char>>
    decreases lines.len(),
{
    if lines.len() == 0 {
        Map::empty()
    } else {
        match header_of_line(lines.last()) {
            Some((k, v)) => headers_of(lines.drop_last()).insert(k, v),
            None => headers_of(lines.drop_last()),
        }
    }
}

fn read_header(line: &Vec<char>) -> (r: Option<(String, String)>)
    ensures
        match r {
            Some((k, v)) => header_of_line(line@) == Some((k@, v@)),
            None => header_of_line(line@) is None,
        },
{
    let at = find_next(line, 0, ':');
    if at < line.len() {
        let name = string_of(&trim_chars(&slice_of(line, 0, at)));
        let value = string_of(&trim_chars(&slice_of(line, at + 1, line.len())));
        Some((lower(name.as_str()), value))
    } else {
        None
    }
}

// ---------- requests ----------

/// The head of a request.
pub struct Request {
    pub method: String,
    pub path: String,
    pub query: String,
    pub headers: StrMap<String>,
}

/// The view of the head of a request.
pub struct RequestView {
    pub method: Seq<char>,
    pub path: Seq<char>,
    pub query: Seq<char>,
    pub headers: Map<Seq<char>, Seq<char>>,
}

impl View for Request {
    type V = RequestView;

    open spec fn view(&self) -> RequestView {
        RequestView {
            method: self.method@,
            path: self.path@,
            query: self.query@,
            headers: self.headers@,
        }
    }
}

/// The part of a request's target between its first and its second question mark.
pub open spec fn query_part(target: Seq<char>) -> Seq<char> {
    let parts = split(target, '?');
    if parts.len() > 1 {
        parts[1]
    } else {
        seq![]
    }
}

/// What a head says as a request: nothing where the first line has no word, or where
/// something is to be got and no target is given. For the methods that are served,
/// the second word is the target.
pub open spec fn request_of(head: Seq<char>) -> Option<RequestView> {
    let lines = crlf_lines(head);
    let first = words(lines[0]);
    if first.len() == 0 {
        None
    } else if first[0] != "GET"@ && (first[0] != "POST"@ || first.len() == 1) {
        Some(
            RequestView {
                method: first[0],
                path: seq![],
                query: seq![],
                headers: Map::empty(),
            },
        )
    } else if first.len() == 1 {
        None
    } else {
        Some(
            RequestView {
                method: first[0],
                path: split(first[1], '?')[0],
                query: query_part(first[1]),
                headers: headers_of(lines.skip(1)),
            },
        )
    }
}

/// Reads the head of a request.
pub fn read_request(head: &[u8]) -> (r: Option<Request>)
    ensures
        match r {
            Some(q) => request_of(lossy_text(head@)) == Some(q@),
            None => request_of(lossy_text(head@)) is None,
        },
{
    let text = text_of_bytes(head);
    let lines = split_crlf(&chars_of(text.as_str()));
    let ghost all = texts(lines@);
    assert(all[0] == lines@[0]@);
    let first = split_words(&lines[0]);
    let ghost w = texts(first@);
    if first.len() == 0 {
        return None;
    }
    assert(w[0] == first@[0]@);
    let method = string_of(&first[0]);
    if !same(method.as_str(), "GET") && (!same(method.as_str(), "POST") || first.len() == 1) {
        let empty: StrMap<String> = StrMap::new();
        let q = Request { method: method, path: String::new(), query: String::new(), headers: empty };
        return Some(q);
    }
    if first.len() == 1 {
        return None;
    }
    assert(w[1] == first@[1]@);
    let target = split_chars(&first[1], '?');
    let ghost t = texts(target@);
    assert(t[0] == target@[0]@);
    let path = string_of(&target[0]);
    let query = if target.len() > 1 {
        assert(t[1] == target@[1]@);
        string_of(&target[1])
    } else {
        String::new()
    };
    let mut headers: StrMap<String> = StrMap::new();
    let mut i: usize = 1;
    let ghost tail = all.skip(1);
    assert(tail.take(0) =~= Seq::<Seq<char>>::empty());
    while i < lines.len()
        invariant
            1 <= i <= lines@.len(),
            all == texts(lines@),
            tail == all.skip(1),
            headers@ == headers_of(tail.take(i - 1)),
        decreases lines@.len() - i,
    {
        assert(tail.take(i as int).drop_last() =~= tail.take(i - 1));
        assert(tail.take(i as int).last() == lines@[i as int]@);
        match read_header(&lines[i]) {
            Some((k, v)) => {
                headers.insert(k, v);
            },
            None => {},
        }
        i = i + 1;
    }
    assert(tail.take(i - 1) =~= tail);
    Some(Request { method: method, path: path, query: query, headers: headers })
}

// ---------- responses ----------

/// The words for a status.
pub open spec fn reason(code: u16) -> Seq<char> {
    if code == 200 {
        "OK"@
    } else if code == 400 {
        "Bad Request"@
    } else if code == 401 {
        "Unauthorized"@
    } else if code == 403 {
        "Forbidden"@
    } else if code == 404 {
        "Not Found"@
    } else if code == 405 {
        "Method Not Allowed"@
    } else if code == 409 {
        "Conflict"@
    } else {
        "Error"@
    }
}

/// The words for a status.
pub fn http_reason(code: u16) -> (r: &'static str)
    ensures
        r@ == reason(code),
{
    if code == 200 {
        "OK"
    } else if code == 400 {
        "Bad Request"
    } else if code == 401 {
        "Unauthorized"
    } else if code == 403 {
        "Forbidden"
    } else if code == 404 {
        "Not Found"
    } else if code == 405 {
        "Method Not Allowed"
    } else if code == 409 {
        "Conflict"
    } else {
        "Error"
    }
}

/// The lines of the head of a response.
pub open spec fn response_lines(code: u16, content_type: Seq<char>, len: nat) -> Seq<Seq<char>> {
    seq![
        "HTTP/1.1 "@ + dec(code as nat) + " "@ + reason(code),
        "Content-Type: "@ + content_type + "; charset=utf-8"@,
        "Content-Length: "@ + dec(len),
        "Connection: close"@,
    ]
}

/// The head of a response.
pub open spec fn response_head(code: u16, content_type: Seq<char>, len: nat) -> Seq<char> {
    head_text(response_lines(code, content_type, len))
}

/// The bytes of a response: its head, then its body.
pub fn respond(code: u16, content_type: &str, body: &[u8]) -> (r: Vec<u8>)
    requires
        body@.len() <= isize::MAX,
    ensures
        r@ == encode_utf8(response_head(code, content_type@, body@.len())) + body@,
{
    let mut lines: Vec<String> = Vec::new();
    let mut status = "HTTP/1.1 ".to_string();
    status.append(decimal(code as u64).as_str());
    status.append(" ");
    status.append(http_reason(code));
    lines.push(status);
    let mut kind = "Content-Type: ".to_string();
    kind.append(content_type);
    kind.append("; charset=utf-8");
    lines.push(kind);
    let mut size = "Content-Length: ".to_string();
    size.append(decimal(body.len() as u64).as_str());
    lines.push(size);
    lines.push("Connection: close".to_string());
    assert(string_views(lines@) =~= response_lines(code, content_type@, body@.len()));
    let head = text_of_head(&lines);
    let mut out = head.as_str().as_bytes_vec();
    append_bytes(&mut out, body);
    out
}

/// What the client needs of the head of a response.
pub struct ResponseHead {
    pub code: u16,
    pub content_len: Option<u64>,
}

/// The status that a head gives: the second word of the first line; 0 where it is no number.
pub open spec fn status_of(head: Seq<char>) -> u16 {
    let first = words(crlf_lines(head)[0]);
    if first.len() > 1 {
        match parse_unsigned(first[1], 10, u16::MAX as nat) {
            Some(n) => n as u16,
            None => 0,
        }
    } else {
        0
    }
}

/// Whether a line gives the length of the body, in any mixture of letters.
pub open spec fn is_length_line(line: Seq<char>) -> bool {
    let at = next_at(line, 0, ':');
    at < line.len() && trim(line.subrange(0, at)).map_values(|c: char| ascii_lower(c))
        == "content-length"@
}

/// The length of the body as the lines of a head give it: the last line that
/// gives one counts, even where its value is no number.
pub open spec fn content_length(lines: Seq<Seq<char>>) -> Option<nat>
    decreases lines.len(),
{
    if lines.len() == 0 {
        None
    } else if is_length_line(lines.last()) {
        let line = lines.last();
        let at = next_at(line, 0, ':');
        parse_unsigned(trim(line.subrange(at + 1, line.len() as int)), 10, u64::MAX as nat)
    } else {
        content_length(lines.drop_last())
    }
}

fn lower_ascii(v: &Vec<char>) -> (r: Vec<char>)
    ensures
        r@ == v@.map_values(|c: char| ascii_lower(c)),
{
    let mut out: Vec<char> = Vec::new();
    let mut i: usize = 0;
    while i < v.len()
        invariant
            i <= v@.len(),
            out@ == v@.take(i as int).map_values(|c: char| ascii_lower(c)),
        decreases v@.len() - i,
    {
        let c = v[i];
        if 'A' <= c && c <= 'Z' {
            out.push((c as u8 + 32u8) as char);
        } else {
            out.push(c);
        }
        assert(out@ =~= v@.take(i + 1).map_values(|c: char| ascii_lower(c)));
        i = i + 1;
    }
    assert(v@.take(i as int) =~= v@);
    out
}

/// Reads the head of a response.
pub fn read_response_head(head: &[u8]) -> (r: ResponseHead)
    ensures
        r.code == status_of(lossy_text(head@)),
        match content_length(crlf_lines(lossy_text(head@)).skip(1)) {
            Some(n) => r.content_len == Some(n as u64) && n <= u64::MAX,
            None => r.content_len is None,
        },
{
    let text = text_of_bytes(head);
    let lines = split_crlf(&chars_of(text.as_str()));
    let ghost all = texts(lines@);
    assert(all[0] == lines@[0]@);
    let first = split_words(&lines[0]);
    let ghost w = texts(first@);
    let code: u16 = if first.len() > 1 {
        assert(w[1] == first@[1]@);
        match read_u16(string_of(&first[1]).as_str()) {
            Some(n) => n,
            None => 0,
        }
    } else {
        0
    };
    let mut len: Option<u64> = None;
    let mut i: usize = 1;
    let ghost tail = all.skip(1);
    assert(tail.take(0) =~= Seq::<Seq<char>>::empty());
    while i < lines.len()
        invariant
            1 <= i <= lines@.len(),
            all == texts(lines@),
            tail == all.skip(1),
            match content_length(tail.take(i - 1)) {
                Some(n) => len == Some(n as u64) && n <= u64::MAX,
                None => len is None,
            },
        decreases lines@.len() - i,
    {
        let line = &lines[i];
        assert(tail.take(i as int).drop_last() =~= tail.take(i - 1));
        assert(tail.take(i as int).last() == line@);
        let at = find_next(line, 0, ':');
        if at < line.len() {
            let name = string_of(&lower_ascii(&trim_chars(&slice_of(line, 0, at))));
            if same(name.as_str(), "content-length") {
                let value = string_of(&trim_chars(&slice_of(line, at + 1, line.len())));
                len = read_decimal(value.as_str(), u64::MAX);
            }
        }
        i = i + 1;
    }
    assert(tail.take(i - 1) =~= tail);
    ResponseHead { code: code, content_len: len }
}

/// What is to be done with the bytes of an answer that have come in so far.
pub enum AnswerStep {
    /// More is to be read; a failure to read counts as the end where this is set.
    More(bool),
    /// The head is longer than any that is accepted.
    HeadTooLarge,
    /// The other side has closed the connection before the end of the head.
    Closed,
    /// The answer is complete.
    Done(HttpResp),
}

/// An answer: its status and its body.
pub struct HttpResp {
    pub code: u16,
    pub body: Vec<u8>,
}

/// The view of what is to be done with the bytes of an answer.
pub enum AnswerView {
    More(bool),
    HeadTooLarge,
    Closed,
    Done(u16, Seq<u8>),
}

impl View for AnswerStep {
    type V = AnswerView;

    open spec fn view(&self) -> AnswerView {
        match self {
            AnswerStep::More(t) => AnswerView::More(*t),
            AnswerStep::HeadTooLarge => AnswerView::HeadTooLarge,
            AnswerStep::Closed => AnswerView::Closed,
            AnswerStep::Done(r) => AnswerView::Done(r.code, r.body@),
        }
    }
}

/// Where the head ends; -1 where it has no end yet.
pub open spec fn head_end(bytes: Seq<u8>) -> int {
    if exists|n: int| is_head_end(bytes, n) {
        choose|n: int| is_head_end(bytes, n)
    } else {
        -1
    }
}

/// Whether the head ends at `n`: there is the first empty line.
pub open spec fn is_head_end(bytes: Seq<u8>, n: int) -> bool {
    found_at(bytes, head_mark(), n) && forall|j: int| 0 <= j < n ==> !found_at(bytes, head_mark(), j)
}

/// There is one end of the head at most.
pub proof fn lemma_head_end(bytes: Seq<u8>, n: int)
    requires
        is_head_end(bytes, n),
    ensures
        head_end(bytes) == n,
{
    let m = head_end(bytes);
    assert(is_head_end(bytes, m));
    if m < n {
        assert(!found_at(bytes, head_mark(), m));
    } else if n < m {
        assert(!found_at(bytes, head_mark(), n));
    }
}

proof fn lemma_no_head_end(bytes: Seq<u8>)
    requires
        forall|j: int| !found_at(bytes, head_mark(), j),
    ensures
        head_end(bytes) == -1,
{
}

/// What is to be done with the bytes of an answer: its body has the length that
/// the head gives, or else goes on until the other side closes the connection. A
/// body that is cut short is handed over as it is.
pub open spec fn answer_of(bytes: Seq<u8>, closed: bool) -> AnswerView {
    let n = head_end(bytes);
    if n < 0 {
        if bytes.len() > MAX_HEAD {
            AnswerView::HeadTooLarge
        } else if closed {
            AnswerView::Closed
        } else {
            AnswerView::More(false)
        }
    } else {
        let head = lossy_text(bytes.take(n));
        let body = bytes.skip(n + 4);
        match content_length(crlf_lines(head).skip(1)) {
            Some(len) => if body.len() >= len {
                AnswerView::Done(status_of(head), body.take(len as int))
            } else if closed {
                AnswerView::Done(status_of(head), body)
            } else {
                AnswerView::More(false)
            },
            None => if closed {
                AnswerView::Done(status_of(head), body)
            } else {
                AnswerView::More(true)
            },
        }
    }
}

fn bytes_between(v: &Vec<u8>, from: usize, to: usize) -> (r: Vec<u8>)
    requires
        from <= to <= v@.len(),
    ensures
        r@ == v@.subrange(from as int, to as int),
{
    let mut out: Vec<u8> = Vec::new();
    let mut i: usize = from;
    assert(out@ =~= v@.subrange(from as int, from as int));
    while i < to
        invariant
            from <= i <= to <= v@.len(),
            out@ == v@.subrange(from as int, i as int),
        decreases to - i,
    {
        out.push(v[i]);
        assert(out@ =~= v@.subrange(from as int, i + 1));
        i = i + 1;
    }
    out
}

/// Reads an answer from the bytes that have come in so far; `closed` says that no
/// more will come.
pub fn read_answer(bytes: &Vec<u8>, closed: bool) -> (r: AnswerStep)
    ensures
        r@ == answer_of(bytes@, closed),
{
    let total: usize = bytes.len();
    match head_progress(bytes) {
        HeadProgress::Complete(n) => {
            proof {
                lemma_head_end(bytes@, n as int);
            }
            let start: usize = n + 4;
            let text = slice_subrange(bytes.as_slice(), 0, n);
            assert(text@ =~= bytes@.take(n as int));
            let head = read_response_head(text);
            let have: usize = total - start;
            match head.content_len {
                Some(len) => if have as u64 >= len {
                    let body = bytes_between(bytes, start, start + len as usize);
                    assert(body@ =~= bytes@.skip(n + 4).take(len as int));
                    AnswerStep::Done(HttpResp { code: head.code, body: body })
                } else if closed {
                    let body = bytes_between(bytes, start, total);
                    assert(body@ =~= bytes@.skip(n + 4));
                    AnswerStep::Done(HttpResp { code: head.code, body: body })
                } else {
                    AnswerStep::More(false)
                },
                None => if closed {
                    let body = bytes_between(bytes, start, total);
                    assert(body@ =~= bytes@.skip(n + 4));
                    AnswerStep::Done(HttpResp { code: head.code, body: body })
                } else {
                    AnswerStep::More(true)
                },
            }
        },
        HeadProgress::TooLarge => {
            proof {
                lemma_no_head_end(bytes@);
            }
            AnswerStep::HeadTooLarge
        },
        HeadProgress::More => {
            proof {
                lemma_no_head_end(bytes@);
            }
            if closed {
                AnswerStep::Closed
            } else {
                AnswerStep::More(false)
            }
        },
    }
}

/// The largest body of a short answer.
pub const MAX_SHORT_BODY: usize = 1048576;

/// What is to be done with the bytes of a short answer: its body goes on until
/// the other side closes the connection, or until it is too long.
pub open spec fn short_answer_of(bytes: Seq<u8>, closed: bool) -> AnswerView {
    let n = head_end(bytes);
    if n < 0 {
        if bytes.len() > MAX_HEAD {
            AnswerView::HeadTooLarge
        } else if closed {
            AnswerView::Closed
        } else {
            AnswerView::More(false)
        }
    } else {
        let body = bytes.skip(n + 4);
        if closed || body.len() > MAX_SHORT_BODY {
            AnswerView::Done(status_of(lossy_text(bytes.take(n))), body)
        } else {
            AnswerView::More(true)
        }
    }
}

/// Reads a short answer from the bytes that have come in so far; `closed` says
/// that no more will come.
pub fn read_simple_response(bytes: &Vec<u8>, closed: bool) -> (r: AnswerStep)
    ensures
        r@ == short_answer_of(bytes@, closed),
{
    let total: usize = bytes.len();
    match head_progress(bytes) {
        HeadProgress::Complete(n) => {
            proof {
                lemma_head_end(bytes@, n as int);
            }
            let start: usize = n + 4;
            if closed || total - start > MAX_SHORT_BODY {
                let text = slice_subrange(bytes.as_slice(), 0, n);
                assert(text@ =~= bytes@.take(n as int));
                let head = read_response_head(text);
                let body = bytes_between(bytes, start, total);
                assert(body@ =~= bytes@.skip(n + 4));
                AnswerStep::Done(HttpResp { code: head.code, body: body })
            } else {
                AnswerStep::More(true)
            }
        },
        HeadProgress::TooLarge => {
            proof {
                lemma_no_head_end(bytes@);
            }
            AnswerStep::HeadTooLarge
        },
        HeadProgress::More => {
            proof {
                lemma_no_head_end(bytes@);
            }
            if closed {
                AnswerStep::Closed
            } else {
                AnswerStep::More(false)
            }
        },
    }
}

// ---------- what was written is read ----------

/// Whether `s` can stand as one line of a head: it is not empty, holds no end of
/// a line, and does not end with half of one.
pub open spec fn one_line(s: Seq<char>) -> bool {
    &&& s.len() > 0
    &&& s.last() != '\r'
    &&& forall|i: int| 0 <= i < s.len() - 1 && #[trigger] s[i] == '\r' ==> s[i + 1] != '\n'
}

/// Whether each of some texts can stand as one line of a head.
pub open spec fn all_lines(lines: Seq<Seq<char>>) -> bool {
    forall|i: int| 0 <= i < lines.len() ==> one_line(#[trigger] lines[i])
}

proof fn lemma_next_crlf_found(s: Seq<char>, from: int, k: int)
    requires
        0 <= from <= k,
        k + 1 < s.len(),
        s[k] == '\r',
        s[k + 1] == '\n',
        forall|j: int| from <= j < k && #[trigger] s[j] == '\r' ==> s[j + 1] != '\n',
    ensures
        next_crlf(s, from) == k,
    decreases k - from,
{
    if from < k {
        lemma_next_crlf_found(s, from + 1, k);
    }
}

proof fn lemma_next_crlf_absent(s: Seq<char>, from: int)
    requires
        0 <= from,
        forall|j: int| from <= j < s.len() - 1 && #[trigger] s[j] == '\r' ==> s[j + 1] != '\n',
    ensures
        next_crlf(s, from) == s.len(),
    decreases s.len() - from,
{
    if from + 1 < s.len() {
        lemma_next_crlf_absent(s, from + 1);
    }
}

proof fn lemma_next_crlf_shift(s: Seq<char>, from: int, k: int)
    requires
        0 <= from,
        0 <= k,
        from + k <= s.len(),
    ensures
        next_crlf(s, from + k) == from + next_crlf(s.skip(from), k),
    decreases s.len() - from - k,
{
    let t = s.skip(from);
    if k + 1 < t.len() {
        lemma_next_crlf_shift(s, from, k + 1);
    }
}

proof fn lemma_crlf_lines_shift(s: Seq<char>, from: int, k: int)
    requires
        0 <= from,
        0 <= k,
        from + k <= s.len(),
    ensures
        crlf_lines_from(s, from + k) == crlf_lines_from(s.skip(from), k),
    decreases s.len() - from - k,
{
    let t = s.skip(from);
    lemma_next_crlf_shift(s, from, k);
    lemma_next_crlf(t, k);
    let end = next_crlf(t, k);
    if end >= t.len() {
        assert(s.subrange(from + k, s.len() as int) =~= t.subrange(k, t.len() as int));
    } else {
        lemma_crlf_lines_shift(s, from, end + 2);
        assert(s.subrange(from + k, from + end) =~= t.subrange(k, end));
    }
}

proof fn lemma_first_line(a: Seq<char>, rest: Seq<char>)
    requires
        one_line(a),
    ensures
        crlf_lines(a + seq!['\r', '\n'] + rest) == seq![a] + crlf_lines(rest),
{
    let s = a + seq!['\r', '\n'] + rest;
    let k = a.len() as int;
    assert forall|j: int| 0 <= j < k && #[trigger] s[j] == '\r' implies s[j + 1] != '\n' by {
        assert(s[j] == a[j]);
        if j + 1 < k {
            assert(s[j + 1] == a[j + 1]);
        }
    }
    lemma_next_crlf_found(s, 0, k);
    lemma_crlf_lines_shift(s, k + 2, 0);
    assert(s.skip(k + 2) =~= rest);
    assert(s.subrange(0, k) =~= a);
}

proof fn lemma_lines_front(lines: Seq<Seq<char>>)
    requires
        lines.len() >= 2,
    ensures
        lines_text(lines) == lines[0] + seq!['\r', '\n'] + lines_text(lines.skip(1)),
    decreases lines.len(),
{
    let rest = lines.skip(1);
    if lines.len() == 2 {
        assert(lines.drop_last().len() == 1);
        assert(lines_text(lines.drop_last()) == lines[0]);
        assert(lines_text(rest) == lines.last());
    } else {
        lemma_lines_front(lines.drop_last());
        assert(lines.drop_last().skip(1) =~= rest.drop_last());
        assert(rest.last() == lines.last());
        assert(lines_text(lines) =~= lines[0] + seq!['\r', '\n'] + lines_text(rest));
    }
}

/// The lines of a head are read as they were written.
pub proof fn head_lines_read_back(lines: Seq<Seq<char>>)
    requires
        lines.len() > 0,
        all_lines(lines),
    ensures
        crlf_lines(lines_text(lines)) == lines,
    decreases lines.len(),
{
    assert(one_line(lines[0]));
    if lines.len() == 1 {
        let s = lines[0];
        lemma_next_crlf_absent(s, 0);
        assert(s.subrange(0, s.len() as int) =~= s);
        assert(lines =~= seq![s]);
    } else {
        let rest = lines.skip(1);
        assert forall|i: int| 0 <= i < rest.len() implies one_line(#[trigger] rest[i]) by {
            assert(rest[i] == lines[i + 1]);
        }
        lemma_lines_front(lines);
        head_lines_read_back(rest);
        lemma_first_line(lines[0], lines_text(rest));
        assert(lines =~= seq![lines[0]] + rest);
    }
}

/// Whether an empty line starts at the end of a line at `i`.
spec fn mark_in_text(s: Seq<char>, i: int) -> bool {
    0 <= i && i + 4 <= s.len() && s[i] == '\r' && s[i + 1] == '\n' && s[i + 2] == '\r' && s[i + 3]
        == '\n'
}

proof fn lemma_no_mark(lines: Seq<Seq<char>>, i: int)
    requires
        lines.len() > 0,
        all_lines(lines),
        0 <= i < lines_text(lines).len(),
    ensures
        !mark_in_text(head_text(lines), i),
    decreases lines.len(),
{
    let l = lines[0];
    let n = l.len() as int;
    let s = head_text(lines);
    assert(one_line(l));
    if lines.len() == 1 {
        assert(s[i] == l[i]);
        if i + 1 < n {
            assert(s[i + 1] == l[i + 1]);
        }
    } else {
        let rest = lines.skip(1);
        assert forall|j: int| 0 <= j < rest.len() implies one_line(#[trigger] rest[j]) by {
            assert(rest[j] == lines[j + 1]);
        }
        lemma_lines_front(lines);
        let t = head_text(rest);
        assert(s =~= l + seq!['\r', '\n'] + t);
        if i < n {
            assert(s[i] == l[i]);
            if i + 1 < n {
                assert(s[i + 1] == l[i + 1]);
            }
        } else if i == n {
            let r = rest[0];
            assert(one_line(r));
            lemma_text_starts(rest);
            assert(s[i + 2] == t[0]);
            assert(t[0] == r[0]);
            if r[0] == '\r' {
                assert(r.len() > 1);
                assert(s[i + 3] == t[1]);
                assert(t[1] == r[1]);
            }
        } else if i == n + 1 {
            assert(s[i] == '\n');
        } else {
            lemma_no_mark(rest, i - n - 2);
            if mark_in_text(s, i) {
                assert(t[i - n - 2] == s[i]);
                assert(t[i - n - 1] == s[i + 1]);
                assert(t[i - n] == s[i + 2]);
                assert(t[i - n + 1] == s[i + 3]);
            }
        }
    }
}

proof fn lemma_text_starts(lines: Seq<Seq<char>>)
    requires
        lines.len() > 0,
    ensures
        lines_text(lines).len() >= lines[0].len(),
        lines_text(lines).take(lines[0].len() as int) == lines[0],
{
    if lines.len() == 1 {
        assert(lines_text(lines).take(lines[0].len() as int) =~= lines[0]);
    } else {
        lemma_lines_front(lines);
        assert(lines_text(lines).take(lines[0].len() as int) =~= lines[0]);
    }
    assert forall|i: int| 0 <= i < lines[0].len() implies #[trigger] lines_text(lines)[i]
        == lines[0][i] by {
        assert(lines_text(lines).take(lines[0].len() as int)[i] == lines[0][i]);
    }
}

/// The bytes of two texts are those of the one, then those of the other.
pub proof fn lemma_encode_concat(a: Seq<char>, b: Seq<char>)
    ensures
        encode_utf8(a + b) == encode_utf8(a) + encode_utf8(b),
    decreases a.len(),
{
    if a.len() == 0 {
        assert(a + b =~= b);
        assert(encode_utf8(a) + encode_utf8(b) =~= encode_utf8(b));
    } else {
        assert((a + b).drop_first() =~= a.drop_first() + b);
        lemma_encode_concat(a.drop_first(), b);
        assert(encode_utf8(a + b) =~= encode_utf8(a) + encode_utf8(b));
    }
}

proof fn lemma_ascii_first(s: Seq<char>, b: u8)
    requires
        encode_utf8(s).len() > 0,
        encode_utf8(s)[0] == b,
        b < 0x80,
    ensures
        s.len() > 0,
        s[0] == b as char,
        encode_utf8(s) == seq![b] + encode_utf8(s.drop_first()),
{
    encode_utf8_first_scalar(s);
    assert((b & 0x7F) == b) by (bit_vector)
        requires
            b < 0x80u8,
    ;
    char_u32_cast(s[0], b as u32);
    assert(encode_utf8(s) =~= seq![b] + encode_utf8(s.drop_first()));
}

/// An empty line among the bytes of a text is one of the text itself.
proof fn lemma_mark_chars(s: Seq<char>, k: int) -> (i: int)
    requires
        found_at(encode_utf8(s), head_mark(), k),
    ensures
        mark_in_text(s, i),
        encode_utf8(s.take(i)).len() == k,
    decreases s.len(),
{
    let b = encode_utf8(s);
    let m = head_mark();
    assert forall|j: int| 0 <= j < 4 implies b[k + j] == m[j] by {
        assert(b.subrange(k, k + 4)[j] == m[j]);
    }
    if s.len() == 0 {
        assert(false);
        0
    } else {
        encode_utf8_first_scalar(s);
        let w = length_of_first_scalar(b);
        let rest = s.drop_first();
        assert(b =~= encode_scalar(s[0] as u32) + encode_utf8(rest));
        if k == 0 {
            assert(b[0] == m[0] && b[1] == m[1] && b[2] == m[2] && b[3] == m[3]);
            lemma_ascii_first(s, 0x0D);
            let r1 = rest;
            assert(encode_utf8(r1)[0] == b[1]);
            lemma_ascii_first(r1, 0x0A);
            let r2 = r1.drop_first();
            assert(encode_utf8(r2)[0] == encode_utf8(r1)[1]);
            assert(encode_utf8(r1)[1] == b[2]);
            lemma_ascii_first(r2, 0x0D);
            let r3 = r2.drop_first();
            assert(encode_utf8(r3)[0] == encode_utf8(r2)[1]);
            assert(encode_utf8(r2)[1] == encode_utf8(r1)[2]);
            assert(encode_utf8(r1)[2] == b[3]);
            lemma_ascii_first(r3, 0x0A);
            assert(r1[0] == s[1] && r2[0] == s[2] && r3[0] == s[3]);
            assert(mark_in_text(s, 0));
            assert(s.take(0) =~= Seq::<char>::empty());
            0
        } else if k < w {
            assert(b[k] == m[0]);
            assert(is_continuation_byte(b[k]));
            assert(false);
            0
        } else {
            let q = encode_utf8(rest);
            assert(q.subrange(k - w, k - w + 4) =~= b.subrange(k, k + 4));
            let i = lemma_mark_chars(rest, k - w);
            assert(s.take(i + 1).drop_first() =~= rest.take(i));
            assert(s.take(i + 1)[0] == s[0]);
            assert(mark_in_text(s, i + 1)) by {
                assert(rest[i] == s[i + 1]);
                assert(rest[i + 1] == s[i + 2]);
                assert(rest[i + 2] == s[i + 3]);
                assert(rest[i + 3] == s[i + 4]);
            }
            i + 1
        }
    }
}

/// Whoever reads the bytes of a head finds its end where its last line ends, and
/// reads its lines as they were written.
pub proof fn head_is_found(lines: Seq<Seq<char>>, body: Seq<u8>)
    requires
        lines.len() > 0,
        all_lines(lines),
    ensures
        ({
            let bytes = encode_utf8(head_text(lines)) + body;
            let n = encode_utf8(lines_text(lines)).len() as int;
            &&& found_at(bytes, head_mark(), n)
            &&& forall|j: int| 0 <= j < n ==> !found_at(bytes, head_mark(), j)
            &&& bytes.skip(n + 4) == body
            &&& crlf_lines(lossy_text(bytes.take(n))) == lines
        }),
{
    let text = lines_text(lines);
    let end = seq!['\r', '\n', '\r', '\n'];
    let head = head_text(lines);
    let h = encode_utf8(head);
    let bytes = h + body;
    let n = encode_utf8(text).len() as int;
    lemma_encode_concat(text, end);
    is_ascii_chars_encode_utf8(end);
    assert(encode_utf8(end) =~= head_mark());
    assert(bytes.subrange(n, n + 4) =~= head_mark());
    assert(bytes.skip(n + 4) =~= body);
    assert(bytes.take(n) =~= encode_utf8(text));
    encode_utf8_valid_utf8(text);
    encode_utf8_decode_utf8(text);
    head_lines_read_back(lines);
    assert forall|j: int| 0 <= j < n implies !found_at(bytes, head_mark(), j) by {
        if found_at(bytes, head_mark(), j) {
            if j + 4 <= h.len() {
                assert(h.subrange(j, j + 4) =~= bytes.subrange(j, j + 4));
            }
            let i = lemma_mark_chars(head, j);
            if i >= text.len() {
                let more = head.take(i).skip(text.len() as int);
                assert(head.take(i) =~= text + more);
                lemma_encode_concat(text, more);
            } else {
                lemma_no_mark(lines, i);
            }
        }
    }
}

proof fn lemma_skips_shift(s: Seq<char>, from: int, k: int)
    requires
        0 <= from,
        0 <= k,
        from + k <= s.len(),
    ensures
        skip_white(s, from + k) == from + skip_white(s.skip(from), k),
        skip_word(s, from + k) == from + skip_word(s.skip(from), k),
    decreases s.len() - from - k,
{
    if from + k < s.len() {
        lemma_skips_shift(s, from, k + 1);
    }
}

proof fn lemma_words_shift(s: Seq<char>, from: int, k: int)
    requires
        0 <= from,
        0 <= k,
        from + k <= s.len(),
    ensures
        words_from(s, from + k) == words_from(s.skip(from), k),
    decreases s.len() - from - k,
{
    let t = s.skip(from);
    lemma_skips_shift(s, from, k);
    lemma_skips(t, k);
    let a = skip_white(t, k);
    if k < t.len() && a < t.len() {
        lemma_skips_shift(s, from, a);
        lemma_skips(t, a + 1);
        let b = skip_word(t, a);
        lemma_words_shift(s, from, b);
        assert(s.subrange(from + a, from + b) =~= t.subrange(a, b));
    }
}

/// Whether `s` is a word: not empty, and without white space.
pub open spec fn is_word(s: Seq<char>) -> bool {
    s.len() > 0 && forall|i: int| 0 <= i < s.len() ==> !white_space(#[trigger] s[i])
}

proof fn lemma_word_end(s: Seq<char>, i: int, n: int)
    requires
        0 <= i <= n <= s.len(),
        forall|j: int| i <= j < n ==> !white_space(#[trigger] s[j]),
        n < s.len() ==> white_space(s[n]),
    ensures
        skip_word(s, i) == n,
    decreases n - i,
{
    if i < n {
        lemma_word_end(s, i + 1, n);
    }
}

/// The first word of a line, and what comes after it.
pub proof fn lemma_first_word(w: Seq<char>, rest: Seq<char>)
    requires
        is_word(w),
        rest.len() > 0 ==> white_space(rest[0]),
    ensures
        words(w + rest) == seq![w] + words(rest),
{
    let s = w + rest;
    let n = w.len() as int;
    assert forall|j: int| 0 <= j < n implies !white_space(#[trigger] s[j]) by {
        assert(s[j] == w[j]);
    }
    if n < s.len() {
        assert(s[n] == rest[0]);
    }
    assert(!white_space(s[0]));
    lemma_word_end(s, 0, n);
    lemma_words_shift(s, n, 0);
    assert(s.skip(n) =~= rest);
    assert(s.subrange(0, n) =~= w);
}

/// White space at the start of a line makes no word.
pub proof fn lemma_lead_white(c: char, rest: Seq<char>)
    requires
        white_space(c),
    ensures
        words(seq![c] + rest) == words(rest),
{
    let s = seq![c] + rest;
    lemma_words_shift(s, 1, 0);
    assert(s.skip(1) =~= rest);
    assert(s[0] == c);
    assert(skip_white(s, 0) == skip_white(s, 1));
    lemma_skips(s, 1);
    assert(words_from(s, 0) == words_from(s, 1));
}

/// A text that neither starts nor ends with white space is trimmed already.
pub proof fn lemma_trimmed(s: Seq<char>)
    requires
        s.len() > 0 ==> !white_space(s[0]) && !white_space(s.last()),
    ensures
        trim(s) == s,
        trim(seq![' '] + s) == s,
{
    let t = seq![' '] + s;
    assert(t.skip(1) =~= s);
    assert(t[0] == ' ');
    assert(trim_start(t) == trim_start(s));
}

/// Whether `v` can stand as the value of a header: it holds no end of a line, and
/// no white space at either end.
pub open spec fn fits_line(v: Seq<char>) -> bool {
    &&& v.len() > 0 ==> !white_space(v[0]) && !white_space(v.last())
    &&& forall|i: int| 0 <= i < v.len() - 1 && #[trigger] v[i] == '\r' ==> v[i + 1] != '\n'
}

/// A header line is read as the name in small letters, and the value.
pub proof fn lemma_header_line(name: Seq<char>, value: Seq<char>)
    requires
        is_word(name),
        forall|i: int| 0 <= i < name.len() ==> name[i] != ':',
        value.len() > 0 ==> !white_space(value[0]) && !white_space(value.last()),
    ensures
        header_of_line(name + seq![':', ' '] + value) == Some((lowercase(name), value)),
{
    let line = name + seq![':', ' '] + value;
    let n = name.len() as int;
    crate::text::lemma_next_at(line, 0, ':');
    let at = next_at(line, 0, ':');
    assert(line[n] == ':');
    if at < n {
        assert(line[at] == name[at]);
    }
    assert(at == n);
    assert(line.subrange(0, n) =~= name);
    assert(line.subrange(n + 1, line.len() as int) =~= seq![' '] + value);
    assert(!white_space(name[0]));
    assert(!white_space(name.last()));
    lemma_trimmed(name);
    lemma_trimmed(value);
}

/// Decimal digits are a word.
pub proof fn lemma_dec_word(n: nat)
    ensures
        is_word(dec(n)),
{
    crate::numbers::lemma_dec_value(n);
}

/// A header line can stand in a head, and is read as its name and its value.
pub proof fn lemma_named_line(prefix: Seq<char>, name: Seq<char>, value: Seq<char>)
    requires
        is_word(name),
        forall|i: int| 0 <= i < name.len() ==> #[trigger] name[i] != ':' && name[i] != '\r',
        prefix == name + seq![':', ' '],
        fits_line(value),
    ensures
        one_line(prefix + value),
        header_of_line(prefix + value) == Some((lowercase(name), value)),
{
    lemma_header_line(name, value);
    let l = prefix + value;
    let n = prefix.len() as int;
    assert forall|i: int| 0 <= i < l.len() - 1 && #[trigger] l[i] == '\r' implies l[i + 1]
        != '\n' by {
        if i < name.len() {
            assert(l[i] == name[i]);
        } else if i >= n {
            assert(l[i] == value[i - n]);
            assert(l[i + 1] == value[i + 1 - n]);
        }
    }
    if value.len() > 0 {
        assert(l.last() == value.last());
        assert(!white_space(value.last()));
    } else {
        assert(l.last() == ' ');
    }
}

/// A percent-encoded text can stand as the value of a header.
pub proof fn lemma_plain_fits(s: Seq<char>)
    ensures
        fits_line(encoded(s)),
{
    encoded_is_plain(s);
    let e = encoded(s);
    assert forall|i: int| 0 <= i < e.len() implies !white_space(#[trigger] e[i]) && e[i]
        != '\r' by {
        let c = e[i];
        if c != '%' {
            char_u32_cast(c, c as u32);
        }
    }
}

/// A number can stand as the value of a header.
pub proof fn lemma_dec_fits(n: nat)
    ensures
        fits_line(dec(n)),
{
    crate::numbers::lemma_dec_value(n);
}

/// One more header line.
pub proof fn lemma_headers_push(lines: Seq<Seq<char>>, l: Seq<char>, k: Seq<char>, v: Seq<char>)
    requires
        header_of_line(l) == Some((k, v)),
    ensures
        headers_of(lines.push(l)) == headers_of(lines).insert(k, v),
{
    assert(lines.push(l).drop_last() =~= lines);
}

/// The small letters of an ASCII name.
pub proof fn lemma_lower(name: Seq<char>, low: Seq<char>)
    requires
        name.len() == low.len(),
        forall|i: int|
            0 <= i < name.len() ==> (#[trigger] name[i] as u32) < 128 && low[i] == ascii_lower(
                name[i],
            ),
    ensures
        lowercase(name) == low,
{
    assert(name.map_values(|c: char| ascii_lower(c)) =~= low);
}

/// An address with its port can stand as the value of a header.
pub proof fn lemma_host_fits(host: Seq<char>, port: u16)
    requires
        fits_line(host),
    ensures
        fits_line(host + ":"@ + dec(port as nat)),
{
    reveal_strlit(":");
    lemma_dec_fits(port as nat);
    crate::numbers::lemma_dec_value(port as nat);
    let d = dec(port as nat);
    let l = host + ":"@ + d;
    let n = host.len() as int;
    assert(l.last() == d.last());
    assert forall|i: int| 0 <= i < l.len() - 1 && #[trigger] l[i] == '\r' implies l[i + 1]
        != '\n' by {
        if i < n {
            assert(l[i] == host[i]);
            if i + 1 < n {
                assert(l[i + 1] == host[i + 1]);
            }
        } else if i > n {
            assert(l[i] == d[i - n - 1]);
        }
    }
    if n > 0 {
        assert(l[0] == host[0]);
    }
}

/// What a response says of its status and of the length of its body is read as
/// it was written.
pub proof fn response_reads_back(code: u16, content_type: Seq<char>, len: nat)
    requires
        len <= u64::MAX,
        one_line("Content-Type: "@ + content_type + "; charset=utf-8"@),
    ensures
        all_lines(response_lines(code, content_type, len)),
        status_of(lines_text(response_lines(code, content_type, len))) == code,
        content_length(
            crlf_lines(lines_text(response_lines(code, content_type, len))).skip(1),
        ) == Some(len),
{
    let lines = response_lines(code, content_type, len);
    reveal_strlit("HTTP/1.1 ");
    reveal_strlit("HTTP/1.1");
    reveal_strlit(" ");
    reveal_strlit("OK");
    reveal_strlit("Bad Request");
    reveal_strlit("Unauthorized");
    reveal_strlit("Forbidden");
    reveal_strlit("Not Found");
    reveal_strlit("Method Not Allowed");
    reveal_strlit("Conflict");
    reveal_strlit("Error");
    reveal_strlit("Content-Length: ");
    reveal_strlit("Content-Length");
    reveal_strlit("content-length");
    reveal_strlit("Connection: close");
    reveal_strlit("Connection");
    crate::numbers::lemma_dec_value(code as nat);
    crate::numbers::lemma_dec_value(len);
    lemma_dec_word(code as nat);
    lemma_dec_word(len);
    let status = lines[0];
    let size = lines[2];
    let tail = seq![' '] + reason(code);
    assert forall|i: int| 0 <= i < lines.len() implies one_line(#[trigger] lines[i]) by {
        if i == 0 {
            assert forall|j: int| 0 <= j < status.len() implies #[trigger] status[j] != '\r' by {
                if 9 <= j < 9 + dec(code as nat).len() {
                    assert(status[j] == dec(code as nat)[j - 9]);
                }
            }
        } else if i == 2 {
            assert forall|j: int| 0 <= j < size.len() implies #[trigger] size[j] != '\r' by {
                if 16 <= j {
                    assert(size[j] == dec(len)[j - 16]);
                }
            }
        }
    }
    head_lines_read_back(lines);
    let d = dec(code as nat);
    assert(status =~= "HTTP/1.1"@ + (seq![' '] + (d + tail)));
    lemma_first_word("HTTP/1.1"@, seq![' '] + (d + tail));
    lemma_lead_white(' ', d + tail);
    lemma_first_word(d, tail);
    assert(words(status)[1] == d);
    crate::numbers::decimal_reads_back(code as nat, u16::MAX as nat);
    let rest = lines.skip(1);
    let close = rest.last();
    crate::text::lemma_next_at(close, 0, ':');
    assert(close[10] == ':');
    assert(next_at(close, 0, ':') == 10);
    assert(close.subrange(0, 10) =~= "Connection"@);
    lemma_trimmed("Connection"@);
    assert("Connection"@.map_values(|c: char| ascii_lower(c)).len() == 10);
    assert(!is_length_line(close));
    let two = rest.drop_last();
    assert(two.last() == size);
    crate::text::lemma_next_at(size, 0, ':');
    assert(size[14] == ':');
    assert(next_at(size, 0, ':') == 14);
    assert(size.subrange(0, 14) =~= "Content-Length"@);
    lemma_trimmed("Content-Length"@);
    assert("Content-Length"@.map_values(|c: char| ascii_lower(c)) =~= "content-length"@);
    assert(size.subrange(15, size.len() as int) =~= seq![' '] + dec(len));
    assert(!white_space(dec(len)[0]));
    assert(!white_space(dec(len).last()));
    lemma_trimmed(dec(len));
    crate::numbers::decimal_reads_back(len, u64::MAX as nat);
    assert(content_length(two) == Some(len));
}

/// An answer is read as it was given: the status, and the body byte for byte.
pub proof fn answer_is_understood(code: u16, content_type: Seq<char>, body: Seq<u8>, closed: bool)
    requires
        body.len() <= u64::MAX,
        one_line("Content-Type: "@ + content_type + "; charset=utf-8"@),
    ensures
        answer_of(encode_utf8(response_head(code, content_type, body.len())) + body, closed)
            == AnswerView::Done(code, body),
        short_answer_of(encode_utf8(response_head(code, content_type, body.len())) + body, true)
            == AnswerView::Done(code, body),
{
    let lines = response_lines(code, content_type, body.len());
    let bytes = encode_utf8(response_head(code, content_type, body.len())) + body;
    let n = encode_utf8(lines_text(lines)).len() as int;
    response_reads_back(code, content_type, body.len());
    head_is_found(lines, body);
    lemma_head_end(bytes, n);
    let text = lines_text(lines);
    lemma_encode_concat(text, seq!['\r', '\n', '\r', '\n']);
    assert(bytes.take(n) =~= encode_utf8(text));
    encode_utf8_valid_utf8(text);
    encode_utf8_decode_utf8(text);
    assert(body.take(body.len() as int) =~= body);
}

// ---------- laws of heads ----------

/// A header line is a name, the first colon and a value; white space around either
/// does not count, nor does how the name is written. A line without a colon is none.
pub proof fn headers_end_at_the_first_colon(n: Seq<char>, v: Seq<char>)
    requires
        forall|i: int| 0 <= i < n.len() ==> n[i] != ':',
    ensures
        header_of_line(n + seq![':'] + v) == Some((lowercase(trim(n)), trim(v))),
        header_of_line(n) is None,
{
    let s = n + seq![':'] + v;
    let k = n.len() as int;
    crate::text::lemma_next_at(s, 0, ':');
    crate::text::lemma_next_at(n, 0, ':');
    assert(s[k] == ':');
    let at = next_at(s, 0, ':');
    if at < k {
        assert(s[at] == n[at]);
    }
    assert(s.subrange(0, k) =~= n);
    assert(s.subrange(k + 1, s.len() as int) =~= v);
}

/// The headers are gathered line by line; a later one takes the place of an earlier one
/// of the same name, and a line that is none changes nothing.
pub proof fn headers_are_gathered(lines: Seq<Seq<char>>, n: Seq<char>, v: Seq<char>)
    requires
        forall|i: int| 0 <= i < n.len() ==> n[i] != ':',
    ensures
        headers_of(Seq::empty()) == Map::<Seq<char>, Seq<char>>::empty(),
        headers_of(lines.push(n + seq![':'] + v)) == headers_of(lines).insert(
            lowercase(trim(n)),
            trim(v),
        ),
        headers_of(lines.push(n)) == headers_of(lines),
{
    headers_end_at_the_first_colon(n, v);
    assert(lines.push(n).drop_last() =~= lines);
    assert(lines.push(n + seq![':'] + v).drop_last() =~= lines);
}

/// The words of a line are what stands between white space; white space alone holds
/// none.
pub proof fn words_stand_between_white_space(w: Seq<char>, c: char, rest: Seq<char>)
    requires
        w.len() > 0,
        forall|i: int| 0 <= i < w.len() ==> !white_space(#[trigger] w[i]),
        white_space(c),
    ensures
        words(Seq::empty()) == Seq::<Seq<char>>::empty(),
        words(w) == seq![w],
        words(w + seq![c] + rest) == seq![w] + words(rest),
        words(seq![c] + rest) == words(rest),
{
    let none = Seq::<char>::empty();
    lemma_first_word(w, none);
    assert(w + none =~= w);
    assert(words(none) =~= Seq::<Seq<char>>::empty());
    assert(seq![w] + words(none) =~= seq![w]);
    lemma_first_word(w, seq![c] + rest);
    lemma_lead_white(c, rest);
    assert(w + seq![c] + rest =~= w + (seq![c] + rest));
}

/// A request is read off its first line: the method, and of the target what stands
/// before the first question mark and what stands after it; the other lines are its
/// headers. A method other than `GET` and `POST` is told without a target, and where
/// there is no target for one of these, or no word at all, nothing is.
pub proof fn requests_are_read_off_the_first_line(head: Seq<char>)
    ensures
        ({
            let first = words(crlf_lines(head)[0]);
            let r = request_of(head);
            &&& first.len() == 0 ==> r is None
            &&& first.len() == 1 && first[0] == "GET"@ ==> r is None
            &&& first.len() > 1 && (first[0] == "GET"@ || first[0] == "POST"@) ==> {
                &&& r is Some
                &&& r->0.method == first[0]
                &&& r->0.path == split(first[1], '?')[0]
                &&& r->0.query == query_part(first[1])
                &&& r->0.headers == headers_of(crlf_lines(head).skip(1))
            }
            &&& first.len() > 0 && first[0] != "GET"@ && first[0] != "POST"@ ==> {
                &&& r is Some
                &&& r->0.method == first[0]
                &&& r->0.path.len() == 0
                &&& r->0.query.len() == 0
                &&& r->0.headers == Map::<Seq<char>, Seq<char>>::empty()
            }
        }),
{
    reveal_strlit("GET");
    reveal_strlit("POST");
    assert("GET"@.len() == 3 && "POST"@.len() == 4);
}

/// The query of a target is what stands between its first question mark and the next.
pub proof fn queries_follow_the_question_mark(p: Seq<char>, q: Seq<char>, more: Seq<char>)
    requires
        forall|i: int| 0 <= i < p.len() ==> p[i] != '?',
        forall|i: int| 0 <= i < q.len() ==> q[i] != '?',
    ensures
        query_part(p) == Seq::<char>::empty(),
        query_part(p + seq!['?'] + q) == q,
        query_part(p + seq!['?'] + (q + seq!['?'] + more)) == q,
        split(p + seq!['?'] + q, '?')[0] == p,
        split(p, '?')[0] == p,
{
    crate::text::splitting_goes_by_separators(p, q, '?');
    crate::text::splitting_goes_by_separators(q, more, '?');
    crate::text::splitting_goes_by_separators(p, q + seq!['?'] + more, '?');
}

/// The words that go with the number of an answer.
pub proof fn answers_have_their_words(code: u16)
    ensures
        reason(200) == "OK"@,
        reason(400) == "Bad Request"@,
        reason(401) == "Unauthorized"@,
        reason(403) == "Forbidden"@,
        reason(404) == "Not Found"@,
        reason(405) == "Method Not Allowed"@,
        reason(409) == "Conflict"@,
        code != 200 && code != 400 && code != 401 && code != 403 && code != 404 && code != 405
            && code != 409 ==> reason(code) == "Error"@,
{
}

/// The length of an answer is the number of the last of its lines of that name, however
/// the name is written; other lines do not count.
pub proof fn last_length_counts(lines: Seq<Seq<char>>, n: Seq<char>, v: Seq<char>)
    requires
        forall|i: int| 0 <= i < n.len() ==> n[i] != ':',
        n.len() > 0,
        !white_space(n[0]),
        !white_space(n.last()),
    ensures
        content_length(Seq::empty()) is None,
        n.len() == 14 && (forall|i: int|
            0 <= i < 14 ==> #[trigger] n[i] == "content-length"@[i] || n[i] as u32 + 32
                == "content-length"@[i] as u32 && 'A' <= n[i] && n[i] <= 'Z') ==> content_length(
            lines.push(n + seq![':'] + v),
        ) == parse_unsigned(trim(v), 10, 0xFFFF_FFFF_FFFF_FFFF),
        n.len() != 14 ==> content_length(lines.push(n + seq![':'] + v)) == content_length(lines),
        content_length(lines.push(n)) == content_length(lines),
{
    let s = n + seq![':'] + v;
    let k = n.len() as int;
    crate::text::lemma_next_at(s, 0, ':');
    crate::text::lemma_next_at(n, 0, ':');
    assert(s[k] == ':');
    let at = next_at(s, 0, ':');
    if at < k {
        assert(s[at] == n[at]);
    }
    assert(s.subrange(0, k) =~= n);
    assert(s.subrange(k + 1, s.len() as int) =~= v);
    crate::text::trimmed_stays(n);
    assert(lines.push(n).drop_last() =~= lines);
    assert(lines.push(s).drop_last() =~= lines);
    reveal_strlit("content-length");
    let low = "content-length"@;
    assert(low.len() == 14);
    let lowered = n.map_values(|c: char| ascii_lower(c));
    if n.len() == 14 && (forall|i: int|
        0 <= i < 14 ==> #[trigger] n[i] == low[i] || n[i] as u32 + 32 == low[i] as u32 && 'A'
            <= n[i] && n[i] <= 'Z') {
        assert(low[0] == 'c' && low[1] == 'o' && low[2] == 'n' && low[3] == 't' && low[4] == 'e'
            && low[5] == 'n' && low[6] == 't');
        assert(low[7] == '-' && low[8] == 'l' && low[9] == 'e' && low[10] == 'n' && low[11] == 'g'
            && low[12] == 't' && low[13] == 'h');
        assert forall|i: int| 0 <= i < 14 implies lowered[i] == low[i] by {
            lemma_lower_char(n[i], low[i]);
        }
        assert(lowered =~= low);
    }
}

proof fn lemma_lower_char(a: char, b: char)
    requires
        a == b || (a as u32 + 32 == b as u32 && 'A' <= a && a <= 'Z'),
        b == '-' || ('a' <= b && b <= 'z'),
    ensures
        ascii_lower(a) == b,
{
}

/// An answer is complete with the body that its head tells the length of, or all that
/// came before the end where it tells none or less came; a head of more than 64 KiB is
/// given up.
pub proof fn answers_are_complete_with_their_body(bytes: Seq<u8>, n: int)
    requires
        0 <= n <= bytes.len() - 4,
        bytes[n] == 13 && bytes[n + 1] == 10 && bytes[n + 2] == 13 && bytes[n + 3] == 10,
        forall|j: int|
            0 <= j < n ==> !(#[trigger] bytes[j] == 13 && bytes[j + 1] == 10 && bytes[j + 2] == 13
                && bytes[j + 3] == 10),
    ensures
        ({
            let head = lossy_text(bytes.take(n));
            let body = bytes.skip(n + 4);
            let len = content_length(crlf_lines(head).skip(1));
            &&& len is Some && body.len() >= len->0 ==> answer_of(bytes, true) == AnswerView::Done(
                status_of(head),
                body.take(len->0 as int),
            ) && answer_of(bytes, false) == answer_of(bytes, true)
            &&& len is Some && body.len() < len->0 ==> answer_of(bytes, true) == AnswerView::Done(
                status_of(head),
                body,
            ) && answer_of(bytes, false) == AnswerView::More(false)
            &&& len is None ==> answer_of(bytes, true) == AnswerView::Done(status_of(head), body)
                && answer_of(bytes, false) == AnswerView::More(true)
            &&& short_answer_of(bytes, true) == AnswerView::Done(status_of(head), body)
            &&& body.len() <= 1024 * 1024 ==> short_answer_of(bytes, false) == AnswerView::More(
                true,
            )
            &&& body.len() > 1024 * 1024 ==> short_answer_of(bytes, false) == AnswerView::Done(
                status_of(head),
                body,
            )
        }),
{
    assert(bytes.subrange(n, n + 4) =~= head_mark());
    assert(found_at(bytes, head_mark(), n));
    assert forall|j: int| 0 <= j < n implies !found_at(bytes, head_mark(), j) by {
        if found_at(bytes, head_mark(), j) {
            let t = bytes.subrange(j, j + 4);
            assert(t[0] == bytes[j] && t[1] == bytes[j + 1] && t[2] == bytes[j + 2] && t[3]
                == bytes[j + 3]);
        }
    }
    assert(is_head_end(bytes, n));
    lemma_head_end(bytes, n);
}

/// Without an end of the head, an answer is given up where it is longer than 64 KiB or
/// the connection was closed, and more is read else.
pub proof fn heads_are_waited_for(bytes: Seq<u8>, closed: bool)
    requires
        forall|j: int|
            0 <= j <= bytes.len() - 4 ==> !(#[trigger] bytes[j] == 13 && bytes[j + 1] == 10
                && bytes[j + 2] == 13 && bytes[j + 3] == 10),
    ensures
        bytes.len() > 65536 ==> answer_of(bytes, closed) == AnswerView::HeadTooLarge
            && short_answer_of(bytes, closed) == AnswerView::HeadTooLarge,
        bytes.len() <= 65536 && closed ==> answer_of(bytes, closed) == AnswerView::Closed
            && short_answer_of(bytes, closed) == AnswerView::Closed,
        bytes.len() <= 65536 && !closed ==> answer_of(bytes, closed) == AnswerView::More(false)
            && short_answer_of(bytes, closed) == AnswerView::More(false),
{
    assert forall|n: int| !is_head_end(bytes, n) by {
        if is_head_end(bytes, n) {
            assert(found_at(bytes, head_mark(), n));
            let t = bytes.subrange(n, n + 4);
            assert(t[0] == bytes[n] && t[1] == bytes[n + 1] && t[2] == bytes[n + 2] && t[3]
                == bytes[n + 3]);
        }
    }
}

/// The number of an answer is the second word of its first line, and 0 where there is
/// none that can be read.
pub proof fn status_is_the_second_word(head: Seq<char>)
    ensures
        ({
            let first = words(crlf_lines(head)[0]);
            &&& first.len() > 1 && parse_unsigned(first[1], 10, 65535) is Some ==> status_of(head)
                == parse_unsigned(first[1], 10, 65535)->0
            &&& first.len() <= 1 || parse_unsigned(first[1], 10, 65535) is None ==> status_of(head)
                == 0
        }),
{
    let first = words(crlf_lines(head)[0]);
    if first.len() > 1 && parse_unsigned(first[1], 10, 65535) is Some {
        assert(parse_unsigned(first[1], 10, 65535)->0 <= 65535);
    }
}

} // verus!
