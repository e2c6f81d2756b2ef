use lscopy::http::{
    find_subslice, head_progress, http_reason, read_answer, read_request, read_response_head,
    read_simple_response, respond, text_of_head, AnswerStep, HeadProgress,
};
use lscopy::url::{parse_query, url_decode, url_encode};

#[test]
fn texts_are_percent_encoded() {
    assert_eq!(url_encode("a-b_c.d~e"), "a-b_c.d~e");
    assert_eq!(url_encode("a b/电"), "a%20b%2F%E7%94%B5");
    assert_eq!(url_decode("a%20b%2F%E7%94%B5"), "a b/电");
    assert_eq!(url_decode("a+b%zz%4"), "a b%zz%4");
}

#[test]
fn encoded_texts_are_decoded_again() {
    for t in ["", "Windows 电脑", "a+b&c=d%20", "📄"] {
        assert_eq!(url_decode(&url_encode(t)), t);
    }
}

#[test]
fn queries_are_read() {
    let q = parse_query("a=1&b=x%20y&=3&c&a=2&d=");
    assert_eq!(q.get("a").map(|s| s.as_str()), Some("2"));
    assert_eq!(q.get("b").map(|s| s.as_str()), Some("x y"));
    assert_eq!(q.get("d").map(|s| s.as_str()), Some(""));
    assert!(!q.contains_key("c"));
    assert!(!q.contains_key(""));
}

#[test]
fn bytes_are_found() {
    assert_eq!(find_subslice(b"abcabc", b"ca"), Some(2));
    assert_eq!(find_subslice(b"abc", b"abcd"), None);
    assert_eq!(find_subslice(b"", b"a"), None);
}

#[test]
fn heads_are_waited_for() {
    assert!(matches!(head_progress(&b"GET / HTTP/1.1\r\n".to_vec()), HeadProgress::More));
    assert!(matches!(
        head_progress(&b"GET / HTTP/1.1\r\n\r\nbody".to_vec()),
        HeadProgress::Complete(14)
    ));
    assert!(matches!(head_progress(&vec![b'a'; 65537]), HeadProgress::TooLarge));
    assert!(matches!(head_progress(&vec![b'a'; 65536]), HeadProgress::More));
}

#[test]
fn requests_are_read() {
    let q = read_request("GET /clips?since=5?x HTTP/1.1\r\nX-Token:  12 3 \r\nbad\r\nx-token: 7\r\nÄ: b".as_bytes())
        .unwrap();
    assert_eq!(q.method, "GET");
    assert_eq!(q.path, "/clips");
    assert_eq!(q.query, "since=5");
    assert_eq!(q.headers.get("x-token").map(|s| s.as_str()), Some("7"));
    assert_eq!(q.headers.get("ä").map(|s| s.as_str()), Some("b"));
    assert!(read_request(b"").is_none());
    assert!(read_request(b"GET").is_none());
    let d = read_request(b"DELETE").unwrap();
    assert_eq!(d.method, "DELETE");
    assert_eq!(d.path, "");
}

#[test]
fn statuses_have_words() {
    assert_eq!(http_reason(200), "OK");
    assert_eq!(http_reason(400), "Bad Request");
    assert_eq!(http_reason(401), "Unauthorized");
    assert_eq!(http_reason(403), "Forbidden");
    assert_eq!(http_reason(404), "Not Found");
    assert_eq!(http_reason(405), "Method Not Allowed");
    assert_eq!(http_reason(409), "Conflict");
    assert_eq!(http_reason(500), "Error");
}

#[test]
fn responses_are_written() {
    let r = respond(404, "application/json", b"Not Found");
    let expected = "HTTP/1.1 404 Not Found\r\nContent-Type: application/json; charset=utf-8\r\nContent-Length: 9\r\nConnection: close\r\n\r\nNot Found";
    assert_eq!(String::from_utf8(r).unwrap(), expected);
}

#[test]
fn response_heads_are_read() {
    let h = read_response_head(b"HTTP/1.1 200 OK\r\ncontent-LENGTH: 12\r\nContent-Length: x");
    assert_eq!(h.code, 200);
    assert_eq!(h.content_len, None);
    let h = read_response_head(b"HTTP/1.1\r\nContent-Length: 12");
    assert_eq!(h.code, 0);
    assert_eq!(h.content_len, Some(12));
}

fn done(s: AnswerStep) -> Option<(u16, Vec<u8>)> {
    match s {
        AnswerStep::Done(r) => Some((r.code, r.body)),
        _ => None,
    }
}

#[test]
fn answers_are_read_as_they_were_given() {
    let bytes = respond(200, "application/json", b"{\"a\":1}");
    for n in 0..bytes.len() {
        let part = bytes[..n].to_vec();
        assert!(matches!(read_answer(&part, false), AnswerStep::More(false)));
    }
    assert_eq!(done(read_answer(&bytes, false)), Some((200, b"{\"a\":1}".to_vec())));
    assert_eq!(done(read_answer(&bytes, true)), Some((200, b"{\"a\":1}".to_vec())));
    assert_eq!(done(read_simple_response(&bytes, true)), Some((200, b"{\"a\":1}".to_vec())));
    assert!(matches!(read_simple_response(&bytes, false), AnswerStep::More(true)));
}

#[test]
fn answers_without_length_go_on_to_the_end() {
    let bytes = b"HTTP/1.0 403 x\r\n\r\nabc".to_vec();
    assert!(matches!(read_answer(&bytes, false), AnswerStep::More(true)));
    assert_eq!(done(read_answer(&bytes, true)), Some((403, b"abc".to_vec())));
}

#[test]
fn answers_are_cut_to_their_length() {
    let bytes = b"HTTP/1.1 200 OK\r\nContent-Length: 2\r\n\r\nabc".to_vec();
    assert_eq!(done(read_answer(&bytes, false)), Some((200, b"ab".to_vec())));
    let short = b"HTTP/1.1 200 OK\r\nContent-Length: 9\r\n\r\nabc".to_vec();
    assert_eq!(done(read_answer(&short, true)), Some((200, b"abc".to_vec())));
}

#[test]
fn answers_without_head_are_faults() {
    assert!(matches!(read_answer(&b"HTTP".to_vec(), true), AnswerStep::Closed));
    assert!(matches!(read_answer(&vec![b'a'; 70000], false), AnswerStep::HeadTooLarge));
    assert!(matches!(read_simple_response(&b"HTTP".to_vec(), true), AnswerStep::Closed));
    assert!(matches!(read_simple_response(&vec![b'a'; 70000], true), AnswerStep::HeadTooLarge));
    let mut long = b"HTTP/1.1 200 OK\r\n\r\n".to_vec();
    long.extend_from_slice(&vec![b'a'; 1048577]);
    assert_eq!(done(read_simple_response(&long, false)).map(|r| r.1.len()), Some(1048577));
}

#[test]
fn heads_end_with_an_empty_line() {
    let t = text_of_head(&vec!["a".to_string(), "b".to_string()]);
    assert_eq!(t, "a\r\nb\r\n\r\n");
    assert_eq!(text_of_head(&vec![]), "\r\n\r\n");
}
