use lscopy::client::{fetch_clips, fetch_info, forbidden, http_get, request_pair, LanErr};
use lscopy::http::{head_progress, read_request, HeadProgress, Request};
use lscopy::json::{get_bool, get_i64, get_text};
use lscopy::lan::{BlockedInfo, LanDevice, LanSettings, LanShared, Platform};
use lscopy::server::{
    admit_content, ask_pair_approval, authorize, blocked_notice_checked, build_requester,
    clips_reply, file_reply, handle_blocked_notice, handle_clips, handle_conn, handle_file,
    handle_info, handle_pair, handle_unblocked, handle_unpair, lan_respond_pair, maybe_auto_pair,
    no_route, pair_answered, reject_if_blocked, reject_if_unpaired, respond_json, ClipRow, PairStep,
    Reply, Route,
};
use lscopy::strmap::StrMap;
use lscopy::url::parse_query;

fn headers(list: &[(&str, &str)]) -> StrMap<String> {
    let mut m = StrMap::new();
    for (k, v) in list {
        m.insert(k.to_string(), v.to_string());
    }
    m
}

fn settings() -> LanSettings {
    let mut s = LanSettings::default();
    s.device_id = "me".to_string();
    s.device_name = "Mine".to_string();
    s.pairing_token = "123456".to_string();
    s.sharing = true;
    s
}

fn full() -> StrMap<String> {
    headers(&[
        ("x-device-id", "you"),
        ("x-device-name", "Y%20ou"),
        ("x-device-model", "PC"),
        ("x-my-port", "9000"),
        ("x-my-token", "654321"),
        ("x-token", "123456"),
    ])
}

fn shown(r: &Reply) -> (u16, &str) {
    (r.code, r.body.as_str())
}

fn get(method: &str, path: &str) -> Request {
    Request {
        method: method.to_string(),
        path: path.to_string(),
        query: String::new(),
        headers: StrMap::new(),
    }
}

#[test]
fn requests_find_their_way() {
    assert_eq!(handle_conn(&get("GET", "/info")), Route::Info);
    assert_eq!(handle_conn(&get("GET", "/pair")), Route::Pair);
    assert_eq!(handle_conn(&get("GET", "/unpair")), Route::Unpair);
    assert_eq!(handle_conn(&get("GET", "/unblocked")), Route::Unblocked);
    assert_eq!(handle_conn(&get("GET", "/blocked")), Route::Blocked);
    assert_eq!(handle_conn(&get("GET", "/clips")), Route::Clips);
    assert_eq!(handle_conn(&get("GET", "/file")), Route::File);
    assert_eq!(handle_conn(&get("POST", "/recv")), Route::Receive);
    assert_eq!(handle_conn(&get("GET", "/recv")), Route::NotFound);
    assert_eq!(handle_conn(&get("POST", "/info")), Route::NotAllowed);
    assert_eq!(handle_conn(&read_request(b"POST").unwrap()), Route::NotAllowed);
    assert_eq!(handle_conn(&get("GET", "__method_not_allowed__")), Route::NotAllowed);
    assert_eq!(shown(&no_route(Route::NotFound).unwrap()), (404, "Not Found"));
    assert_eq!(shown(&no_route(Route::NotAllowed).unwrap()), (405, "Method Not Allowed"));
    assert!(no_route(Route::Info).is_none());
}

#[test]
fn replies_are_written() {
    let b = respond_json(&Reply { code: 403, body: "{}".to_string() });
    let t = String::from_utf8(b).unwrap();
    assert!(t.starts_with("HTTP/1.1 403 Forbidden\r\nContent-Type: application/json; charset=utf-8\r\nContent-Length: 2\r\n"));
    assert!(t.ends_with("\r\n\r\n{}"));
}

#[test]
fn codes_are_checked() {
    let mut s = settings();
    assert!(authorize(&s, &full()).is_none());
    let bad = authorize(&s, &headers(&[("x-token", "1")])).unwrap();
    assert_eq!(shown(&bad), (401, "{\"error\":\"bad_token\"}"));
    assert_eq!(authorize(&s, &headers(&[])).unwrap().code, 401);
    s.sharing = false;
    assert_eq!(shown(&authorize(&s, &full()).unwrap()), (403, "{\"error\":\"sharing_off\"}"));
}

#[test]
fn blocked_and_strange_devices_are_refused() {
    let mut s = settings();
    assert!(reject_if_blocked(&s, &full()).is_none());
    assert!(reject_if_blocked(&s, &headers(&[])).is_none());
    assert_eq!(shown(&reject_if_unpaired(&s, &full()).unwrap()), (403, "{\"error\":\"unpaired\"}"));
    assert!(reject_if_unpaired(&s, &headers(&[])).is_some());
    s.paired.insert("you".to_string(), LanDevice::default());
    assert!(reject_if_unpaired(&s, &full()).is_none());
    s.blocked.insert("you".to_string(), BlockedInfo::default());
    assert_eq!(shown(&reject_if_blocked(&s, &full()).unwrap()), (403, "{\"error\":\"unpaired\"}"));
}

#[test]
fn senders_describe_themselves() {
    let s = settings();
    let d = build_requester(&s, &full(), "10.0.0.7").unwrap();
    assert_eq!(d.device_id, "you");
    assert_eq!(d.name, "Y ou");
    assert_eq!(d.model, Some("PC".to_string()));
    assert_eq!(d.host, Some("10.0.0.7".to_string()));
    assert_eq!(d.port, 9000);
    assert_eq!(d.token, Some("654321".to_string()));
    assert!(d.sharing && d.paired);
    for lacking in ["x-device-id", "x-my-token", "x-my-port"] {
        let mut h = full();
        h.remove(lacking);
        assert!(build_requester(&s, &h, "ip").is_none());
    }
    let mut h = full();
    h.insert("x-my-port".to_string(), "70000".to_string());
    assert!(build_requester(&s, &h, "ip").is_none());
    let mut h = full();
    h.insert("x-device-id".to_string(), "me".to_string());
    assert!(build_requester(&s, &h, "ip").is_none());
    let mut h = full();
    h.remove("x-device-name");
    h.remove("x-device-model");
    let d = build_requester(&s, &h, "ip").unwrap();
    assert_eq!(d.name, "未知设备");
    assert_eq!(d.model, None);
}

#[test]
fn senders_are_paired_in_turn() {
    let mut s = settings();
    assert!(maybe_auto_pair(&mut s, &full(), "ip"));
    assert_eq!(s.paired.get("you").unwrap().token, Some("654321".to_string()));
    assert!(!maybe_auto_pair(&mut s, &full(), "other"));
    assert_eq!(s.paired.get("you").unwrap().host, Some("ip".to_string()));
    let mut h = full();
    h.insert("x-my-port".to_string(), "9001".to_string());
    assert!(maybe_auto_pair(&mut s, &h, "other"));
    assert_eq!(s.paired.get("you").unwrap().host, Some("other".to_string()));
    let mut s = settings();
    s.blocked.insert("you".to_string(), BlockedInfo::default());
    assert!(!maybe_auto_pair(&mut s, &full(), "ip"));
    assert!(!s.paired.contains_key("you"));
    assert!(!maybe_auto_pair(&mut s, &headers(&[]), "ip"));
}

#[test]
fn fetching_content_pairs_nobody_anew() {
    let mut s = settings();
    assert_eq!(admit_content(&mut s, &full(), "ip").err().unwrap().code, 403);
    assert!(!s.paired.contains_key("you"));
    s.paired.insert("you".to_string(), LanDevice::default());
    assert_eq!(admit_content(&mut s, &full(), "ip").ok(), Some(true));
    assert_eq!(admit_content(&mut s, &full(), "ip").ok(), Some(false));
    assert_eq!(s.paired.keys().len(), 1);
}

#[test]
fn devices_say_what_they_are() {
    let mut s = settings();
    s.auto_accept_pair = true;
    let r = handle_info(&s, &headers(&[]), Platform::Windows);
    assert_eq!(r.code, 200);
    let doc = r.body.as_bytes();
    assert_eq!(get_text(doc, "deviceId"), Some("me".to_string()));
    assert_eq!(get_text(doc, "name"), Some("Mine".to_string()));
    assert_eq!(get_text(doc, "model"), Some("Windows PC".to_string()));
    assert_eq!(get_bool(doc, "sharing"), Some(true));
    assert_eq!(get_bool(doc, "autoAccept"), Some(true));
    assert_eq!(get_i64(doc, "version"), Some(1));
    assert!(fetch_info(r.code, r.body.clone().into_bytes()).is_ok());
    s.blocked.insert("you".to_string(), BlockedInfo::default());
    let r = handle_info(&s, &full(), Platform::Mac);
    assert_eq!(r.code, 403);
    match forbidden(r.body.as_bytes()) {
        LanErr::Blocked(id) => assert_eq!(id, Some("me".to_string())),
        _ => panic!("not blocked"),
    }
}

#[test]
fn pairing_needs_sharing_and_a_whole_request() {
    let mut s = settings();
    s.sharing = false;
    match handle_pair(&mut s, &full(), "ip") {
        PairStep::Refused(r) => assert_eq!(shown(&r), (403, "{\"error\":\"sharing_off\"}")),
        _ => panic!("not refused"),
    }
    let mut s = settings();
    match handle_pair(&mut s, &headers(&[("x-token", "123456")]), "ip") {
        PairStep::Refused(r) => assert_eq!(shown(&r), (400, "{\"error\":\"bad_request\"}")),
        _ => panic!("not refused"),
    }
    let mut h = full();
    h.remove("x-token");
    match handle_pair(&mut s, &h, "ip") {
        PairStep::Refused(r) => assert_eq!(shown(&r), (401, "{\"error\":\"bad_token\"}")),
        _ => panic!("not refused"),
    }
}

#[test]
fn pairing_without_asking() {
    let mut s = settings();
    s.auto_accept_pair = true;
    let mut h = full();
    h.remove("x-token");
    match handle_pair(&mut s, &h, "ip") {
        PairStep::Granted(r) => {
            assert_eq!(shown(&r), (200, "{\"result\":\"ok\",\"token\":\"123456\"}"));
            assert_eq!(request_pair(r.code, r.body.as_bytes()).unwrap(), Some("123456".to_string()));
        }
        _ => panic!("not granted"),
    }
    assert!(s.paired.contains_key("you"));
    // with the code that was handed over content may be fetched
    let mut h = full();
    h.insert("x-token".to_string(), "123456".to_string());
    assert!(admit_content(&mut s, &h, "ip").is_ok());
}

#[test]
fn pairing_of_a_blocked_device_asks_the_user() {
    let mut s = settings();
    s.auto_accept_pair = true;
    s.blocked.insert("you".to_string(), BlockedInfo::default());
    let (d, token) = match handle_pair(&mut s, &full(), "ip") {
        PairStep::Asked(d, t) => (d, t),
        _ => panic!("not asked"),
    };
    assert!(!s.paired.contains_key("you"));
    let r = pair_answered(&mut s, d.clone(), &token, Some(false));
    assert_eq!(shown(&r), (409, "{\"error\":\"rejected\"}"));
    assert!(matches!(request_pair(r.code, r.body.as_bytes()), Err(LanErr::Rejected)));
    let r = pair_answered(&mut s, d.clone(), &token, None);
    assert_eq!(shown(&r), (409, "{\"error\":\"need_confirm\"}"));
    assert!(matches!(request_pair(r.code, r.body.as_bytes()), Err(LanErr::NeedConfirm)));
    assert!(s.blocked.contains_key("you"));
    let r = pair_answered(&mut s, d, &token, Some(true));
    assert_eq!(r.code, 200);
    assert!(s.paired.contains_key("you") && !s.blocked.contains_key("you"));
}

#[test]
fn the_user_answers_once() {
    let mut sh = LanShared::new("f".to_string(), settings(), 10_000);
    assert_eq!(ask_pair_approval(&mut sh, "you", 1), None);
    assert_eq!(ask_pair_approval(&mut sh, "you", 2), Some(1));
    assert_eq!(lan_respond_pair(&mut sh, "you"), Some(2));
    assert_eq!(lan_respond_pair(&mut sh, "you"), None);
}

#[test]
fn pairings_end() {
    let mut s = settings();
    s.paired.insert("you".to_string(), LanDevice::default());
    let (r, changed) = handle_unpair(&mut s, &headers(&[("x-device-id", "you")]));
    assert_eq!((shown(&r), changed), ((401, "{\"error\":\"bad_token\"}"), false));
    for id in ["", "me"] {
        let h = headers(&[("x-token", "123456"), ("x-device-id", id)]);
        let (r, changed) = handle_unpair(&mut s, &h);
        assert_eq!((shown(&r), changed), ((400, "{\"error\":\"bad_request\"}"), false));
    }
    let (r, _) = handle_unpair(&mut s, &headers(&[("x-token", "123456")]));
    assert_eq!(r.code, 400);
    s.sharing = false;
    let (r, changed) = handle_unpair(&mut s, &full());
    assert_eq!((shown(&r), changed), ((200, "{\"result\":\"ok\"}"), true));
    s.sharing = true;
    assert!(admit_content(&mut s, &full(), "ip").is_err());
}

#[test]
fn blocks_are_lifted() {
    let mut s = settings();
    s.blocked_by.insert("you".to_string());
    assert_eq!(handle_unblocked(&mut s, &headers(&[])).0.code, 401);
    assert!(s.blocked_by.contains("you"));
    let (r, changed) = handle_unblocked(&mut s, &full());
    assert_eq!((r.code, changed), (200, true));
    assert!(!s.blocked_by.contains("you"));
}

#[test]
fn notices_of_blocking_are_checked() {
    let s = settings();
    assert_eq!(handle_blocked_notice(&s, &full()).ok(), Some(("you".to_string(), 9000)));
    for h in [
        headers(&[("x-my-port", "9000")]),
        headers(&[("x-device-id", "me"), ("x-my-port", "9000")]),
        headers(&[("x-device-id", "you")]),
        headers(&[("x-device-id", "you"), ("x-my-port", "0")]),
    ] {
        assert_eq!(handle_blocked_notice(&s, &h).err().unwrap().code, 400);
    }
    let mut sh = LanShared::new("f".to_string(), settings(), 10_000);
    sh.settings.paired.insert("you".to_string(), LanDevice::default());
    for answer in [Ok(b"{}".to_vec()), Err(LanErr::Http(404)), Err(LanErr::SharingOff)] {
        let (r, counts) = blocked_notice_checked(&mut sh, "you", &answer);
        assert_eq!(shown(&r), (200, "{\"result\":\"ok\",\"verified\":false}"));
        assert!(!counts && sh.settings.paired.contains_key("you"));
    }
    let (r, counts) = blocked_notice_checked(&mut sh, "you", &Err(LanErr::Blocked(None)));
    assert_eq!(shown(&r), (200, "{\"result\":\"ok\",\"verified\":true}"));
    assert!(counts);
    assert!(!sh.settings.paired.contains_key("you"));
    assert!(sh.settings.blocked_by.contains("you"));
}

fn row(id: i64, kind: &str, from: Option<&str>) -> ClipRow {
    ClipRow {
        id,
        kind: kind.to_string(),
        content: Some(format!("c{id}")),
        image_len: Some(7),
        created_at: 100,
        remote_device_id: from.map(|s| s.to_string()),
        remote_id: from.map(|_| 55),
    }
}

#[test]
fn clips_are_offered() {
    let mut s = settings();
    s.paired.insert("you".to_string(), LanDevice::default());
    let a = handle_clips(&mut s, &full(), &parse_query("since=99"), "ip").ok().unwrap();
    assert_eq!(a.since, 99);
    assert_eq!(a.asking, "you");
    assert_eq!(a.my_id, "me");
    assert!(a.changed);
    let rows = vec![
        row(1, "text", None),
        row(2, "file", None),
        row(3, "image", Some("third")),
        row(4, "text", Some("you")),
    ];
    let r = clips_reply(&rows, &a.asking, &a.my_id);
    assert_eq!(r.code, 200);
    let docs = fetch_clips(r.code, r.body.as_bytes()).unwrap();
    assert_eq!(docs.len(), 2);
    assert_eq!(get_i64(&docs[0], "id"), Some(1));
    assert_eq!(get_i64(&docs[0], "type"), Some(0));
    assert_eq!(get_text(&docs[0], "text"), Some("c1".to_string()));
    assert_eq!(get_i64(&docs[0], "timestamp"), Some(100_000));
    assert_eq!(get_text(&docs[0], "remoteDeviceId"), Some("me".to_string()));
    assert_eq!(get_i64(&docs[0], "remoteId"), Some(1));
    assert_eq!(get_text(&docs[0], "fileName"), None);
    assert_eq!(get_i64(&docs[1], "type"), Some(1));
    assert_eq!(get_text(&docs[1], "remoteDeviceId"), Some("third".to_string()));
    assert_eq!(get_i64(&docs[1], "remoteId"), Some(55));
    assert_eq!(get_text(&docs[1], "fileName"), Some("clip_3.png".to_string()));
    assert_eq!(get_i64(&docs[1], "fileSize"), Some(7));
    assert_eq!(clips_reply(&vec![], "a", "b").body, "[]");
}

#[test]
fn clips_need_pairing() {
    let mut s = settings();
    let r = handle_clips(&mut s, &full(), &parse_query(""), "ip").err().unwrap();
    assert_eq!(r.code, 403);
    assert!(matches!(fetch_clips(r.code, r.body.as_bytes()), Err(LanErr::Unpaired)));
    let r = handle_clips(&mut s, &headers(&[]), &parse_query(""), "ip").err().unwrap();
    assert!(matches!(fetch_clips(r.code, r.body.as_bytes()), Err(LanErr::NeedPairing)));
    s.sharing = false;
    let r = handle_clips(&mut s, &full(), &parse_query(""), "ip").err().unwrap();
    assert!(matches!(fetch_clips(r.code, r.body.as_bytes()), Err(LanErr::SharingOff)));
}

#[test]
fn pictures_are_handed_out() {
    let mut s = settings();
    assert_eq!(handle_file(&mut s, &full(), &parse_query("id=3"), "ip").0.err().unwrap().code, 403);
    s.paired.insert("you".to_string(), LanDevice::default());
    let (r, changed) = handle_file(&mut s, &full(), &parse_query("id=3"), "ip");
    assert_eq!((r.ok(), changed), (Some(3), true));
    let (r, changed) = handle_file(&mut s, &full(), &parse_query("id=x"), "ip");
    assert_eq!((r.err().unwrap().code, changed), (400, false));
    assert_eq!(handle_file(&mut s, &full(), &parse_query(""), "ip").0.err().unwrap().code, 400);
    let b = file_reply(&Some(vec![1, 2, 3]));
    assert!(b.starts_with(b"HTTP/1.1 200 OK\r\nContent-Type: application/octet-stream; charset=utf-8\r\nContent-Length: 3"));
    assert!(b.ends_with(&[1, 2, 3]));
    let b = file_reply(&None);
    assert!(b.starts_with(b"HTTP/1.1 404"));
    assert!(b.ends_with(b"\r\n\r\nFile Not Found"));
}

#[test]
fn requests_are_understood_as_they_were_meant() {
    let mut sh = LanShared::new("f".to_string(), settings(), 10_000);
    sh.settings.device_id = "you".to_string();
    sh.settings.device_name = "Büro 电脑".to_string();
    sh.settings.pairing_token = "654321".to_string();
    sh.actual_port = 9000;
    let text = http_get(&sh, Platform::Mac, "10.0.0.1", 8765, "/clips?since=5", &Some("123456".to_string()));
    let bytes = text.into_bytes();
    let end = match head_progress(&bytes) {
        HeadProgress::Complete(n) => n,
        _ => panic!("no end"),
    };
    assert_eq!(end + 4, bytes.len());
    let q = read_request(&bytes[..end]).unwrap();
    assert_eq!(handle_conn(&q), Route::Clips);
    assert_eq!(q.query, "since=5");
    let d = build_requester(&settings(), &q.headers, "ip").unwrap();
    assert_eq!(d.device_id, "you");
    assert_eq!(d.name, "Büro 电脑");
    assert_eq!(d.model, Some("Mac".to_string()));
    assert_eq!(d.port, 9000);
    assert_eq!(d.token, Some("654321".to_string()));
    assert!(authorize(&settings(), &q.headers).is_none());
}
