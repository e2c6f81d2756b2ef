use lscopy::client::LanErr;
use lscopy::http::{head_progress, read_request, HeadProgress};
use lscopy::json::get_text;
use lscopy::lan::{BlockedInfo, Discovered, LanDevice, LanSettings, LanShared, Platform};
use lscopy::server::{handle_conn, Route};
use lscopy::strmap::StrMap;
use lscopy::transfer::{
    body_incomplete, directory_failure, drain_body, emit_progress, handle_recv, join_lines,
    nobody_there, record_transfer, recv_answered, recv_body, recv_closed, recv_dir, recv_done,
    recv_failed, recv_request_id, remove_recv_file, resolve_by_id, resolve_by_ip, sanitize_file_name,
    send_failure, send_head, send_one, send_paths_to, send_piece, transfer_clear_history,
    transfer_delete, transfer_history, transfer_reveal, transfer_send, transfer_send_ip,
    try_another, unique_path, Blocks, RecvEnd, RecvQueue, SendTarget, TransferSettings,
};
use lscopy::url::parse_query;

fn settings() -> LanSettings {
    let mut s = LanSettings::default();
    s.device_id = "me".to_string();
    s.device_name = "Mine".to_string();
    s.pairing_token = "123456".to_string();
    s
}

fn headers(list: &[(&str, &str)]) -> StrMap<String> {
    let mut m = StrMap::new();
    for (k, v) in list {
        m.insert(k.to_string(), v.to_string());
    }
    m
}

#[test]
fn received_files_have_a_place() {
    let mut t = TransferSettings::default();
    let sys = Some("/home/d".to_string());
    assert!(!t.auto_accept);
    assert_eq!(recv_dir(&t, &sys), sys);
    t.download_dir = Some("  ".to_string());
    assert_eq!(recv_dir(&t, &None), None);
    t.download_dir = Some(" /x ".to_string());
    assert_eq!(recv_dir(&t, &sys), Some("/x".to_string()));
}

#[test]
fn progress_is_reported_now_and_then() {
    let mut last = 1000;
    assert!(!emit_progress(&mut last, 1099, false));
    assert!(emit_progress(&mut last, 1099, true));
    assert_eq!(last, 1099);
    assert!(emit_progress(&mut last, 1199, false));
}

#[test]
fn transfers_are_recorded() {
    let r = record_transfer("peer", "a.txt", "/d/a.txt", u64::MAX, 9);
    assert_eq!((r.direction.as_str(), r.size, r.ok, r.created_at), ("recv", -1, true, 9));
    assert_eq!(r.path, Some("/d/a.txt".to_string()));
    assert_eq!(r.msg, None);
    let text = |t: &str| t.to_string();
    let row = transfer_history(3, text("recv"), text("peer"), text("a"), None, 5, 1, None, 9);
    assert_eq!((row.id, row.size, row.ok, row.created_at), (3, 5, true, 9));
    assert_eq!((row.direction.as_str(), row.peer.as_str()), ("recv", "peer"));
    assert_eq!((row.file_name.as_str(), row.path, row.msg), ("a", None, None));
    let failed =
        transfer_history(4, text("recv"), text("p"), text("a"), None, 0, 0, Some(text("e")), 9);
    assert!(!failed.ok && failed.msg == Some(text("e")));
}

#[test]
fn receipts_end_one_way_or_the_other() {
    let h = headers(&[("content-length", "5"), ("x-device-name", "Peer")]);
    let i = handle_recv(&settings(), &h, &parse_query("name=a.txt"), "ip", 1).ok().unwrap();
    match recv_closed(&i, "a (1).txt", "/d/a (1).txt", &Ok(()), 9) {
        RecvEnd::Kept(t, r) => {
            assert_eq!((t.peer.as_str(), t.file_name.as_str(), t.size), ("Peer", "a (1).txt", 5));
            assert_eq!((t.path, t.ok, t.created_at), (Some("/d/a (1).txt".to_string()), true, 9));
            assert_eq!(r.code, 200);
            assert!(r.body.contains("a (1).txt"));
        }
        _ => panic!("dropped"),
    }
    match recv_closed(&i, "a.txt", "/d/a.txt", &Err("x".to_string()), 9) {
        RecvEnd::Dropped(p, r) => {
            assert_eq!((p.as_str(), r.code), ("/d/a.txt", 500));
            assert_eq!(r.body, "{\"error\":\"x\"}");
        }
        _ => panic!("kept"),
    }
}

#[test]
fn only_received_files_are_deleted() {
    let p = Some("/x".to_string());
    assert_eq!(remove_recv_file("recv", &p), p);
    assert_eq!(remove_recv_file("send", &p), None);
    assert_eq!(transfer_delete("recv", &p, true), p);
    assert_eq!(transfer_delete("recv", &p, false), None);
    let rows = vec![
        ("recv".to_string(), p.clone()),
        ("send".to_string(), Some("/mine".to_string())),
        ("recv".to_string(), None),
    ];
    assert_eq!(transfer_clear_history(&rows, true), vec!["/x".to_string()]);
    assert!(transfer_clear_history(&rows, false).is_empty());
}

#[test]
fn names_are_made_safe() {
    assert_eq!(sanitize_file_name("../../etc/passwd", 5), "passwd");
    assert_eq!(sanitize_file_name("C:\\a\\b?.txt", 5), "b.txt");
    assert_eq!(sanitize_file_name(" ..a:b*c\u{7}.txt.. ", 5), "abc.txt");
    assert_eq!(sanitize_file_name("..", 5), "recv_5");
    assert_eq!(sanitize_file_name("a/", -5), "recv_-5");
    assert_eq!(sanitize_file_name("", 5), "recv_5");
    // dots that only come to light once the others are gone
    assert_eq!(sanitize_file_name(". .. .", 5), "recv_5");
    assert_eq!(sanitize_file_name(". . .", 5), "recv_5");
    assert_eq!(sanitize_file_name(". ..a .", 5), "..a");
    assert_eq!(unique_path(&sanitize_file_name("x/. .. .", 5), 1, 9), "recv_5 (1)");
    for n in ["a/b", "a\\b", "<>|\"", "x\ny"] {
        let s = sanitize_file_name(n, 1);
        assert!(!s.is_empty() && !s.contains(['/', '\\', '<', '>', '|', '"', '\n']));
    }
}

#[test]
fn taken_names_are_avoided() {
    assert_eq!(unique_path("a.tar.gz", 0, 9), "a.tar.gz");
    assert_eq!(unique_path("a.tar.gz", 1, 9), "a.tar (1).gz");
    assert_eq!(unique_path("a", 12, 9), "a (12)");
    assert_eq!(unique_path(".rc", 2, 9), ".rc (2)");
    assert_eq!(unique_path("a.b", 1000, 9), "a_9.b");
    assert!(try_another(0, true) && try_another(999, true));
    assert!(!try_another(1000, true) && !try_another(0, false));
    assert_ne!(unique_path("a", 3, 9), unique_path("a", 4, 9));
}

#[test]
fn files_are_announced() {
    let mut s = settings();
    let q = parse_query("name=a%2Fb.txt&size=5");
    let h = headers(&[("content-length", "5"), ("x-device-name", "P%20C"), ("x-enc-nonce", "00ff")]);
    let i = handle_recv(&s, &h, &q, "10.0.0.1", 7).ok().unwrap();
    assert_eq!((i.name.as_str(), i.total, i.nonce), ("b.txt", 5, Some(255)));
    assert_eq!((i.token.as_str(), i.peer.as_str()), ("123456", "P C"));
    assert_eq!(handle_recv(&s, &headers(&[]), &q, "ip", 7).err().unwrap().code, 400);
    let h = headers(&[("content-length", "5"), ("x-device-id", "you"), ("x-device-name", "")]);
    let i = handle_recv(&s, &h, &parse_query(""), "10.0.0.1", 7).ok().unwrap();
    assert_eq!((i.name.as_str(), i.peer.as_str(), i.nonce), ("recv_7", "10.0.0.1", None));
    let mut d = LanDevice::default();
    d.name = "Kept".to_string();
    s.paired.insert("you".to_string(), d);
    assert_eq!(handle_recv(&s, &h, &q, "ip", 7).ok().unwrap().peer, "Kept");
    s.blocked.insert("you".to_string(), BlockedInfo::default());
    let r = handle_recv(&s, &h, &q, "ip", 7).err().unwrap();
    assert_eq!((r.code, r.body.as_str()), (403, "{\"error\":\"unpaired\"}"));
}

#[test]
fn the_user_decides_about_files() {
    assert!(recv_answered(true, None).is_none());
    assert!(recv_answered(false, Some(true)).is_none());
    let r = recv_answered(false, Some(false)).unwrap();
    assert_eq!((r.code, r.body.as_str()), (403, "{\"error\":\"rejected\"}"));
    let r = recv_answered(false, None).unwrap();
    assert_eq!((r.code, r.body.as_str()), (409, "{\"error\":\"confirm_timeout\"}"));
    let mut q = RecvQueue::new();
    let id = recv_request_id(255);
    assert_eq!(id, "00000000000000ff");
    q.ask_recv_approval(&id, 3);
    assert_eq!(q.transfer_respond_recv(&id), Some(3));
    assert_eq!(q.transfer_respond_recv(&id), None);
}

#[test]
fn files_are_answered() {
    let r = recv_failed("x");
    assert_eq!((r.code, r.body.as_str()), (500, "{\"error\":\"x\"}"));
    let r = recv_done("a\"b");
    assert_eq!(r.code, 200);
    assert_eq!(get_text(r.body.as_bytes(), "result"), Some("ok".to_string()));
    assert_eq!(get_text(r.body.as_bytes(), "savedAs"), Some("a\"b".to_string()));
    assert_eq!(drain_body(10, 100), 90);
    assert_eq!(drain_body(100, 10), 0);
    assert_eq!(drain_body(0, u64::MAX), 64 * 1024 * 1024);
}

#[test]
fn bodies_arrive_however_they_are_cut() {
    let file: Vec<u8> = (0..100u8).collect();
    for step in [1usize, 3, 8, 13, 200] {
        let mut b = Blocks::new(file[..2].to_vec(), 100);
        let mut out: Vec<u8> = Vec::new();
        let mut at = 2;
        loop {
            let end = if at + step > 100 { 100 } else { at + step };
            let (piece, block, last) = recv_body(&mut b, &file[at..end]).unwrap();
            at = end;
            assert_eq!(block as usize * 8, out.len());
            out.extend_from_slice(&piece);
            if last {
                break;
            }
        }
        assert_eq!(out, file);
    }
}

#[test]
fn bodies_end_where_they_were_announced_to() {
    let mut b = Blocks::new(vec![1, 2, 3, 4], 3);
    assert!(!b.wants_more());
    let (piece, block, last) = recv_body(&mut b, &[]).unwrap();
    assert_eq!((piece, block, last), (vec![1, 2, 3], 0, true));
    let mut b = Blocks::new(vec![], 0);
    assert_eq!(recv_body(&mut b, &[]).unwrap(), (vec![], 0, true));
    let mut b = Blocks::new(vec![1], 3);
    assert_eq!(recv_body(&mut b, &[]).err().unwrap(), "连接提前关闭，文件不完整");
    assert_eq!(body_incomplete(), "连接提前关闭，文件不完整");
}

fn combine(block: u64, piece: &mut [u8]) {
    for (i, b) in piece.iter_mut().enumerate() {
        let place = block as usize * 8 + i;
        *b ^= ((place * 37 + 11) % 251) as u8;
    }
}

#[test]
fn enciphered_files_come_back() {
    let file: Vec<u8> = (0..100u8).collect();
    for (out_step, in_step) in [(1usize, 13usize), (3, 1), (8, 5), (13, 8), (200, 7)] {
        let mut from = Blocks::new(vec![], u64::MAX);
        let mut body: Vec<u8> = Vec::new();
        let mut at = 0;
        loop {
            let end = if at + out_step > 100 { 100 } else { at + out_step };
            let (mut piece, block) = send_piece(&mut from, &file[at..end]);
            combine(block, &mut piece);
            body.extend_from_slice(&piece);
            if at == 100 {
                break;
            }
            at = end;
        }
        assert_eq!(from.passed, 100);
        assert_ne!(body, file);
        let mut to = Blocks::new(body[..3].to_vec(), 100);
        let mut out: Vec<u8> = Vec::new();
        let mut at = 3;
        loop {
            let end = if at + in_step > 100 { 100 } else { at + in_step };
            let (mut piece, block, last) = recv_body(&mut to, &body[at..end]).unwrap();
            at = end;
            combine(block, &mut piece);
            out.extend_from_slice(&piece);
            if last {
                break;
            }
        }
        assert_eq!(out, file);
    }
}

#[test]
fn files_go_out_however_they_are_read() {
    let file: Vec<u8> = (0..100u8).collect();
    for step in [1usize, 3, 8, 13, 200] {
        let mut b = Blocks::new(vec![], u64::MAX);
        let mut out: Vec<u8> = Vec::new();
        let mut at = 0;
        loop {
            let end = if at + step > 100 { 100 } else { at + step };
            let (piece, block) = send_piece(&mut b, &file[at..end]);
            assert_eq!(block as usize * 8, out.len());
            out.extend_from_slice(&piece);
            if at == 100 {
                break;
            }
            at = end;
        }
        assert_eq!(out, file);
    }
}

#[test]
fn targets_are_found_by_identity() {
    let mut s = LanShared::new("f".to_string(), settings(), 10_000);
    assert_eq!(resolve_by_id(&s, "you").err().unwrap(), "设备不在线");
    let mut d = LanDevice::default();
    d.name = "Y".to_string();
    d.token = Some("t".to_string());
    s.settings.paired.insert("you".to_string(), d.clone());
    assert_eq!(resolve_by_id(&s, "you").err().unwrap(), "设备离线");
    d.host = Some("h".to_string());
    d.port = 5;
    d.token = None;
    s.discovered.insert("you".to_string(), Discovered { device: d, last_seen: 0 });
    let t = resolve_by_id(&s, "you").unwrap();
    assert_eq!((t.host.as_str(), t.port, t.name.as_str(), t.token), ("h", 5, "Y", Some("t".to_string())));
    s.settings.blocked_by.insert("you".to_string());
    assert_eq!(resolve_by_id(&s, "you").err().unwrap(), "该设备在黑名单中");
}

#[test]
fn targets_are_found_by_address() {
    let mut s = settings();
    let ok = Ok(b"{\"deviceId\":\"you\",\"name\":\"\"}".to_vec());
    let t = resolve_by_ip(&s, "h", 5, &ok).unwrap().unwrap();
    assert_eq!((t.host.as_str(), t.port, t.name.as_str(), t.token), ("h", 5, "h", None));
    let t = resolve_by_ip(&s, "h", 5, &Ok(b"{\"name\":\"N\"}".to_vec())).unwrap().unwrap();
    assert_eq!(t.name, "N");
    let own = Ok(b"{\"deviceId\":\"me\"}".to_vec());
    assert_eq!(resolve_by_ip(&s, "h", 5, &own).unwrap().err().unwrap(), "不能发送给本机");
    s.blocked.insert("you".to_string(), BlockedInfo::default());
    assert_eq!(resolve_by_ip(&s, "h", 5, &ok).unwrap().err().unwrap(), "该设备在黑名单中");
    let blocked = Err(LanErr::Blocked(None));
    assert_eq!(resolve_by_ip(&s, "h", 5, &blocked).unwrap().err().unwrap(), "你已被对方拉黑，无法发送");
    assert!(resolve_by_ip(&s, "h", 5, &Err(LanErr::Http(500))).is_none());
    assert_eq!(nobody_there(), "未找到设备：请确认 IP 正确且对方应用已启动");
}

fn target() -> SendTarget {
    SendTarget { host: "10.0.0.1".to_string(), port: 8765, name: "T".to_string(), token: None }
}

#[test]
fn heads_of_files_are_understood() {
    let text = send_head(&settings(), Platform::Mac, &target(), "a b&c?=.txt", 77, Some(255));
    assert!(text.starts_with("POST /recv?name=a%20b%26c%3F%3D.txt&size=77 HTTP/1.1\r\nHost: 10.0.0.1:8765\r\n"));
    assert!(text.ends_with("X-Enc: 1\r\nX-Enc-Nonce: 00000000000000ff\r\n\r\n"));
    let bytes = text.into_bytes();
    let end = match head_progress(&bytes) {
        HeadProgress::Complete(n) => n,
        _ => panic!("no end"),
    };
    let q = read_request(&bytes[..end]).unwrap();
    assert_eq!(handle_conn(&q), Route::Receive);
    let mut other = settings();
    other.device_id = "other".to_string();
    let i = handle_recv(&other, &q.headers, &parse_query(&q.query), "ip", 0).ok().unwrap();
    assert_eq!((i.name.as_str(), i.total, i.nonce, i.peer.as_str()), ("a b&c=.txt", 77, Some(255), "Mine"));
    let plain = send_head(&settings(), Platform::Mac, &target(), "a", 1, None);
    assert!(!plain.contains("X-Enc"));
}

#[test]
fn answers_to_files_are_understood() {
    assert_eq!(send_one(200, b"", 9).unwrap(), 9);
    let e = |code: u16, body: &[u8]| send_one(code, body, 0).err().unwrap().message();
    assert_eq!(e(404, b""), "连接失败: 对方应用版本过旧，不支持接收文件");
    assert_eq!(e(409, b""), "连接失败: 等待对方确认超时");
    assert_eq!(e(403, b"{\"error\":\"rejected\"}"), "连接失败: 对方拒绝了接收");
    assert_eq!(e(403, b"{\"error\":\"unpaired\"}"), "连接失败: 对方拒绝接收（可能已被对方拉黑）");
    assert_eq!(e(403, b"{\"error\":\"blocked\"}"), "连接失败: 对方拒绝接收（可能已被对方拉黑）");
    assert_eq!(e(403, b""), "连接失败: 对方拒绝接收");
    assert_eq!(e(500, b"{\"error\":\"no_dir\"}"), "连接失败: 发送失败: no_dir");
    assert_eq!(e(502, b""), "连接失败: 发送失败: HTTP 502");
}

#[test]
fn the_user_is_told_what_was_sent() {
    assert_eq!(send_failure("a", &LanErr::Http(500)), "a：HTTP 500");
    assert_eq!(directory_failure("d"), "d：暂不支持发送文件夹");
    assert_eq!(send_paths_to("T", 2, 2, &vec![]), "已发送 2 个文件到「T」");
    let f = vec!["x".to_string(), "y".to_string()];
    assert_eq!(send_paths_to("T", 1, 3, &f), "成功 1/3 个：\nx\ny");
    assert_eq!(join_lines(&vec![]), "");
    assert_eq!(transfer_send(0).err().unwrap(), "未选择文件");
    assert!(transfer_send(1).is_ok());
    assert_eq!(transfer_send_ip(" ", 0).err().unwrap(), "未选择文件");
    assert_eq!(transfer_send_ip(" ", 1).err().unwrap(), "请输入对方 IP");
    assert_eq!(transfer_send_ip(" 1.2 ", 1).unwrap(), "1.2");
}

#[test]
fn files_are_shown_in_their_directory() {
    assert_eq!(transfer_reveal("/x", false, Platform::Mac).err().unwrap(), "文件不存在（可能已被移动或删除）");
    assert_eq!(transfer_reveal("/x", true, Platform::Other).err().unwrap(), "当前平台不支持");
    let (p, a) = transfer_reveal("C:\\x", true, Platform::Windows).unwrap();
    assert_eq!((p.as_str(), a), ("explorer", vec!["/select,C:\\x".to_string()]));
    let (p, a) = transfer_reveal("/x", true, Platform::Mac).unwrap();
    assert_eq!((p.as_str(), a), ("open", vec!["-R".to_string(), "/x".to_string()]));
}
