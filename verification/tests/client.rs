use lscopy::client::{
    answer_fault, clips_call, download_file, fetch_clips, fetch_info, file_call, forbidden,
    http_get_raw, info_request, notify_blocked, notify_unblocked, notify_unpair, pair_call,
    read_timeout, request_pair, AnswerFault, LanErr,
};
use lscopy::http::read_request;
use lscopy::lan::{BlockedInfo, LanDevice, LanSettings, LanShared, Platform};
use lscopy::server::{handle_conn, handle_info, Route};

fn device() -> LanDevice {
    let mut d = LanDevice::default();
    d.host = Some("10.0.0.7".to_string());
    d.port = 9000;
    d.token = Some("t".to_string());
    d
}

#[test]
fn faults_have_words() {
    assert_eq!(LanErr::Net("x".to_string()).message(), "连接失败: x");
    assert_eq!(LanErr::Http(502).message(), "HTTP 502");
    assert_eq!(LanErr::NeedPairing.message(), "配对码错误");
    assert_eq!(LanErr::SharingOff.message(), "对方未开启共享");
    assert_eq!(LanErr::Rejected.message(), "对方拒绝了配对");
    assert_eq!(LanErr::NeedConfirm.message(), "等待对方确认超时");
    assert_eq!(LanErr::Unpaired.message(), "对方已解除配对");
    assert_eq!(LanErr::Blocked(None).message(), "已被对方拉黑");
    assert_eq!(answer_fault(AnswerFault::NoAddress).message(), "连接失败: 地址解析失败");
    assert_eq!(answer_fault(AnswerFault::HeadTooLarge).message(), "连接失败: 响应头过大");
    assert_eq!(answer_fault(AnswerFault::Closed).message(), "连接失败: 连接被关闭");
}

#[test]
fn requests_are_written() {
    let t = http_get_raw("h", 80, "/p", "id", "n n", Platform::Other, 0, &None, &None);
    assert_eq!(t, "GET /p HTTP/1.1\r\nHost: h:80\r\nConnection: close\r\nX-Device-Id: id\r\nX-Device-Name: n%20n\r\nX-Device-Model: PC\r\n\r\n");
    let t = http_get_raw("h", 80, "/p", "id", "n", Platform::Windows, 9, &Some("a".to_string()), &Some("b".to_string()));
    assert_eq!(t, "GET /p HTTP/1.1\r\nHost: h:80\r\nConnection: close\r\nX-Device-Id: id\r\nX-Device-Name: n\r\nX-Device-Model: Windows%20PC\r\nX-My-Port: 9\r\nX-Token: a\r\nX-My-Token: b\r\n\r\n");
}

#[test]
fn blocked_askers_are_told() {
    let mut me = LanSettings::default();
    me.device_id = "me".to_string();
    me.device_name = "M e".to_string();
    me.pairing_token = "123456".to_string();
    let me = LanShared::new("f".to_string(), me, 10_000);
    let t = info_request(&me, Platform::Mac, "h", 80);
    assert_eq!(t, "GET /info HTTP/1.1\r\nHost: h:80\r\nConnection: close\r\nX-Device-Id: me\r\nX-Device-Name: M%20e\r\nX-Device-Model: Mac\r\n\r\n");
    let q = read_request(t.trim_end().as_bytes()).unwrap();
    assert_eq!(handle_conn(&q), Route::Info);
    let mut you = LanSettings::default();
    you.device_id = "you".to_string();
    let r = handle_info(&you, &q.headers, Platform::Windows);
    assert!(fetch_info(r.code, r.body.into_bytes()).is_ok());
    you.blocked.insert("me".to_string(), BlockedInfo::default());
    let r = handle_info(&you, &q.headers, Platform::Windows);
    assert_eq!(r.code, 403);
    match fetch_info(r.code, r.body.into_bytes()) {
        Err(LanErr::Blocked(by)) => assert_eq!(by, Some("you".to_string())),
        _ => panic!("not refused"),
    }
}

#[test]
fn questions_go_to_the_device() {
    let c = clips_call(&device(), -5).unwrap();
    assert_eq!((c.host.as_str(), c.port, c.path.as_str(), c.timeout), ("10.0.0.7", 9000, "/clips?since=-5", 5));
    assert_eq!(c.token, Some("t".to_string()));
    assert_eq!(pair_call(&device()).unwrap().path, "/pair");
    assert_eq!(pair_call(&device()).unwrap().timeout, 35);
    assert_eq!(file_call(&device(), 12).unwrap().path, "/file?id=12");
    assert_eq!(notify_unpair(&device()).unwrap().path, "/unpair");
    let b = notify_blocked("x", 7);
    assert_eq!((b.path.as_str(), b.token, b.timeout), ("/blocked", None, 3));
    let mut away = device();
    away.host = None;
    assert_eq!(clips_call(&away, 0).err().unwrap().message(), "连接失败: 设备离线");
    assert!(pair_call(&away).is_err());
    assert!(file_call(&away, 1).is_err());
    assert!(notify_unpair(&away).is_none());
    assert_eq!(read_timeout(5), 30);
    assert_eq!(read_timeout(35), 35);
}

#[test]
fn unblocking_is_told_where_that_is_possible() {
    let mut b = BlockedInfo::default();
    assert!(notify_unblocked(&b).is_none());
    b.host = Some("h".to_string());
    assert!(notify_unblocked(&b).is_none());
    b.token = Some("t".to_string());
    assert_eq!(notify_unblocked(&b).unwrap().path, "/unblocked");
}

#[test]
fn refusals_are_understood() {
    assert!(matches!(forbidden(b"{\"error\":\"unpaired\"}"), LanErr::Unpaired));
    assert!(matches!(forbidden(b"{\"error\":\"sharing_off\"}"), LanErr::SharingOff));
    assert!(matches!(forbidden(b"no json"), LanErr::SharingOff));
    assert!(matches!(forbidden(b"{\"error\":\"blocked\"}"), LanErr::Blocked(None)));
    match forbidden(b"{\"error\":\"blocked\",\"deviceId\":\"d\"}") {
        LanErr::Blocked(Some(d)) => assert_eq!(d, "d"),
        _ => panic!("not blocked"),
    }
}

#[test]
fn answers_about_devices_are_understood() {
    assert_eq!(fetch_info(200, b"{}".to_vec()).unwrap(), b"{}".to_vec());
    let e = fetch_info(200, b"{".to_vec()).err().unwrap().message();
    assert!(e.starts_with("连接失败: 响应解析失败: EOF"));
    assert!(matches!(fetch_info(403, b"{}".to_vec()), Err(LanErr::Blocked(None))));
    assert!(matches!(fetch_info(500, b"{}".to_vec()), Err(LanErr::Http(500))));
}

#[test]
fn answers_with_clips_are_understood() {
    assert_eq!(fetch_clips(200, b"[{\"a\":1},2]").unwrap().len(), 2);
    assert_eq!(fetch_clips(200, b"{}").unwrap().len(), 0);
    assert!(matches!(fetch_clips(200, b"["), Err(LanErr::Net(_))));
    assert!(matches!(fetch_clips(401, b""), Err(LanErr::NeedPairing)));
    assert!(matches!(fetch_clips(403, b""), Err(LanErr::SharingOff)));
    assert!(matches!(fetch_clips(404, b""), Err(LanErr::Http(404))));
}

#[test]
fn answers_to_pairing_are_understood() {
    assert_eq!(request_pair(200, b"{\"token\":\"9\"}").unwrap(), Some("9".to_string()));
    assert_eq!(request_pair(200, b"x").unwrap(), None);
    assert!(matches!(request_pair(401, b""), Err(LanErr::NeedPairing)));
    assert!(matches!(request_pair(403, b"{\"error\":\"unpaired\"}"), Err(LanErr::Unpaired)));
    assert!(matches!(request_pair(409, b"{\"error\":\"rejected\"}"), Err(LanErr::Rejected)));
    assert!(matches!(request_pair(409, b""), Err(LanErr::NeedConfirm)));
    assert!(matches!(request_pair(500, b""), Err(LanErr::Http(500))));
}

#[test]
fn files_are_taken_as_they_are() {
    assert_eq!(download_file(200, vec![1, 2]).unwrap(), vec![1, 2]);
    assert!(matches!(download_file(401, vec![]), Err(LanErr::NeedPairing)));
    assert!(matches!(download_file(403, vec![]), Err(LanErr::SharingOff)));
    assert!(matches!(download_file(404, vec![]), Err(LanErr::Http(404))));
}
