//! What this device asks of others, and what it makes of their answers.

use crate::http::{
    all_lines, fits_line, head_lines_read_back, head_text, is_word, lemma_dec_fits,
    lemma_first_word, lemma_headers_push, lemma_host_fits, lemma_lead_white, lemma_lower,
    lemma_named_line, lemma_plain_fits, lines_text, one_line, query_part, request_of, string_views,
    text_of_head, words,
};
use crate::json::{
    documents, fault_of, flat_object, flat_value, get_text, items_of, json_fault, json_items,
    lemma_flat_one, lemma_flat_two, plain_text, plain_texts, text_member,
};
use crate::lan::{
    device_model, model_text, BlockedInfo, DeviceView, LanDevice, LanShared, Platform, SettingsView,
    SharedView,
};
use crate::numbers::{dec, dec_int, decimal, decimal_i64};
use crate::server::{
    bad_token, granted_body, header, reply, requester, sharing_off, unpaired, ReplyView,
};
use crate::text::{copy_text, opt_text, same, split, white_space};
use crate::url::{decoding_undoes_encoding, encoded, url_encode};
use vstd::prelude::*;
use vstd::string::*;
use vstd::utf8::*;

verus! {

// ---------- what can go wrong ----------

/// Why another device did not do what it was asked.
#[derive(Debug)]
pub enum LanErr {
    Net(String),
    Http(u16),
    /// The pairing code is wrong or missing.
    NeedPairing,
    /// The other device shares nothing.
    SharingOff,
    /// The other device refused to pair.
    Rejected,
    /// The other device was to be asked, and nobody answered.
    NeedConfirm,
    /// The other device has ended the pairing.
    Unpaired,
    /// The other device has blocked this one; its identity, where it gave one.
    Blocked(Option<String>),
}

/// The view of what went wrong.
pub enum ErrView {
    Net(Seq<char>),
    Http(u16),
    NeedPairing,
    SharingOff,
    Rejected,
    NeedConfirm,
    Unpaired,
    Blocked(Option<Seq<char>>),
}

impl View for LanErr {
    type V = ErrView;

    open spec fn view(&self) -> ErrView {
        match self {
            LanErr::Net(e) => ErrView::Net(e@),
            LanErr::Http(c) => ErrView::Http(*c),
            LanErr::NeedPairing => ErrView::NeedPairing,
            LanErr::SharingOff => ErrView::SharingOff,
            LanErr::Rejected => ErrView::Rejected,
            LanErr::NeedConfirm => ErrView::NeedConfirm,
            LanErr::Unpaired => ErrView::Unpaired,
            LanErr::Blocked(id) => ErrView::Blocked(opt_text(*id)),
        }
    }
}

/// The words for what went wrong.
pub open spec fn err_text(e: ErrView) -> Seq<char> {
    match e {
        ErrView::Net(t) => "连接失败: "@ + t,
        ErrView::Http(c) => "HTTP "@ + dec(c as nat),
        ErrView::NeedPairing => "配对码错误"@,
        ErrView::SharingOff => "对方未开启共享"@,
        ErrView::Rejected => "对方拒绝了配对"@,
        ErrView::NeedConfirm => "等待对方确认超时"@,
        ErrView::Unpaired => "对方已解除配对"@,
        ErrView::Blocked(_) => "已被对方拉黑"@,
    }
}

impl LanErr {
    /// The words for what went wrong.
    pub fn message(&self) -> (r: String)
        ensures
            r@ == err_text(self@),
    {
        match self {
            LanErr::Net(e) => {
                let mut t = "连接失败: ".to_string();
                t.append(e.as_str());
                t
            },
            LanErr::Http(c) => {
                let mut t = "HTTP ".to_string();
                t.append(decimal(*c as u64).as_str());
                t
            },
            LanErr::NeedPairing => "配对码错误".to_string(),
            LanErr::SharingOff => "对方未开启共享".to_string(),
            LanErr::Rejected => "对方拒绝了配对".to_string(),
            LanErr::NeedConfirm => "等待对方确认超时".to_string(),
            LanErr::Unpaired => "对方已解除配对".to_string(),
            LanErr::Blocked(_) => "已被对方拉黑".to_string(),
        }
    }
}

/// Why no answer could be read.
#[derive(Clone, Copy, PartialEq, Eq, Structural, Debug)]
pub enum AnswerFault {
    NoAddress,
    HeadTooLarge,
    Closed,
}

/// What went wrong where no answer could be read.
pub fn answer_fault(f: AnswerFault) -> (r: LanErr)
    ensures
        r@ == ErrView::Net(
            match f {
                AnswerFault::NoAddress => "地址解析失败"@,
                AnswerFault::HeadTooLarge => "响应头过大"@,
                AnswerFault::Closed => "连接被关闭"@,
            },
        ),
{
    let t = match f {
        AnswerFault::NoAddress => "地址解析失败".to_string(),
        AnswerFault::HeadTooLarge => "响应头过大".to_string(),
        AnswerFault::Closed => "连接被关闭".to_string(),
    };
    LanErr::Net(t)
}

// ---------- requests ----------

/// Who asks: what a request tells of its sender.
pub struct SenderView {
    pub id: Seq<char>,
    pub name: Seq<char>,
    pub platform: Platform,
    pub port: u16,
    pub token: Option<Seq<char>>,
}

/// The lines of a request.
pub open spec fn get_lines(
    host: Seq<char>,
    port: u16,
    path: Seq<char>,
    from: SenderView,
    token: Option<Seq<char>>,
) -> Seq<Seq<char>> {
    let a = seq![
        "GET "@ + path + " HTTP/1.1"@,
        "Host: "@ + host + ":"@ + dec(port as nat),
        "Connection: close"@,
        "X-Device-Id: "@ + from.id,
        "X-Device-Name: "@ + encoded(from.name),
        "X-Device-Model: "@ + encoded(model_text(from.platform)),
    ];
    let b = if from.port > 0 {
        a.push("X-My-Port: "@ + dec(from.port as nat))
    } else {
        a
    };
    let c = match token {
        Some(t) => b.push("X-Token: "@ + t),
        None => b,
    };
    match from.token {
        Some(t) => c.push("X-My-Token: "@ + t),
        None => c,
    }
}

fn line(name: &str, value: &str) -> (r: String)
    ensures
        r@ == name@ + value@,
{
    let mut t = name.to_string();
    t.append(value);
    t
}

/// The request for `path`, with what it tells of its sender: its identity and
/// name, the port on which it can be asked in turn, where it can be, the code of
/// the device that is asked, and its own.
pub fn http_get_raw(
    host: &str,
    port: u16,
    path: &str,
    my_id: &str,
    my_name: &str,
    platform: Platform,
    my_port: u16,
    token: &Option<String>,
    my_token: &Option<String>,
) -> (r: String)
    ensures
        r@ == head_text(
            get_lines(
                host@,
                port,
                path@,
                (SenderView {
                    id: my_id@,
                    name: my_name@,
                    platform: platform,
                    port: my_port,
                    token: opt_text(*my_token),
                }),
                opt_text(*token),
            ),
        ),
{
    let ghost from = SenderView {
        id: my_id@,
        name: my_name@,
        platform: platform,
        port: my_port,
        token: opt_text(*my_token),
    };
    let mut lines: Vec<String> = Vec::new();
    let mut first = line("GET ", path);
    first.append(" HTTP/1.1");
    lines.push(first);
    let mut at = line("Host: ", host);
    at.append(":");
    at.append(decimal(port as u64).as_str());
    lines.push(at);
    lines.push("Connection: close".to_string());
    lines.push(line("X-Device-Id: ", my_id));
    lines.push(line("X-Device-Name: ", url_encode(my_name).as_str()));
    lines.push(line("X-Device-Model: ", url_encode(device_model(platform).as_str()).as_str()));
    if my_port > 0 {
        lines.push(line("X-My-Port: ", decimal(my_port as u64).as_str()));
    }
    match token {
        Some(t) => {
            lines.push(line("X-Token: ", t.as_str()));
        },
        None => {},
    }
    match my_token {
        Some(t) => {
            lines.push(line("X-My-Token: ", t.as_str()));
        },
        None => {},
    }
    assert(string_views(lines@) =~= get_lines(host@, port, path@, from, opt_text(*token)));
    text_of_head(&lines)
}

/// What a request of this device tells of it; its own code goes along always, so
/// that the other device can pair in turn.
pub open spec fn sender(v: SharedView, platform: Platform) -> SenderView {
    SenderView {
        id: v.settings.device_id,
        name: v.settings.device_name,
        platform: platform,
        port: v.actual_port,
        token: Some(v.settings.pairing_token),
    }
}

/// A request of this device.
pub fn http_get(
    shared: &LanShared,
    platform: Platform,
    host: &str,
    port: u16,
    path: &str,
    token: &Option<String>,
) -> (r: String)
    ensures
        r@ == head_text(
            get_lines(host@, port, path@, sender(shared@, platform), opt_text(*token)),
        ),
{
    let mine = Some(shared.settings.pairing_token.clone());
    http_get_raw(
        host,
        port,
        path,
        shared.settings.device_id.as_str(),
        shared.settings.device_name.as_str(),
        platform,
        shared.actual_port,
        token,
        &mine,
    )
}

/// What the question what another device is tells of this one: which device asks, so
/// that one that has blocked it can refuse, but no code.
pub open spec fn asker(v: SharedView, platform: Platform) -> SenderView {
    SenderView {
        id: v.settings.device_id,
        name: v.settings.device_name,
        platform: platform,
        port: 0,
        token: None,
    }
}

/// The question what another device is.
pub fn info_request(shared: &LanShared, platform: Platform, host: &str, port: u16) -> (r: String)
    ensures
        r@ == head_text(get_lines(host@, port, "/info"@, asker(shared@, platform), None)),
{
    http_get_raw(
        host,
        port,
        "/info",
        shared.settings.device_id.as_str(),
        shared.settings.device_name.as_str(),
        platform,
        0,
        &None,
        &None,
    )
}

/// Something to ask of another device.
pub struct Call {
    pub host: String,
    pub port: u16,
    pub path: String,
    pub token: Option<String>,
    /// How long to wait for a connection, in seconds.
    pub timeout: u64,
}

/// The view of something to ask.
#[verifier::ext_equal]
pub struct CallView {
    pub host: Seq<char>,
    pub port: u16,
    pub path: Seq<char>,
    pub token: Option<Seq<char>>,
    pub timeout: u64,
}

impl View for Call {
    type V = CallView;

    open spec fn view(&self) -> CallView {
        CallView {
            host: self.host@,
            port: self.port,
            path: self.path@,
            token: opt_text(self.token),
            timeout: self.timeout,
        }
    }
}

/// The view of something that may be asked.
pub open spec fn opt_call(c: Option<Call>) -> Option<CallView> {
    match c {
        Some(x) => Some(x@),
        None => None,
    }
}

/// How long a read may take, in seconds, where a connection may take `timeout`.
pub fn read_timeout(timeout: u64) -> (r: u64)
    ensures
        r == (if timeout > 30 {
            timeout
        } else {
            30
        }),
{
    if timeout > 30 {
        timeout
    } else {
        30
    }
}

/// What is asked of a device; nothing where its address is not known.
pub open spec fn call_of(d: DeviceView, path: Seq<char>, timeout: u64) -> Option<CallView> {
    match d.host {
        Some(h) => Some(
            CallView { host: h, port: d.port, path: path, token: d.token, timeout: timeout },
        ),
        None => None,
    }
}

fn call(d: &LanDevice, path: String, timeout: u64) -> (r: Option<Call>)
    ensures
        opt_call(r) == call_of(d@, path@, timeout),
{
    match &d.host {
        Some(h) => Some(
            Call {
                host: h.clone(),
                port: d.port,
                path: path,
                token: copy_text(&d.token),
                timeout: timeout,
            },
        ),
        None => None,
    }
}

fn call_or_offline(d: &LanDevice, path: String, timeout: u64) -> (r: Result<Call, LanErr>)
    ensures
        match r {
            Ok(c) => call_of(d@, path@, timeout) == Some(c@),
            Err(e) => call_of(d@, path@, timeout) is None && e@ == ErrView::Net("设备离线"@),
        },
{
    match call(d, path, timeout) {
        Some(c) => Ok(c),
        None => Err(LanErr::Net("设备离线".to_string())),
    }
}

/// Asks a device for the clips that are new since a time in milliseconds.
pub fn clips_call(d: &LanDevice, since: i64) -> (r: Result<Call, LanErr>)
    ensures
        match r {
            Ok(c) => call_of(d@, "/clips?since="@ + dec_int(since as int), 5) == Some(c@),
            Err(e) => d@.host is None && e@ == ErrView::Net("设备离线"@),
        },
{
    let path = line("/clips?since=", decimal_i64(since).as_str());
    call_or_offline(d, path, 5)
}

/// Asks a device to pair; its user may have to be asked, which takes time.
pub fn pair_call(d: &LanDevice) -> (r: Result<Call, LanErr>)
    ensures
        match r {
            Ok(c) => call_of(d@, "/pair"@, 35) == Some(c@),
            Err(e) => d@.host is None && e@ == ErrView::Net("设备离线"@),
        },
{
    call_or_offline(d, "/pair".to_string(), 35)
}

/// Asks a device for the file of one of its clips.
pub fn file_call(d: &LanDevice, remote_id: i64) -> (r: Result<Call, LanErr>)
    ensures
        match r {
            Ok(c) => call_of(d@, "/file?id="@ + dec_int(remote_id as int), 5) == Some(c@),
            Err(e) => d@.host is None && e@ == ErrView::Net("设备离线"@),
        },
{
    let path = line("/file?id=", decimal_i64(remote_id).as_str());
    call_or_offline(d, path, 5)
}

/// Tells a device that this one has ended the pairing, where its address is known.
pub fn notify_unpair(d: &LanDevice) -> (r: Option<Call>)
    ensures
        opt_call(r) == call_of(d@, "/unpair"@, 3),
{
    call(d, "/unpair".to_string(), 3)
}

/// Tells a device that it has come off the block list; that needs its address
/// and its pairing code.
pub fn notify_unblocked(info: &BlockedInfo) -> (r: Option<Call>)
    ensures
        opt_call(r) == (match (info@.host, info@.token) {
            (Some(h), Some(t)) => Some(
                CallView {
                    host: h,
                    port: info@.port,
                    path: "/unblocked"@,
                    token: Some(t),
                    timeout: 3,
                },
            ),
            _ => None,
        }),
{
    match (&info.host, &info.token) {
        (Some(h), Some(t)) => Some(
            Call {
                host: h.clone(),
                port: info.port,
                path: "/unblocked".to_string(),
                token: Some(t.clone()),
                timeout: 3,
            },
        ),
        _ => None,
    }
}

/// Tells a device that it is blocked; that needs no pairing code.
pub fn notify_blocked(host: &str, port: u16) -> (r: Call)
    ensures
        r@ == (CallView {
            host: host@,
            port: port,
            path: "/blocked"@,
            token: None,
            timeout: 3,
        }),
{
    Call {
        host: host.to_string(),
        port: port,
        path: "/blocked".to_string(),
        token: None,
        timeout: 3,
    }
}

// ---------- answers ----------

/// What an answer of status 403 says.
pub open spec fn forbidden_as(body: Seq<u8>) -> ErrView {
    match text_member(body, "error"@) {
        Some(e) => if e == "unpaired"@ {
            ErrView::Unpaired
        } else if e == "blocked"@ {
            ErrView::Blocked(text_member(body, "deviceId"@))
        } else {
            ErrView::SharingOff
        },
        None => ErrView::SharingOff,
    }
}

/// Whether an answer is the given reply.
pub open spec fn is_reply(code: u16, body: Seq<u8>, r: ReplyView) -> bool {
    code == r.code && body == encode_utf8(r.body)
}

/// The body of a refusal.
pub open spec fn error_body(e: Seq<char>) -> Seq<char> {
    "{\"error\":\""@ + e + "\"}"@
}

/// A refusal is an object with one member.
pub proof fn lemma_error_body(e: Seq<char>)
    ensures
        flat_object(seq![("error"@, e)]) == error_body(e),
        flat_value(seq![("error"@, e)], "error"@) == Some(e),
        plain_text(e) ==> plain_texts(seq![("error"@, e)]),
{
    lemma_flat_one("error"@, e);
    reveal_strlit("error");
    reveal_strlit("{\"");
    reveal_strlit("\":\"");
    reveal_strlit("{\"error\":\"");
    assert("{\"error\":\""@ =~= "{\""@ + "error"@ + "\":\""@);
    assert(error_body(e) =~= "{\""@ + "error"@ + "\":\""@ + e + "\"}"@);
}

/// The refusals of a request, each with its reason.
pub proof fn lemma_refusals()
    ensures
        sharing_off().body == error_body("sharing_off"@),
        unpaired().body == error_body("unpaired"@),
        "{\"error\":\"rejected\"}"@ == error_body("rejected"@),
        "{\"error\":\"need_confirm\"}"@ == error_body("need_confirm"@),
        plain_text("sharing_off"@),
        plain_text("unpaired"@),
        plain_text("rejected"@),
        plain_text("need_confirm"@),
        "sharing_off"@ != "unpaired"@,
        "sharing_off"@ != "blocked"@,
        "need_confirm"@ != "rejected"@,
        "rejected"@ != "unpaired"@,
{
    reveal_strlit("{\"error\":\"");
    reveal_strlit("\"}");
    reveal_strlit("sharing_off");
    reveal_strlit("unpaired");
    reveal_strlit("blocked");
    reveal_strlit("rejected");
    reveal_strlit("need_confirm");
    reveal_strlit("{\"error\":\"sharing_off\"}");
    reveal_strlit("{\"error\":\"unpaired\"}");
    reveal_strlit("{\"error\":\"rejected\"}");
    reveal_strlit("{\"error\":\"need_confirm\"}");
    assert(sharing_off().body =~= error_body("sharing_off"@));
    assert(unpaired().body =~= error_body("unpaired"@));
    assert("{\"error\":\"rejected\"}"@ =~= error_body("rejected"@));
    assert("{\"error\":\"need_confirm\"}"@ =~= error_body("need_confirm"@));
    assert("sharing_off"@.len() == 11 && "unpaired"@.len() == 8 && "blocked"@.len() == 7);
    assert("rejected"@[0] == 'r' && "unpaired"@[0] == 'u' && "need_confirm"@[0] == 'n');
}

/// Whether `e` is what a refusal of content means: that nothing is shared, that the
/// pairing code is wrong, or that the pairing has ended.
pub open spec fn refusal_understood(code: u16, body: Seq<u8>, e: Option<ErrView>) -> bool {
    &&& is_reply(code, body, sharing_off()) ==> e == Some(ErrView::SharingOff)
    &&& is_reply(code, body, bad_token()) ==> e == Some(ErrView::NeedPairing)
    &&& is_reply(code, body, unpaired()) ==> e == Some(ErrView::Unpaired)
}

/// What an answer of status 403 says: the pairing has ended, this device is
/// blocked, or else nothing is shared.
pub fn forbidden(body: &[u8]) -> (r: LanErr)
    ensures
        r@ == forbidden_as(body@),
        body@ == encode_utf8(sharing_off().body) ==> r@ == ErrView::SharingOff,
        body@ == encode_utf8(unpaired().body) ==> r@ == ErrView::Unpaired,
{
    proof {
        lemma_refusals();
        lemma_error_body("sharing_off"@);
        lemma_error_body("unpaired"@);
        assert(encode_utf8(flat_object(seq![("error"@, "sharing_off"@)])) == encode_utf8(
            sharing_off().body,
        ));
        assert(encode_utf8(flat_object(seq![("error"@, "unpaired"@)])) == encode_utf8(
            unpaired().body,
        ));
    }
    match get_text(body, "error") {
        Some(e) => if same(e.as_str(), "unpaired") {
            LanErr::Unpaired
        } else if same(e.as_str(), "blocked") {
            LanErr::Blocked(get_text(body, "deviceId"))
        } else {
            LanErr::SharingOff
        },
        None => LanErr::SharingOff,
    }
}

fn parse_failure(e: &str) -> (r: LanErr)
    ensures
        r@ == ErrView::Net("响应解析失败: "@ + e@),
{
    LanErr::Net(line("响应解析失败: ", e))
}

/// What the answer to the question what a device is amounts to.
pub open spec fn info_fault(code: u16, body: Seq<u8>) -> Option<ErrView> {
    if code == 200 {
        match json_fault(body) {
            Some(e) => Some(ErrView::Net("响应解析失败: "@ + e)),
            None => None,
        }
    } else if code == 403 {
        Some(ErrView::Blocked(text_member(body, "deviceId"@)))
    } else {
        Some(ErrView::Http(code))
    }
}

/// The answer to the question what a device is: the document that says so.
pub fn fetch_info(code: u16, body: Vec<u8>) -> (r: Result<Vec<u8>, LanErr>)
    ensures
        match r {
            Ok(doc) => info_fault(code, body@) is None && doc@ == body@,
            Err(e) => info_fault(code, body@) == Some(e@),
        },
{
    if code == 200 {
        match fault_of(body.as_slice()) {
            Some(e) => Err(parse_failure(e.as_str())),
            None => Ok(body),
        }
    } else if code == 403 {
        Err(LanErr::Blocked(get_text(body.as_slice(), "deviceId")))
    } else {
        Err(LanErr::Http(code))
    }
}

/// What goes wrong with an answer that hands out content.
pub open spec fn content_fault(code: u16, body: Seq<u8>) -> Option<ErrView> {
    if code == 200 {
        None
    } else if code == 401 {
        Some(ErrView::NeedPairing)
    } else if code == 403 {
        Some(forbidden_as(body))
    } else {
        Some(ErrView::Http(code))
    }
}

fn refused(code: u16, body: &[u8]) -> (r: LanErr)
    requires
        code != 200,
    ensures
        Some(r@) == content_fault(code, body@),
        refusal_understood(code, body@, Some(r@)),
{
    if code == 401 {
        LanErr::NeedPairing
    } else if code == 403 {
        forbidden(body)
    } else {
        LanErr::Http(code)
    }
}

/// The clips in an answer, each as a document of its own.
pub fn fetch_clips(code: u16, body: &[u8]) -> (r: Result<Vec<Vec<u8>>, LanErr>)
    ensures
        match content_fault(code, body@) {
            Some(e) => r is Err && r->Err_0@ == e,
            None => match json_fault(body@) {
                Some(e) => r is Err && r->Err_0@ == ErrView::Net("响应解析失败: "@ + e),
                None => r is Ok && documents(r->Ok_0@) == json_items(body@),
            },
        },
        refusal_understood(code, body@, content_fault(code, body@)),
{
    if code == 200 {
        match fault_of(body) {
            Some(e) => Err(parse_failure(e.as_str())),
            None => Ok(items_of(body)),
        }
    } else {
        Err(refused(code, body))
    }
}

/// The members of the reply that grants a pairing.
pub open spec fn granted_members(t: Seq<char>) -> Seq<(Seq<char>, Seq<char>)> {
    seq![("result"@, "ok"@), ("token"@, t)]
}

proof fn lemma_granted(t: Seq<char>)
    ensures
        granted_body(t) == flat_object(granted_members(t)),
        flat_value(granted_members(t), "token"@) == Some(t),
        plain_text(t) ==> plain_texts(granted_members(t)),
{
    lemma_flat_two("result"@, "ok"@, "token"@, t);
    reveal_strlit("result");
    reveal_strlit("ok");
    reveal_strlit("token");
    reveal_strlit("{\"");
    reveal_strlit("\":\"");
    reveal_strlit("\",\"");
    reveal_strlit("{\"result\":\"ok\",\"token\":\"");
    assert("{\"result\":\"ok\",\"token\":\""@ =~= "{\""@ + "result"@ + "\":\""@ + "ok"@ + "\",\""@
        + "token"@ + "\":\""@);
    assert(granted_body(t) =~= flat_object(granted_members(t)));
}

/// The answer to a request to pair: the pairing code that it hands over, where
/// it does.
pub fn request_pair(code: u16, body: &[u8]) -> (r: Result<Option<String>, LanErr>)
    ensures
        if code == 409 {
            r is Err && r->Err_0@ == (if text_member(body@, "error"@) == Some("rejected"@) {
                ErrView::Rejected
            } else {
                ErrView::NeedConfirm
            })
        } else {
            match content_fault(code, body@) {
                Some(e) => r is Err && r->Err_0@ == e,
                None => r is Ok && opt_text(r->Ok_0) == text_member(body@, "token"@),
            }
        },
        refusal_understood(code, body@, content_fault(code, body@)),
        is_reply(code, body@, reply(409, "{\"error\":\"rejected\"}"@)) ==> r is Err && r->Err_0@
            == ErrView::Rejected,
        is_reply(code, body@, reply(409, "{\"error\":\"need_confirm\"}"@)) ==> r is Err
            && r->Err_0@ == ErrView::NeedConfirm,
        forall|t: Seq<char>|
            plain_text(t) && is_reply(code, body@, reply(200, #[trigger] granted_body(t))) ==> r
                is Ok && opt_text(r->Ok_0) == Some(t),
{
    proof {
        lemma_refusals();
        lemma_error_body("rejected"@);
        lemma_error_body("need_confirm"@);
        assert(encode_utf8(flat_object(seq![("error"@, "rejected"@)])) == encode_utf8(
            "{\"error\":\"rejected\"}"@,
        ));
        assert(encode_utf8(flat_object(seq![("error"@, "need_confirm"@)])) == encode_utf8(
            "{\"error\":\"need_confirm\"}"@,
        ));
        assert forall|t: Seq<char>| #[trigger] granted_body(t) == flat_object(granted_members(t))
            && flat_value(granted_members(t), "token"@) == Some(t) && (plain_text(t)
            ==> plain_texts(granted_members(t))) by {
            lemma_granted(t);
        }
    }
    if code == 200 {
        let token = get_text(body, "token");
        assert forall|t: Seq<char>|
            plain_text(t) && is_reply(code, body@, reply(200, #[trigger] granted_body(t))) implies
            opt_text(token) == Some(t) by {
            assert(body@ == encode_utf8(flat_object(granted_members(t))));
        }
        Ok(token)
    } else if code == 409 {
        match get_text(body, "error") {
            Some(e) => if same(e.as_str(), "rejected") {
                Err(LanErr::Rejected)
            } else {
                Err(LanErr::NeedConfirm)
            },
            None => Err(LanErr::NeedConfirm),
        }
    } else {
        Err(refused(code, body))
    }
}

/// The file in an answer.
pub fn download_file(code: u16, body: Vec<u8>) -> (r: Result<Vec<u8>, LanErr>)
    ensures
        match content_fault(code, body@) {
            Some(e) => r is Err && r->Err_0@ == e,
            None => r is Ok && r->Ok_0@ == body@,
        },
        refusal_understood(code, body@, content_fault(code, body@)),
{
    if code == 200 {
        Ok(body)
    } else {
        Err(refused(code, body.as_slice()))
    }
}

// ---------- requests are understood ----------

/// A request is understood as it was meant: whoever reads it finds what is asked
/// for, the codes, and the device that it comes from.
#[verifier::rlimit(40)]
pub proof fn request_is_understood(
    host: Seq<char>,
    port: u16,
    path: Seq<char>,
    from: SenderView,
    token: Option<Seq<char>>,
    s: SettingsView,
    ip: Seq<char>,
)
    requires
        is_word(path),
        fits_line(host),
        fits_line(from.id),
        token matches Some(t) ==> fits_line(t),
        from.token matches Some(t) ==> fits_line(t),
    ensures
        all_lines(get_lines(host, port, path, from, token)),
        request_of(lines_text(get_lines(host, port, path, from, token))) matches Some(q) && {
            &&& q.method == "GET"@
            &&& q.path == split(path, '?')[0]
            &&& q.query == query_part(path)
            &&& header(q.headers, "x-device-id"@) == Some(from.id)
            &&& header(q.headers, "x-token"@) == token
            &&& header(q.headers, "x-my-token"@) == from.token
            &&& from.port > 0 && from.token is Some && from.id != s.device_id ==> requester(
                s,
                q.headers,
                ip,
            ) == Some(
                DeviceView {
                    device_id: from.id,
                    name: from.name,
                    model: Some(model_text(from.platform)),
                    host: Some(ip),
                    port: from.port,
                    sharing: true,
                    paired: true,
                    token: from.token,
                },
            )
        },
{
    reveal_strlit("GET ");
    reveal_strlit("GET");
    reveal_strlit("POST");
    reveal_strlit(" HTTP/1.1");
    reveal_strlit("Host: ");
    reveal_strlit("Host");
    reveal_strlit("host");
    reveal_strlit(":");
    reveal_strlit("Connection: close");
    reveal_strlit("Connection: ");
    reveal_strlit("Connection");
    reveal_strlit("connection");
    reveal_strlit("close");
    reveal_strlit("X-Device-Id: ");
    reveal_strlit("X-Device-Id");
    reveal_strlit("x-device-id");
    reveal_strlit("X-Device-Name: ");
    reveal_strlit("X-Device-Name");
    reveal_strlit("x-device-name");
    reveal_strlit("X-Device-Model: ");
    reveal_strlit("X-Device-Model");
    reveal_strlit("x-device-model");
    reveal_strlit("X-My-Port: ");
    reveal_strlit("X-My-Port");
    reveal_strlit("x-my-port");
    reveal_strlit("X-Token: ");
    reveal_strlit("X-Token");
    reveal_strlit("x-token");
    reveal_strlit("X-My-Token: ");
    reveal_strlit("X-My-Token");
    reveal_strlit("x-my-token");
    let lines = get_lines(host, port, path, from, token);
    let model = model_text(from.platform);
    let host_value = host + ":"@ + dec(port as nat);
    // the lines one by one
    lemma_request_line(path);
    lemma_host_fits(host, port);
    lemma_plain_fits(from.name);
    lemma_plain_fits(model);
    lemma_dec_fits(from.port as nat);
    assert("Host: "@ =~= "Host"@ + seq![':', ' ']);
    lemma_named_line("Host: "@, "Host"@, host_value);
    assert("Host: "@ + host_value =~= lines[1]);
    assert("Connection: "@ =~= "Connection"@ + seq![':', ' ']);
    lemma_named_line("Connection: "@, "Connection"@, "close"@);
    assert("Connection: "@ + "close"@ =~= lines[2]);
    assert("X-Device-Id: "@ =~= "X-Device-Id"@ + seq![':', ' ']);
    lemma_named_line("X-Device-Id: "@, "X-Device-Id"@, from.id);
    assert("X-Device-Name: "@ =~= "X-Device-Name"@ + seq![':', ' ']);
    lemma_named_line("X-Device-Name: "@, "X-Device-Name"@, encoded(from.name));
    assert("X-Device-Model: "@ =~= "X-Device-Model"@ + seq![':', ' ']);
    lemma_named_line("X-Device-Model: "@, "X-Device-Model"@, encoded(model));
    assert("X-My-Port: "@ =~= "X-My-Port"@ + seq![':', ' ']);
    lemma_named_line("X-My-Port: "@, "X-My-Port"@, dec(from.port as nat));
    assert("X-Token: "@ =~= "X-Token"@ + seq![':', ' ']);
    assert("X-My-Token: "@ =~= "X-My-Token"@ + seq![':', ' ']);
    if token is Some {
        lemma_named_line("X-Token: "@, "X-Token"@, token->0);
    }
    if from.token is Some {
        lemma_named_line("X-My-Token: "@, "X-My-Token"@, from.token->0);
    }
    lemma_lower("Host"@, "host"@);
    lemma_lower("Connection"@, "connection"@);
    lemma_lower("X-Device-Id"@, "x-device-id"@);
    lemma_lower("X-Device-Name"@, "x-device-name"@);
    lemma_lower("X-Device-Model"@, "x-device-model"@);
    lemma_lower("X-My-Port"@, "x-my-port"@);
    lemma_lower("X-Token"@, "x-token"@);
    lemma_lower("X-My-Token"@, "x-my-token"@);
    assert(all_lines(lines));
    head_lines_read_back(lines);
    // the headers one by one
    let e = Seq::<Seq<char>>::empty();
    let h1 = e.push(lines[1]);
    let h2 = h1.push(lines[2]);
    let h3 = h2.push(lines[3]);
    let h4 = h3.push(lines[4]);
    let h5 = h4.push(lines[5]);
    lemma_headers_push(e, lines[1], "host"@, host_value);
    lemma_headers_push(h1, lines[2], "connection"@, "close"@);
    lemma_headers_push(h2, lines[3], "x-device-id"@, from.id);
    lemma_headers_push(h3, lines[4], "x-device-name"@, encoded(from.name));
    lemma_headers_push(h4, lines[5], "x-device-model"@, encoded(model));
    let port_line = "X-My-Port: "@ + dec(from.port as nat);
    let h6 = if from.port > 0 {
        h5.push(port_line)
    } else {
        h5
    };
    if from.port > 0 {
        lemma_headers_push(h5, port_line, "x-my-port"@, dec(from.port as nat));
    }
    let h7 = match token {
        Some(t) => h6.push("X-Token: "@ + t),
        None => h6,
    };
    if token is Some {
        lemma_headers_push(h6, "X-Token: "@ + token->0, "x-token"@, token->0);
    }
    let h8 = match from.token {
        Some(t) => h7.push("X-My-Token: "@ + t),
        None => h7,
    };
    if from.token is Some {
        lemma_headers_push(h7, "X-My-Token: "@ + from.token->0, "x-my-token"@, from.token->0);
    }
    assert(lines.skip(1) =~= h8);
    decoding_undoes_encoding(from.name);
    decoding_undoes_encoding(model);
    crate::numbers::decimal_reads_back(from.port as nat, u16::MAX as nat);
    lemma_header_names_differ();
}

/// The names of the headers are all different.
proof fn lemma_header_names_differ()
    ensures
        "host"@ != "x-token"@ && "host"@ != "x-my-token"@ && "host"@ != "x-my-port"@ && "host"@
            != "x-device-id"@ && "host"@ != "x-device-name"@ && "host"@ != "x-device-model"@,
        "connection"@ != "x-token"@ && "connection"@ != "x-my-token"@ && "connection"@
            != "x-my-port"@ && "connection"@ != "x-device-id"@ && "connection"@ != "x-device-name"@
            && "connection"@ != "x-device-model"@,
        "x-token"@ != "x-my-token"@ && "x-token"@ != "x-my-port"@ && "x-token"@ != "x-device-id"@
            && "x-token"@ != "x-device-name"@ && "x-token"@ != "x-device-model"@,
        "x-my-token"@ != "x-my-port"@ && "x-my-token"@ != "x-device-id"@ && "x-my-token"@
            != "x-device-name"@ && "x-my-token"@ != "x-device-model"@,
        "x-my-port"@ != "x-device-id"@ && "x-my-port"@ != "x-device-name"@ && "x-my-port"@
            != "x-device-model"@,
        "x-device-id"@ != "x-device-name"@ && "x-device-id"@ != "x-device-model"@,
        "x-device-name"@ != "x-device-model"@,
{
    reveal_strlit("host");
    reveal_strlit("connection");
    reveal_strlit("x-device-id");
    reveal_strlit("x-device-name");
    reveal_strlit("x-device-model");
    reveal_strlit("x-my-port");
    reveal_strlit("x-token");
    reveal_strlit("x-my-token");
    assert("host"@.len() == 4);
    assert("connection"@.len() == 10 && "connection"@[0] == 'c');
    assert("x-device-id"@.len() == 11);
    assert("x-device-name"@.len() == 13);
    assert("x-device-model"@.len() == 14);
    assert("x-my-port"@.len() == 9);
    assert("x-token"@.len() == 7);
    assert("x-my-token"@.len() == 10 && "x-my-token"@[0] == 'x');
}

proof fn lemma_request_line(path: Seq<char>)
    requires
        is_word(path),
    ensures
        one_line("GET "@ + path + " HTTP/1.1"@),
        words("GET "@ + path + " HTTP/1.1"@).len() >= 2,
        words("GET "@ + path + " HTTP/1.1"@)[0] == "GET"@,
        words("GET "@ + path + " HTTP/1.1"@)[1] == path,
{
    reveal_strlit("GET ");
    reveal_strlit("GET");
    reveal_strlit(" HTTP/1.1");
    let l = "GET "@ + path + " HTTP/1.1"@;
    let tail = " HTTP/1.1"@;
    assert(l =~= "GET"@ + (seq![' '] + (path + tail)));
    lemma_first_word("GET"@, seq![' '] + (path + tail));
    lemma_lead_white(' ', path + tail);
    lemma_first_word(path, tail);
    assert forall|i: int| 0 <= i < l.len() implies #[trigger] l[i] != '\r' by {
        if 4 <= i < 4 + path.len() {
            assert(l[i] == path[i - 4]);
            assert(!white_space(path[i - 4]));
        }
    }
}

// ---------- laws of asking ----------

/// A device is asked at its own address, on its port and with the code that is kept of
/// it; one without an address cannot be asked.
pub proof fn devices_are_asked_at_their_address(d: DeviceView, path: Seq<char>, timeout: u64)
    ensures
        call_of(d, path, timeout) is Some <==> d.host is Some,
        call_of(d, path, timeout) matches Some(c) ==> {
            &&& Some(c.host) == d.host
            &&& c.port == d.port
            &&& c.path == path
            &&& c.token == d.token
            &&& c.timeout == timeout
        },
{
}

/// Who asks for content says all of itself, so that it can be asked in turn; who only
/// wants to know who is there gives neither a code nor a port.
pub proof fn askers_say_who_they_are(v: SharedView, platform: Platform)
    ensures
        sender(v, platform).id == v.settings.device_id,
        sender(v, platform).name == v.settings.device_name,
        sender(v, platform).platform == platform,
        sender(v, platform).port == v.actual_port,
        sender(v, platform).token == Some(v.settings.pairing_token),
        asker(v, platform).id == v.settings.device_id,
        asker(v, platform).name == v.settings.device_name,
        asker(v, platform).platform == platform,
        asker(v, platform).port == 0,
        asker(v, platform).token is None,
{
}

/// Content came over exactly where the answer is 200; a bad code is known by 401, and
/// of 403 the words say whether the pairing has ended, this device is blocked, or
/// nothing is shared. Any other number is told as it is.
pub proof fn answers_have_their_meaning(code: u16, body: Seq<u8>)
    ensures
        content_fault(code, body) is None <==> code == 200,
        code == 401 ==> content_fault(code, body) == Some(ErrView::NeedPairing),
        code == 403 && text_member(body, "error"@) == Some("unpaired"@) ==> content_fault(
            code,
            body,
        ) == Some(ErrView::Unpaired),
        code == 403 && text_member(body, "error"@) == Some("blocked"@) ==> content_fault(code, body)
            == Some(ErrView::Blocked(text_member(body, "deviceId"@))),
        code == 403 && text_member(body, "error"@) != Some("unpaired"@) && text_member(
            body,
            "error"@,
        ) != Some("blocked"@) ==> content_fault(code, body) == Some(ErrView::SharingOff),
        code != 200 && code != 401 && code != 403 ==> content_fault(code, body) == Some(
            ErrView::Http(code),
        ),
{
    reveal_strlit("unpaired");
    reveal_strlit("blocked");
    assert("unpaired"@[0] == 'u' && "blocked"@[0] == 'b');
}

/// What a device says of itself is taken where the answer is 200 and can be read; 403
/// means that it has blocked this one.
pub proof fn infos_have_their_meaning(code: u16, body: Seq<u8>)
    ensures
        info_fault(code, body) is None <==> code == 200 && json_fault(body) is None,
        code == 200 && json_fault(body) is Some ==> info_fault(code, body) == Some(
            ErrView::Net("响应解析失败: "@ + json_fault(body)->0),
        ),
        code == 403 ==> info_fault(code, body) == Some(
            ErrView::Blocked(text_member(body, "deviceId"@)),
        ),
        code != 200 && code != 403 ==> info_fault(code, body) == Some(ErrView::Http(code)),
{
}

/// What the user is told of each failure.
pub proof fn failures_are_told(t: Seq<char>, code: u16, id: Option<Seq<char>>)
    ensures
        err_text(ErrView::Net(t)) == "连接失败: "@ + t,
        err_text(ErrView::Http(code)) == "HTTP "@ + dec(code as nat),
        err_text(ErrView::NeedPairing) == "配对码错误"@,
        err_text(ErrView::SharingOff) == "对方未开启共享"@,
        err_text(ErrView::Rejected) == "对方拒绝了配对"@,
        err_text(ErrView::NeedConfirm) == "等待对方确认超时"@,
        err_text(ErrView::Unpaired) == "对方已解除配对"@,
        err_text(ErrView::Blocked(id)) == "已被对方拉黑"@,
{
}

/// A request says what is asked for in its first line and of whom in its second, and
/// that the connection is closed afterwards; the port of this device, the code of the
/// other and that of this one follow where they are given.
pub proof fn requests_say_what_they_ask(
    host: Seq<char>,
    port: u16,
    path: Seq<char>,
    from: SenderView,
    token: Option<Seq<char>>,
)
    ensures
        ({
            let l = get_lines(host, port, path, from, token);
            let ports: int = if from.port > 0 {
                1
            } else {
                0
            };
            let codes: int = if token is Some {
                1
            } else {
                0
            };
            &&& l[0] == "GET "@ + path + " HTTP/1.1"@
            &&& l[1] == "Host: "@ + host + ":"@ + dec(port as nat)
            &&& l[2] == "Connection: close"@
            &&& l[3] == "X-Device-Id: "@ + from.id
            &&& l[4] == "X-Device-Name: "@ + encoded(from.name)
            &&& l[5] == "X-Device-Model: "@ + encoded(model_text(from.platform))
            &&& from.port > 0 ==> l[6] == "X-My-Port: "@ + dec(from.port as nat)
            &&& token is Some ==> l[6 + ports] == "X-Token: "@ + token->0
            &&& from.token is Some ==> l[6 + ports + codes] == "X-My-Token: "@ + from.token->0
            &&& l.len() == 6 + ports + codes + (if from.token is Some {
                1int
            } else {
                0
            })
        }),
{
}

} // verus!
