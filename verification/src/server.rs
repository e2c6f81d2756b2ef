//! What this device answers to others: who may ask for what, and what each
//! request changes.

use crate::client::LanErr;
use crate::discovery::answer_view;
use crate::http::{respond, response_head, Request};
use crate::json::{
    array_json, array_text, field, member_lists, members, object_json, object_text, Json, JsonView,
};
use crate::lan::{
    device_model, model_text, DeviceView, LanDevice, LanSettings, LanShared, Platform, SettingsView,
    SharedView,
};
use crate::numbers::{dec_int, decimal_i64, parse_signed, parse_unsigned, read_i64, read_u16};
use crate::strmap::StrMap;
use crate::text::{chars_of, opt_text, same, same_text};
use crate::url::{decoded, url_decode};
use vstd::prelude::*;
use vstd::string::*;
use vstd::utf8::*;

verus! {

/// The largest number of clips in one answer.
pub const CLIPS_PAGE_LIMIT: i64 = 500;

/// The kind of a text clip between devices.
pub const WIRE_TEXT: i64 = 0;

/// The kind of a picture between devices; other kinds are files.
pub const WIRE_IMAGE: i64 = 1;

/// The clips that are newer than a time in milliseconds, and at most so many.
pub const CLIPS_QUERY: &'static str =
    "SELECT id, kind, content, LENGTH(image), created_at, remote_device_id, remote_id FROM clips WHERE created_at * 1000 > ?1 ORDER BY created_at LIMIT ?2";

/// The picture of a clip.
pub const FILE_QUERY: &'static str = "SELECT image FROM clips WHERE id=?1";

// ---------- replies ----------

/// A reply in JSON or plain words.
pub struct Reply {
    pub code: u16,
    pub body: String,
}

/// The view of a reply.
#[verifier::ext_equal]
pub struct ReplyView {
    pub code: u16,
    pub body: Seq<char>,
}

impl View for Reply {
    type V = ReplyView;

    open spec fn view(&self) -> ReplyView {
        ReplyView { code: self.code, body: self.body@ }
    }
}

/// The view of an optional reply.
pub open spec fn opt_reply(r: Option<Reply>) -> Option<ReplyView> {
    match r {
        Some(x) => Some(x@),
        None => None,
    }
}

/// The reply with a status and a body.
pub open spec fn reply(code: u16, body: Seq<char>) -> ReplyView {
    ReplyView { code: code, body: body }
}

fn reply_of(code: u16, body: &str) -> (r: Reply)
    ensures
        r@ == reply(code, body@),
{
    Reply { code: code, body: body.to_string() }
}

/// The reply where the clipboard is not shared.
pub open spec fn sharing_off() -> ReplyView {
    reply(403, "{\"error\":\"sharing_off\"}"@)
}

/// The reply to a wrong pairing code.
pub open spec fn bad_token() -> ReplyView {
    reply(401, "{\"error\":\"bad_token\"}"@)
}

/// The reply to a device that is blocked or not paired.
pub open spec fn unpaired() -> ReplyView {
    reply(403, "{\"error\":\"unpaired\"}"@)
}

/// The reply to a request that lacks something.
pub open spec fn bad_request() -> ReplyView {
    reply(400, "{\"error\":\"bad_request\"}"@)
}

/// The reply to a request that was carried out.
pub open spec fn done() -> ReplyView {
    reply(200, "{\"result\":\"ok\"}"@)
}

/// The bytes of a reply.
pub fn respond_json(r: &Reply) -> (b: Vec<u8>)
    requires
        encode_utf8(r.body@).len() <= isize::MAX,
    ensures
        b@ == encode_utf8(
            response_head(r.code, "application/json"@, encode_utf8(r.body@).len()),
        ) + encode_utf8(r.body@),
{
    respond(r.code, "application/json", r.body.as_str().as_bytes())
}

// ---------- routes ----------

/// What a request asks for.
#[derive(Clone, Copy, PartialEq, Eq, Structural, Debug)]
pub enum Route {
    Info,
    Pair,
    Unpair,
    Unblocked,
    Blocked,
    Clips,
    File,
    Receive,
    NotFound,
    NotAllowed,
}

/// What a request asks for. One path stands for a method that is not allowed.
pub open spec fn route_of(method: Seq<char>, path: Seq<char>) -> Route {
    if method == "POST"@ && path == "/recv"@ {
        Route::Receive
    } else if method != "GET"@ || path == "__method_not_allowed__"@ {
        Route::NotAllowed
    } else if path == "/info"@ {
        Route::Info
    } else if path == "/pair"@ {
        Route::Pair
    } else if path == "/unpair"@ {
        Route::Unpair
    } else if path == "/unblocked"@ {
        Route::Unblocked
    } else if path == "/blocked"@ {
        Route::Blocked
    } else if path == "/clips"@ {
        Route::Clips
    } else if path == "/file"@ {
        Route::File
    } else {
        Route::NotFound
    }
}

/// What a request asks for: everything is asked for by `GET`, except that a file
/// is sent by `POST`.
pub fn handle_conn(q: &Request) -> (r: Route)
    ensures
        r == route_of(q.method@, q.path@),
{
    let path = q.path.as_str();
    if same(q.method.as_str(), "POST") && same(path, "/recv") {
        Route::Receive
    } else if !same(q.method.as_str(), "GET") || same(path, "__method_not_allowed__") {
        Route::NotAllowed
    } else if same(path, "/info") {
        Route::Info
    } else if same(path, "/pair") {
        Route::Pair
    } else if same(path, "/unpair") {
        Route::Unpair
    } else if same(path, "/unblocked") {
        Route::Unblocked
    } else if same(path, "/blocked") {
        Route::Blocked
    } else if same(path, "/clips") {
        Route::Clips
    } else if same(path, "/file") {
        Route::File
    } else {
        Route::NotFound
    }
}

/// The reply where a request asks for nothing that there is.
pub fn no_route(r: Route) -> (out: Option<Reply>)
    ensures
        opt_reply(out) == (match r {
            Route::NotFound => Some(reply(404, "Not Found"@)),
            Route::NotAllowed => Some(reply(405, "Method Not Allowed"@)),
            _ => None,
        }),
{
    match r {
        Route::NotFound => Some(reply_of(404, "Not Found")),
        Route::NotAllowed => Some(reply_of(405, "Method Not Allowed")),
        _ => None,
    }
}

// ---------- who may ask ----------

/// The value of a header.
pub open spec fn header(h: Map<Seq<char>, Seq<char>>, name: Seq<char>) -> Option<Seq<char>> {
    if h.contains_key(name) {
        Some(h[name])
    } else {
        None
    }
}

fn header_is(h: &StrMap<String>, name: &str, value: &str) -> (r: bool)
    ensures
        r == (header(h@, name@) == Some(value@)),
{
    match h.get(name) {
        Some(v) => same(v.as_str(), value),
        None => false,
    }
}

fn header_value(h: &StrMap<String>, name: &str) -> (r: Option<String>)
    ensures
        opt_text(r) == header(h@, name@),
{
    match h.get(name) {
        Some(v) => Some(v.clone()),
        None => None,
    }
}

/// The refusal of a request that comes while nothing is shared, or without the
/// pairing code of this device.
pub open spec fn auth_refusal(s: SettingsView, h: Map<Seq<char>, Seq<char>>) -> Option<ReplyView> {
    if !s.sharing {
        Some(sharing_off())
    } else if header(h, "x-token"@) != Some(s.pairing_token) {
        Some(bad_token())
    } else {
        None
    }
}

/// Refuses a request that comes while nothing is shared, or without the pairing
/// code of this device.
pub fn authorize(s: &LanSettings, h: &StrMap<String>) -> (r: Option<Reply>)
    ensures
        opt_reply(r) == auth_refusal(s@, h@),
{
    if !s.sharing {
        return Some(reply_of(403, "{\"error\":\"sharing_off\"}"));
    }
    if !header_is(h, "x-token", s.pairing_token.as_str()) {
        return Some(reply_of(401, "{\"error\":\"bad_token\"}"));
    }
    None
}

/// The refusal of a device on the block list.
pub open spec fn block_refusal(s: SettingsView, h: Map<Seq<char>, Seq<char>>) -> Option<ReplyView> {
    match header(h, "x-device-id"@) {
        Some(id) => if s.blocked.contains_key(id) {
            Some(unpaired())
        } else {
            None
        },
        None => None,
    }
}

/// Refuses a device on the block list, in such a way that it gives up its pairing.
pub fn reject_if_blocked(s: &LanSettings, h: &StrMap<String>) -> (r: Option<Reply>)
    ensures
        opt_reply(r) == block_refusal(s@, h@),
{
    match h.get("x-device-id") {
        Some(id) => if s.blocked.contains_key(id.as_str()) {
            Some(reply_of(403, "{\"error\":\"unpaired\"}"))
        } else {
            None
        },
        None => None,
    }
}

/// The refusal of a device that is not paired.
pub open spec fn pair_refusal(s: SettingsView, h: Map<Seq<char>, Seq<char>>) -> Option<ReplyView> {
    match header(h, "x-device-id"@) {
        Some(id) => if s.paired.contains_key(id) {
            None
        } else {
            Some(unpaired())
        },
        None => Some(unpaired()),
    }
}

/// Refuses a device that is not paired.
pub fn reject_if_unpaired(s: &LanSettings, h: &StrMap<String>) -> (r: Option<Reply>)
    ensures
        opt_reply(r) == pair_refusal(s@, h@),
{
    match h.get("x-device-id") {
        Some(id) => if s.paired.contains_key(id.as_str()) {
            return None;
        },
        None => {},
    }
    Some(reply_of(403, "{\"error\":\"unpaired\"}"))
}

/// The device that a request comes from, as its headers describe it.
pub open spec fn requester(
    s: SettingsView,
    h: Map<Seq<char>, Seq<char>>,
    ip: Seq<char>,
) -> Option<DeviceView> {
    match (header(h, "x-device-id"@), header(h, "x-my-token"@), header(h, "x-my-port"@)) {
        (Some(id), Some(token), Some(port)) => match parse_unsigned(port, 10, u16::MAX as nat) {
            Some(p) => if id == s.device_id {
                None
            } else {
                Some(
                    DeviceView {
                        device_id: id,
                        name: match header(h, "x-device-name"@) {
                            Some(n) => decoded(n),
                            None => "未知设备"@,
                        },
                        model: match header(h, "x-device-model"@) {
                            Some(m) => Some(decoded(m)),
                            None => None,
                        },
                        host: Some(ip),
                        port: p as u16,
                        sharing: true,
                        paired: true,
                        token: Some(token),
                    },
                )
            },
            None => None,
        },
        _ => None,
    }
}

/// The view of an optional device.
pub open spec fn opt_device(d: Option<LanDevice>) -> Option<DeviceView> {
    match d {
        Some(x) => Some(x@),
        None => None,
    }
}

/// The device that a request comes from; none where it is this one, or where its
/// identity, its code or its port is missing.
pub fn build_requester(s: &LanSettings, h: &StrMap<String>, ip: &str) -> (r: Option<LanDevice>)
    ensures
        opt_device(r) == requester(s@, h@, ip@),
{
    let id = match h.get("x-device-id") {
        Some(v) => v.clone(),
        None => {
            return None;
        },
    };
    if same(id.as_str(), s.device_id.as_str()) {
        return None;
    }
    let token = match h.get("x-my-token") {
        Some(v) => v.clone(),
        None => {
            return None;
        },
    };
    let name = match h.get("x-device-name") {
        Some(n) => url_decode(n.as_str()),
        None => "未知设备".to_string(),
    };
    let model = match h.get("x-device-model") {
        Some(m) => Some(url_decode(m.as_str())),
        None => None,
    };
    let port: u16 = match h.get("x-my-port") {
        Some(v) => match read_u16(v.as_str()) {
            Some(p) => p,
            None => {
                return None;
            },
        },
        None => {
            return None;
        },
    };
    Some(
        LanDevice {
            device_id: id,
            name: name,
            model: model,
            host: Some(ip.to_string()),
            port: port,
            sharing: true,
            paired: true,
            token: Some(token),
        },
    )
}

/// Whether what is kept of a device already agrees with what it says of itself.
pub open spec fn known_as(s: SettingsView, d: DeviceView) -> bool {
    s.paired.contains_key(d.device_id) && ({
        let e = s.paired[d.device_id];
        e.token == d.token && e.name == d.name && e.port == d.port
    })
}

/// The settings after a request that shows the pairing code: its sender is
/// paired in turn, unless it is blocked.
pub open spec fn auto_paired(
    s: SettingsView,
    h: Map<Seq<char>, Seq<char>>,
    ip: Seq<char>,
) -> SettingsView {
    match requester(s, h, ip) {
        Some(d) => if s.blocked.contains_key(d.device_id) || known_as(s, d) {
            s
        } else {
            SettingsView { paired: s.paired.insert(d.device_id, d), ..s }
        },
        None => s,
    }
}

/// Pairs the sender of a request that shows the pairing code in turn; whether
/// anything changed.
pub fn maybe_auto_pair(s: &mut LanSettings, h: &StrMap<String>, ip: &str) -> (r: bool)
    ensures
        final(s)@ == auto_paired(old(s)@, h@, ip@),
        r == match requester(old(s)@, h@, ip@) {
            Some(d) => !old(s)@.blocked.contains_key(d.device_id) && !known_as(old(s)@, d),
            None => false,
        },
{
    let d = match build_requester(s, h, ip) {
        Some(d) => d,
        None => {
            return false;
        },
    };
    if s.blocked.contains_key(d.device_id.as_str()) {
        return false;
    }
    let unchanged = match s.paired.get(d.device_id.as_str()) {
        Some(e) => same_text(&e.token, &d.token) && same(e.name.as_str(), d.name.as_str()) && e.port
            == d.port,
        None => false,
    };
    if unchanged {
        return false;
    }
    s.paired.insert(d.device_id.clone(), d);
    true
}

/// The refusal of a request for content, in the order in which the conditions
/// are looked at.
pub open spec fn content_refusal(s: SettingsView, h: Map<Seq<char>, Seq<char>>) -> Option<
    ReplyView,
> {
    match auth_refusal(s, h) {
        Some(r) => Some(r),
        None => match block_refusal(s, h) {
            Some(r) => Some(r),
            None => pair_refusal(s, h),
        },
    }
}

/// Admits a request for content, or refuses it. An admitted one renews what is
/// kept of its sender; the result then says whether anything changed.
pub fn admit_content(s: &mut LanSettings, h: &StrMap<String>, ip: &str) -> (r: Result<bool, Reply>)
    ensures
        match r {
            Ok(changed) => {
                &&& content_refusal(old(s)@, h@) is None
                &&& final(s)@ == auto_paired(old(s)@, h@, ip@)
                &&& changed == match requester(old(s)@, h@, ip@) {
                    Some(d) => !old(s)@.blocked.contains_key(d.device_id) && !known_as(old(s)@, d),
                    None => false,
                }
            },
            Err(e) => content_refusal(old(s)@, h@) == Some(e@) && final(s)@ == old(s)@,
        },
{
    match authorize(s, h) {
        Some(e) => {
            return Err(e);
        },
        None => {},
    }
    match reject_if_blocked(s, h) {
        Some(e) => {
            return Err(e);
        },
        None => {},
    }
    match reject_if_unpaired(s, h) {
        Some(e) => {
            return Err(e);
        },
        None => {},
    }
    Ok(maybe_auto_pair(s, h, ip))
}

/// Content is handed out only while sharing, to a paired device that is not
/// blocked and shows the pairing code.
pub proof fn content_needs_pairing(s: SettingsView, h: Map<Seq<char>, Seq<char>>)
    ensures
        content_refusal(s, h) is None <==> {
            &&& s.sharing
            &&& header(h, "x-token"@) == Some(s.pairing_token)
            &&& h.contains_key("x-device-id"@)
            &&& s.paired.contains_key(h["x-device-id"@])
            &&& !s.blocked.contains_key(h["x-device-id"@])
        },
{
}

/// Fetching content never pairs a device that was not paired before.
pub proof fn fetching_pairs_nobody(s: SettingsView, h: Map<Seq<char>, Seq<char>>, ip: Seq<char>)
    requires
        content_refusal(s, h) is None,
    ensures
        auto_paired(s, h, ip).paired.dom() == s.paired.dom(),
{
    assert(auto_paired(s, h, ip).paired.dom() =~= s.paired.dom());
}

// ---------- what this device is ----------

/// What this device tells of itself.
pub open spec fn info_members(s: SettingsView, platform: Platform) -> Seq<(Seq<char>, JsonView)> {
    seq![
        ("deviceId"@, JsonView::Text(s.device_id)),
        ("name"@, JsonView::Text(s.device_name)),
        ("model"@, JsonView::Text(model_text(platform))),
        ("sharing"@, JsonView::Bool(s.sharing)),
        ("autoAccept"@, JsonView::Bool(s.auto_accept_pair)),
        ("version"@, JsonView::Int(1)),
    ]
}

/// What this device tells a device that it has blocked.
pub open spec fn blocked_members(s: SettingsView, platform: Platform) -> Seq<
    (Seq<char>, JsonView),
> {
    seq![
        ("error"@, JsonView::Text("blocked"@)),
        ("deviceId"@, JsonView::Text(s.device_id)),
        ("name"@, JsonView::Text(s.device_name)),
        ("model"@, JsonView::Text(model_text(platform))),
    ]
}

/// Whether the sender of a request is on the block list.
pub open spec fn from_blocked(s: SettingsView, h: Map<Seq<char>, Seq<char>>) -> bool {
    h.contains_key("x-device-id"@) && s.blocked.contains_key(h["x-device-id"@])
}

/// What this device is; a device on the block list learns that it is blocked.
pub fn handle_info(s: &LanSettings, h: &StrMap<String>, platform: Platform) -> (r: Reply)
    ensures
        from_blocked(s@, h@) ==> r@ == reply(403, object_json(blocked_members(s@, platform)))
            && crate::json::holds_members(encode_utf8(r.body@), blocked_members(s@, platform)),
        !from_blocked(s@, h@) ==> r@ == reply(200, object_json(info_members(s@, platform)))
            && crate::json::holds_members(encode_utf8(r.body@), info_members(s@, platform)),
{
    let blocked = match h.get("x-device-id") {
        Some(id) => s.blocked.contains_key(id.as_str()),
        None => false,
    };
    let mut m: Vec<(String, Json)> = Vec::new();
    if blocked {
        m.push(field("error", Json::Text("blocked".to_string())));
        m.push(field("deviceId", Json::Text(s.device_id.clone())));
        m.push(field("name", Json::Text(s.device_name.clone())));
        m.push(field("model", Json::Text(device_model(platform))));
        assert(members(m@) =~= blocked_members(s@, platform));
        Reply { code: 403, body: object_text(&m) }
    } else {
        m.push(field("deviceId", Json::Text(s.device_id.clone())));
        m.push(field("name", Json::Text(s.device_name.clone())));
        m.push(field("model", Json::Text(device_model(platform))));
        m.push(field("sharing", Json::Bool(s.sharing)));
        m.push(field("autoAccept", Json::Bool(s.auto_accept_pair)));
        m.push(field("version", Json::Int(1)));
        assert(members(m@) =~= info_members(s@, platform));
        Reply { code: 200, body: object_text(&m) }
    }
}

// ---------- pairing ----------

/// What becomes of a request to pair before the user is asked.
pub enum PairStepView {
    Refused(ReplyView),
    Granted(DeviceView),
    Asked(DeviceView),
}

/// What becomes of a request to pair: without sharing it is refused; with
/// automatic consent it is granted, unless the device is blocked; otherwise it
/// needs the pairing code, and then the user is asked.
pub open spec fn pair_step(
    s: SettingsView,
    h: Map<Seq<char>, Seq<char>>,
    ip: Seq<char>,
) -> PairStepView {
    if !s.sharing {
        PairStepView::Refused(sharing_off())
    } else {
        match requester(s, h, ip) {
            None => PairStepView::Refused(bad_request()),
            Some(d) => if s.auto_accept_pair && !s.blocked.contains_key(d.device_id) {
                PairStepView::Granted(d)
            } else if header(h, "x-token"@) != Some(s.pairing_token) {
                PairStepView::Refused(bad_token())
            } else {
                PairStepView::Asked(d)
            },
        }
    }
}

/// The settings once a device is paired: it also comes off the block list.
pub open spec fn paired_with(s: SettingsView, d: DeviceView) -> SettingsView {
    SettingsView {
        blocked: s.blocked.remove(d.device_id),
        paired: s.paired.insert(d.device_id, d),
        ..s
    }
}

/// The body of the reply to a granted request: it hands over the pairing code.
pub open spec fn granted_body(token: Seq<char>) -> Seq<char> {
    "{\"result\":\"ok\",\"token\":\""@ + token + "\"}"@
}

fn granted(token: &str) -> (r: Reply)
    ensures
        r@ == reply(200, granted_body(token@)),
{
    let mut b = "{\"result\":\"ok\",\"token\":\"".to_string();
    b.append(token);
    b.append("\"}");
    Reply { code: 200, body: b }
}

fn accept_device(s: &mut LanSettings, d: LanDevice)
    ensures
        final(s)@ == paired_with(old(s)@, d@),
{
    let _ = s.blocked.remove(d.device_id.as_str());
    s.paired.insert(d.device_id.clone(), d);
}

/// What is to be done about a request to pair.
pub enum PairStep {
    /// It is answered; no device was paired.
    Refused(Reply),
    /// It is granted and answered; the device is paired.
    Granted(Reply),
    /// The user is to be asked about the device; the pairing code is to be handed
    /// over if the answer is yes.
    Asked(LanDevice, String),
}

/// Deals with a request to pair as far as that can be done without the user.
pub fn handle_pair(s: &mut LanSettings, h: &StrMap<String>, ip: &str) -> (r: PairStep)
    ensures
        match pair_step(old(s)@, h@, ip@) {
            PairStepView::Refused(e) => {
                &&& r matches PairStep::Refused(x)
                &&& x@ == e
                &&& final(s)@ == old(s)@
            },
            PairStepView::Granted(d) => {
                &&& r matches PairStep::Granted(x)
                &&& x@ == reply(200, granted_body(old(s)@.pairing_token))
                &&& final(s)@ == paired_with(old(s)@, d)
            },
            PairStepView::Asked(d) => {
                &&& r matches PairStep::Asked(x, t)
                &&& x@ == d
                &&& t@ == old(s)@.pairing_token
                &&& final(s)@ == old(s)@
            },
        },
{
    if !s.sharing {
        return PairStep::Refused(reply_of(403, "{\"error\":\"sharing_off\"}"));
    }
    let d = match build_requester(s, h, ip) {
        Some(d) => d,
        None => {
            return PairStep::Refused(reply_of(400, "{\"error\":\"bad_request\"}"));
        },
    };
    if s.auto_accept_pair && !s.blocked.contains_key(d.device_id.as_str()) {
        accept_device(s, d);
        return PairStep::Granted(granted(s.pairing_token.as_str()));
    }
    if !header_is(h, "x-token", s.pairing_token.as_str()) {
        return PairStep::Refused(reply_of(401, "{\"error\":\"bad_token\"}"));
    }
    PairStep::Asked(d, s.pairing_token.clone())
}

/// Carries out the answer of the user to a request to pair; no answer in time
/// is `None`.
pub fn pair_answered(
    s: &mut LanSettings,
    d: LanDevice,
    token: &str,
    answer: Option<bool>,
) -> (r: Reply)
    ensures
        r@ == (match answer {
            Some(true) => reply(200, granted_body(token@)),
            Some(false) => reply(409, "{\"error\":\"rejected\"}"@),
            None => reply(409, "{\"error\":\"need_confirm\"}"@),
        }),
        final(s)@ == (if answer == Some(true) {
            paired_with(old(s)@, d@)
        } else {
            old(s)@
        }),
{
    match answer {
        Some(yes) => if yes {
            accept_device(s, d);
            granted(token)
        } else {
            reply_of(409, "{\"error\":\"rejected\"}")
        },
        None => reply_of(409, "{\"error\":\"need_confirm\"}"),
    }
}

/// Puts a request to pair before the user, under the number `ticket`; an earlier
/// one of the same device is given up, and its number handed over.
pub fn ask_pair_approval(shared: &mut LanShared, device_id: &str, ticket: u64) -> (r: Option<u64>)
    ensures
        final(shared)@ == (SharedView {
            pending_pairs: old(shared)@.pending_pairs.insert(device_id@, ticket),
            ..old(shared)@
        }),
        r == (if old(shared)@.pending_pairs.contains_key(device_id@) {
            Some(old(shared)@.pending_pairs[device_id@])
        } else {
            None
        }),
{
    let before = match shared.pending_pairs.get(device_id) {
        Some(t) => Some(*t),
        None => None,
    };
    shared.pending_pairs.insert(device_id.to_string(), ticket);
    before
}

/// Takes back the request to pair of a device and hands over its number: the
/// answer of the user goes to that request, or its time is up.
pub fn lan_respond_pair(shared: &mut LanShared, device_id: &str) -> (r: Option<u64>)
    ensures
        final(shared)@ == (SharedView {
            pending_pairs: old(shared)@.pending_pairs.remove(device_id@),
            ..old(shared)@
        }),
        r == (if old(shared)@.pending_pairs.contains_key(device_id@) {
            Some(old(shared)@.pending_pairs[device_id@])
        } else {
            None
        }),
{
    shared.pending_pairs.remove(device_id)
}

/// A device that was paired may fetch content with the pairing code that the
/// reply handed over to it.
pub proof fn pairing_opens_content(
    s: SettingsView,
    d: DeviceView,
    h: Map<Seq<char>, Seq<char>>,
)
    requires
        s.sharing,
        header(h, "x-device-id"@) == Some(d.device_id),
        header(h, "x-token"@) == Some(s.pairing_token),
    ensures
        content_refusal(paired_with(s, d), h) is None,
{
}

/// Pairing works both ways: of a device whose request is granted this one keeps
/// the code and the address at which it can be asked in turn.
pub proof fn pairing_is_mutual(s: SettingsView, h: Map<Seq<char>, Seq<char>>, ip: Seq<char>)
    requires
        pair_step(s, h, ip) is Granted || pair_step(s, h, ip) is Asked,
    ensures
        requester(s, h, ip) matches Some(d) && {
            let kept = paired_with(s, d).paired[h["x-device-id"@]];
            &&& kept.paired
            &&& kept.token == header(h, "x-my-token"@)
            &&& kept.host == Some(ip)
            &&& Some(kept.port as nat) == parse_unsigned(h["x-my-port"@], 10, u16::MAX as nat)
        },
{
}

/// A blocked device is never paired without asking the user.
pub proof fn blocked_needs_the_user(s: SettingsView, h: Map<Seq<char>, Seq<char>>, ip: Seq<char>)
    requires
        from_blocked(s, h),
    ensures
        !(pair_step(s, h, ip) is Granted),
{
}

/// The refusal of a request that takes something back: it needs the pairing code
/// and the identity of another device.
pub open spec fn notice_refusal(s: SettingsView, h: Map<Seq<char>, Seq<char>>) -> Option<
    ReplyView,
> {
    if header(h, "x-token"@) != Some(s.pairing_token) {
        Some(bad_token())
    } else {
        match header(h, "x-device-id"@) {
            None => Some(bad_request()),
            Some(id) => if id.len() == 0 || id == s.device_id {
                Some(bad_request())
            } else {
                None
            },
        }
    }
}

fn check_notice(s: &LanSettings, h: &StrMap<String>) -> (r: Result<String, Reply>)
    ensures
        match r {
            Ok(id) => notice_refusal(s@, h@) is None && header(h@, "x-device-id"@) == Some(id@),
            Err(e) => notice_refusal(s@, h@) == Some(e@),
        },
{
    if !header_is(h, "x-token", s.pairing_token.as_str()) {
        return Err(reply_of(401, "{\"error\":\"bad_token\"}"));
    }
    match header_value(h, "x-device-id") {
        None => Err(reply_of(400, "{\"error\":\"bad_request\"}")),
        Some(id) => if chars_of(id.as_str()).len() == 0 || same(id.as_str(), s.device_id.as_str()) {
            Err(reply_of(400, "{\"error\":\"bad_request\"}"))
        } else {
            Ok(id)
        },
    }
}

/// Another device ends the pairing. It needs the pairing code, but no sharing.
/// Also whether the settings are to be stored.
pub fn handle_unpair(s: &mut LanSettings, h: &StrMap<String>) -> (r: (Reply, bool))
    ensures
        match notice_refusal(old(s)@, h@) {
            Some(e) => r.0@ == e && !r.1 && final(s)@ == old(s)@,
            None => r.0@ == done() && r.1 && final(s)@ == (SettingsView {
                paired: old(s)@.paired.remove(h@["x-device-id"@]),
                ..old(s)@
            }),
        },
{
    match check_notice(s, h) {
        Ok(id) => {
            let _ = s.paired.remove(id.as_str());
            (reply_of(200, "{\"result\":\"ok\"}"), true)
        },
        Err(e) => (e, false),
    }
}

/// Another device has taken this one off its block list.
pub fn handle_unblocked(s: &mut LanSettings, h: &StrMap<String>) -> (r: (Reply, bool))
    ensures
        match notice_refusal(old(s)@, h@) {
            Some(e) => r.0@ == e && !r.1 && final(s)@ == old(s)@,
            None => r.0@ == done() && r.1 && final(s)@ == (SettingsView {
                blocked_by: old(s)@.blocked_by.remove(h@["x-device-id"@]),
                ..old(s)@
            }),
        },
{
    match check_notice(s, h) {
        Ok(id) => {
            s.blocked_by.remove(id.as_str());
            (reply_of(200, "{\"result\":\"ok\"}"), true)
        },
        Err(e) => (e, false),
    }
}

/// After a device has ended the pairing it gets no content any more.
pub proof fn unpairing_closes_content(s: SettingsView, h: Map<Seq<char>, Seq<char>>)
    requires
        notice_refusal(s, h) is None,
    ensures
        content_refusal(
            SettingsView { paired: s.paired.remove(h["x-device-id"@]), ..s },
            h,
        ) is Some,
{
}

// ---------- being blocked ----------

/// The port that a header gives; 0 where it gives none.
pub open spec fn port_header(h: Map<Seq<char>, Seq<char>>) -> u16 {
    match header(h, "x-my-port"@) {
        Some(v) => match parse_unsigned(v, 10, u16::MAX as nat) {
            Some(p) => p as u16,
            None => 0,
        },
        None => 0,
    }
}

/// Whether a notice of being blocked names another device and a port on which
/// it can be asked.
pub open spec fn names_blocker(s: SettingsView, h: Map<Seq<char>, Seq<char>>) -> bool {
    &&& header(h, "x-device-id"@) matches Some(id) && id.len() > 0 && id != s.device_id
    &&& port_header(h) != 0
}

/// A device says that it has blocked this one: the device and the port on which
/// it is to be asked whether that is so.
pub fn handle_blocked_notice(s: &LanSettings, h: &StrMap<String>) -> (r: Result<
    (String, u16),
    Reply,
>)
    ensures
        match r {
            Ok((id, port)) => names_blocker(s@, h@) && Some(id@) == header(h@, "x-device-id"@)
                && port == port_header(h@),
            Err(e) => !names_blocker(s@, h@) && e@ == bad_request(),
        },
{
    let port: u16 = match h.get("x-my-port") {
        Some(v) => match read_u16(v.as_str()) {
            Some(p) => p,
            None => 0,
        },
        None => 0,
    };
    match header_value(h, "x-device-id") {
        Some(id) => if chars_of(id.as_str()).len() > 0 && !same(
            id.as_str(),
            s.device_id.as_str(),
        ) && port != 0 {
            Ok((id, port))
        } else {
            Err(reply_of(400, "{\"error\":\"bad_request\"}"))
        },
        None => Err(reply_of(400, "{\"error\":\"bad_request\"}")),
    }
}

/// The state once it is certain that a device has blocked this one.
pub open spec fn blocked_by_device(v: SharedView, id: Seq<char>) -> SharedView {
    SharedView {
        settings: SettingsView {
            paired: v.settings.paired.remove(id),
            blocked_by: v.settings.blocked_by.insert(id),
            ..v.settings
        },
        discovered: v.discovered.remove(id),
        ..v
    }
}

/// Closes a notice of being blocked, `answer` being what the device said when it was
/// asked what it is: the notice counts only where it did refuse this one, so that
/// nobody can forge it. Also hands over whether it counts.
pub fn blocked_notice_checked(
    shared: &mut LanShared,
    device_id: &str,
    answer: &Result<Vec<u8>, LanErr>,
) -> (r: (Reply, bool))
    ensures
        r.1 == (answer_view(*answer) is Err && answer_view(*answer)->Err_0 is Blocked),
        final(shared)@ == (if r.1 {
            blocked_by_device(old(shared)@, device_id@)
        } else {
            old(shared)@
        }),
        r.0@ == reply(
            200,
            if r.1 {
                "{\"result\":\"ok\",\"verified\":true}"@
            } else {
                "{\"result\":\"ok\",\"verified\":false}"@
            },
        ),
{
    match answer {
        Err(LanErr::Blocked(_)) => {
            let _ = shared.settings.paired.remove(device_id);
            shared.settings.blocked_by.insert(device_id.to_string());
            let _ = shared.discovered.remove(device_id);
            (reply_of(200, "{\"result\":\"ok\",\"verified\":true}"), true)
        },
        _ => (reply_of(200, "{\"result\":\"ok\",\"verified\":false}"), false),
    }
}

// ---------- clips ----------

/// A stored clip, as it is looked up for another device.
pub struct ClipRow {
    pub id: i64,
    pub kind: String,
    pub content: Option<String>,
    pub image_len: Option<i64>,
    /// In seconds.
    pub created_at: i64,
    /// The device that it came from; none for this one.
    pub remote_device_id: Option<String>,
    /// Its number on that device.
    pub remote_id: Option<i64>,
}

/// The view of a stored clip.
#[verifier::ext_equal]
pub struct ClipRowView {
    pub id: i64,
    pub kind: Seq<char>,
    pub content: Option<Seq<char>>,
    pub image_len: Option<i64>,
    pub created_at: i64,
    pub remote_device_id: Option<Seq<char>>,
    pub remote_id: Option<i64>,
}

impl View for ClipRow {
    type V = ClipRowView;

    open spec fn view(&self) -> ClipRowView {
        ClipRowView {
            id: self.id,
            kind: self.kind@,
            content: opt_text(self.content),
            image_len: self.image_len,
            created_at: self.created_at,
            remote_device_id: opt_text(self.remote_device_id),
            remote_id: self.remote_id,
        }
    }
}

/// The views of several clips.
pub open spec fn row_views(v: Seq<ClipRow>) -> Seq<ClipRowView> {
    v.map_values(|c: ClipRow| c@)
}

/// The device that a clip came from.
pub open spec fn origin(c: ClipRowView, my_id: Seq<char>) -> Seq<char> {
    match c.remote_device_id {
        Some(d) => d,
        None => my_id,
    }
}

/// Whether a clip is offered to a device: files are paths of this device and
/// mean nothing elsewhere, and a clip does not go back to where it came from.
pub open spec fn offered(c: ClipRowView, asking: Seq<char>, my_id: Seq<char>) -> bool {
    c.kind != "file"@ && origin(c, my_id) != asking
}

/// A clip as it goes out: the time in milliseconds, and for a picture the name
/// and the size of the file under which it can be fetched.
pub open spec fn clip_members(c: ClipRowView, my_id: Seq<char>) -> Seq<(Seq<char>, JsonView)> {
    let base = seq![
        ("id"@, JsonView::Int(c.id)),
        (
            "type"@,
            JsonView::Int(
                if c.kind == "image"@ {
                    WIRE_IMAGE
                } else {
                    WIRE_TEXT
                },
            ),
        ),
        (
            "text"@,
            match c.content {
                Some(t) => JsonView::Text(t),
                None => JsonView::Null,
            },
        ),
        ("timestamp"@, JsonView::Int((c.created_at * 1000) as i64)),
        ("remoteDeviceId"@, JsonView::Text(origin(c, my_id))),
        (
            "remoteId"@,
            JsonView::Int(
                match c.remote_id {
                    Some(n) => n,
                    None => c.id,
                },
            ),
        ),
    ];
    match c.image_len {
        Some(len) => if c.kind == "image"@ {
            base.push(
                ("fileName"@, JsonView::Text("clip_"@ + dec_int(c.id as int) + ".png"@)),
            ).push(("fileSize"@, JsonView::Int(len)))
        } else {
            base
        },
        None => base,
    }
}

/// The clips that are offered to a device, as they go out.
pub open spec fn page(rows: Seq<ClipRowView>, asking: Seq<char>, my_id: Seq<char>) -> Seq<
    Seq<(Seq<char>, JsonView)>,
>
    decreases rows.len(),
{
    if rows.len() == 0 {
        seq![]
    } else if offered(rows.last(), asking, my_id) {
        page(rows.drop_last(), asking, my_id).push(clip_members(rows.last(), my_id))
    } else {
        page(rows.drop_last(), asking, my_id)
    }
}

fn clip_object(c: &ClipRow, my_id: &str) -> (r: Vec<(String, Json)>)
    requires
        i64::MIN <= c.created_at * 1000 <= i64::MAX,
    ensures
        members(r@) == clip_members(c@, my_id@),
{
    let image = same(c.kind.as_str(), "image");
    let mut m: Vec<(String, Json)> = Vec::new();
    m.push(field("id", Json::Int(c.id)));
    let wire: i64 = if image {
        WIRE_IMAGE
    } else {
        WIRE_TEXT
    };
    m.push(field("type", Json::Int(wire)));
    let text = match &c.content {
        Some(t) => Json::Text(t.clone()),
        None => Json::Null,
    };
    m.push(field("text", text));
    m.push(field("timestamp", Json::Int(c.created_at * 1000)));
    let from = match &c.remote_device_id {
        Some(d) => d.clone(),
        None => my_id.to_string(),
    };
    m.push(field("remoteDeviceId", Json::Text(from)));
    let number: i64 = match c.remote_id {
        Some(n) => n,
        None => c.id,
    };
    m.push(field("remoteId", Json::Int(number)));
    match c.image_len {
        Some(len) => if image {
            let mut name = "clip_".to_string();
            name.append(decimal_i64(c.id).as_str());
            name.append(".png");
            m.push(field("fileName", Json::Text(name)));
            m.push(field("fileSize", Json::Int(len)));
        },
        None => {},
    }
    assert(members(m@) =~= clip_members(c@, my_id@));
    m
}

/// The time since when a device asks for clips, in milliseconds.
pub open spec fn asked_since(query: Map<Seq<char>, Seq<char>>) -> int {
    match header(query, "since"@) {
        Some(v) => match parse_signed(v) {
            Some(n) => n,
            None => 0,
        },
        None => 0,
    }
}

/// What is to be looked up for a device that asks for clips.
pub struct ClipsAsked {
    /// In milliseconds.
    pub since: i64,
    pub asking: String,
    pub my_id: String,
    /// Whether the settings are to be stored.
    pub changed: bool,
}

/// A device asks for the clips that are new since a time.
pub fn handle_clips(
    s: &mut LanSettings,
    h: &StrMap<String>,
    query: &StrMap<String>,
    ip: &str,
) -> (r: Result<ClipsAsked, Reply>)
    ensures
        match r {
            Ok(a) => {
                &&& content_refusal(old(s)@, h@) is None
                &&& final(s)@ == auto_paired(old(s)@, h@, ip@)
                &&& a.since == asked_since(query@)
                &&& Some(a.asking@) == header(h@, "x-device-id"@)
                &&& a.my_id@ == old(s)@.device_id
                &&& a.changed == match requester(old(s)@, h@, ip@) {
                    Some(d) => !old(s)@.blocked.contains_key(d.device_id) && !known_as(old(s)@, d),
                    None => false,
                }
            },
            Err(e) => content_refusal(old(s)@, h@) == Some(e@) && final(s)@ == old(s)@,
        },
{
    let changed = match admit_content(s, h, ip) {
        Ok(c) => c,
        Err(e) => {
            return Err(e);
        },
    };
    let since: i64 = match query.get("since") {
        Some(v) => match read_i64(v.as_str()) {
            Some(n) => n,
            None => 0,
        },
        None => 0,
    };
    let asking = match header_value(h, "x-device-id") {
        Some(id) => id,
        None => String::new(),
    };
    Ok(ClipsAsked { since: since, asking: asking, my_id: s.device_id.clone(), changed: changed })
}

/// The reply that offers the clips which were looked up.
pub fn clips_reply(rows: &Vec<ClipRow>, asking: &str, my_id: &str) -> (r: Reply)
    requires
        forall|i: int|
            0 <= i < rows@.len() ==> i64::MIN <= (#[trigger] rows@[i]).created_at * 1000 <= i64::MAX,
    ensures
        ({
            let p = page(row_views(rows@), asking@, my_id@);
            &&& r@ == reply(200, array_json(p))
            &&& crate::json::json_items(encode_utf8(r.body@)).len() == p.len()
            &&& forall|i: int|
                0 <= i < p.len() ==> crate::json::holds_members(
                    #[trigger] crate::json::json_items(encode_utf8(r.body@))[i],
                    p[i],
                )
        }),
{
    let mut list: Vec<Vec<(String, Json)>> = Vec::new();
    let ghost all = row_views(rows@);
    let mut i: usize = 0;
    assert(all.take(0) =~= Seq::<ClipRowView>::empty());
    assert(member_lists(list@) =~= seq![]);
    while i < rows.len()
        invariant
            i <= rows@.len(),
            all == row_views(rows@),
            forall|j: int|
                0 <= j < rows@.len() ==> i64::MIN <= (#[trigger] rows@[j]).created_at * 1000
                    <= i64::MAX,
            member_lists(list@) == page(all.take(i as int), asking@, my_id@),
        decreases rows@.len() - i,
    {
        let c = &rows[i];
        assert(all.take(i + 1).drop_last() =~= all.take(i as int));
        assert(all.take(i + 1).last() == c@);
        let from_asking = match &c.remote_device_id {
            Some(d) => same(d.as_str(), asking),
            None => same(my_id, asking),
        };
        if !same(c.kind.as_str(), "file") && !from_asking {
            let o = clip_object(c, my_id);
            let ghost before = list@;
            let ghost ov = members(o@);
            list.push(o);
            assert(member_lists(list@) =~= member_lists(before).push(ov));
        }
        i = i + 1;
    }
    assert(all.take(i as int) =~= all);
    let body = array_text(&list);
    proof {
        let p = page(all, asking@, my_id@);
        assert forall|i: int| 0 <= i < p.len() implies crate::json::holds_members(
            #[trigger] crate::json::json_items(encode_utf8(body@))[i],
            p[i],
        ) by {
            assert(member_lists(list@)[i] == members(list@[i]@));
        }
    }
    Reply { code: 200, body: body }
}

/// What goes out to a device is, clip by clip, something that is offered to it.
proof fn lemma_page(rows: Seq<ClipRowView>, asking: Seq<char>, my_id: Seq<char>, i: int) -> (j: int)
    requires
        0 <= i < page(rows, asking, my_id).len(),
    ensures
        0 <= j < rows.len(),
        offered(rows[j], asking, my_id),
        page(rows, asking, my_id)[i] == clip_members(rows[j], my_id),
    decreases rows.len(),
{
    let before = page(rows.drop_last(), asking, my_id);
    if i < before.len() {
        lemma_page(rows.drop_last(), asking, my_id, i)
    } else {
        rows.len() - 1
    }
}

/// No clip goes back to the device that it came from, and no file goes out.
pub proof fn clips_never_return(
    rows: Seq<ClipRowView>,
    asking: Seq<char>,
    my_id: Seq<char>,
    i: int,
)
    requires
        0 <= i < page(rows, asking, my_id).len(),
    ensures
        page(rows, asking, my_id)[i][4].0 == "remoteDeviceId"@,
        page(rows, asking, my_id)[i][4].1 != JsonView::Text(asking),
        exists|j: int|
            0 <= j < rows.len() && (#[trigger] rows[j]).kind != "file"@ && page(
                rows,
                asking,
                my_id,
            )[i] == clip_members(rows[j], my_id),
{
    let j = lemma_page(rows, asking, my_id, i);
    assert(rows[j].kind != "file"@);
}

/// Every clip that is offered does go out.
pub proof fn offered_clips_go_out(
    rows: Seq<ClipRowView>,
    asking: Seq<char>,
    my_id: Seq<char>,
    j: int,
)
    requires
        0 <= j < rows.len(),
        offered(rows[j], asking, my_id),
    ensures
        page(rows, asking, my_id).contains(clip_members(rows[j], my_id)),
    decreases rows.len(),
{
    let p = page(rows, asking, my_id);
    if j == rows.len() - 1 {
        assert(p.last() == clip_members(rows[j], my_id));
    } else {
        offered_clips_go_out(rows.drop_last(), asking, my_id, j);
        let before = page(rows.drop_last(), asking, my_id);
        let k = choose|k: int| 0 <= k < before.len() && before[k] == clip_members(rows[j], my_id);
        assert(p[k] == before[k]);
    }
}

/// A device asks for the picture of a clip: the number of the clip, and whether
/// the settings are to be stored.
pub fn handle_file(
    s: &mut LanSettings,
    h: &StrMap<String>,
    query: &StrMap<String>,
    ip: &str,
) -> (r: (Result<i64, Reply>, bool))
    ensures
        match content_refusal(old(s)@, h@) {
            Some(e) => r.0 is Err && r.0->Err_0@ == e && !r.1 && final(s)@ == old(s)@,
            None => {
                &&& final(s)@ == auto_paired(old(s)@, h@, ip@)
                &&& r.1 == match requester(old(s)@, h@, ip@) {
                    Some(d) => !old(s)@.blocked.contains_key(d.device_id) && !known_as(old(s)@, d),
                    None => false,
                }
                &&& match header(query@, "id"@) {
                    Some(v) => match parse_signed(v) {
                        Some(n) => r.0 is Ok && r.0->Ok_0 == n,
                        None => r.0 is Err && r.0->Err_0@ == bad_request(),
                    },
                    None => r.0 is Err && r.0->Err_0@ == bad_request(),
                }
            },
        },
{
    let changed = match admit_content(s, h, ip) {
        Ok(c) => c,
        Err(e) => {
            return (Err(e), false);
        },
    };
    match query.get("id") {
        Some(v) => match read_i64(v.as_str()) {
            Some(n) => {
                return (Ok(n), changed);
            },
            None => {},
        },
        None => {},
    }
    (Err(reply_of(400, "{\"error\":\"bad_request\"}")), changed)
}

/// The bytes that answer a request for a picture.
pub fn file_reply(image: &Option<Vec<u8>>) -> (r: Vec<u8>)
    requires
        image matches Some(b) ==> b@.len() <= isize::MAX,
    ensures
        match image {
            Some(b) => r@ == encode_utf8(response_head(200, "application/octet-stream"@, b@.len()))
                + b@,
            None => r@ == encode_utf8(
                response_head(404, "application/json"@, encode_utf8("File Not Found"@).len()),
            ) + encode_utf8("File Not Found"@),
        },
{
    match image {
        Some(b) => respond(200, "application/octet-stream", b.as_slice()),
        None => {
            proof {
                reveal_strlit("File Not Found");
                is_ascii_chars_encode_utf8("File Not Found"@);
            }
            respond_json(&reply_of(404, "File Not Found"))
        },
    }
}

// ---------- laws of what is answered ----------

/// Whether a clip goes out depends on its kind and its origin alone: it does where
/// its kind is not `file` and the device that it came from, or this one where it
/// came from none, is not the one that asks. What goes out keeps the order of the
/// rows.
pub proof fn kind_and_origin_decide(
    rows: Seq<ClipRowView>,
    row: ClipRowView,
    asking: Seq<char>,
    my_id: Seq<char>,
)
    ensures
        page(Seq::empty(), asking, my_id) == Seq::<Seq<(Seq<char>, JsonView)>>::empty(),
        row.kind != "file"@ && row.remote_device_id is None && my_id != asking ==> page(
            rows.push(row),
            asking,
            my_id,
        ) == page(rows, asking, my_id).push(clip_members(row, my_id)),
        row.kind != "file"@ && row.remote_device_id is Some && row.remote_device_id->0 != asking
            ==> page(rows.push(row), asking, my_id) == page(rows, asking, my_id).push(
            clip_members(row, my_id),
        ),
        row.kind == "file"@ || row.remote_device_id == Some(asking) || (
        row.remote_device_id is None && my_id == asking) ==> page(rows.push(row), asking, my_id)
            == page(rows, asking, my_id),
{
    assert(rows.push(row).drop_last() =~= rows);
}

/// Pages come together as their rows do: what goes out of one row does not depend
/// on the other rows.
pub proof fn pages_join(
    a: Seq<ClipRowView>,
    b: Seq<ClipRowView>,
    asking: Seq<char>,
    my_id: Seq<char>,
)
    ensures
        page(a + b, asking, my_id) == page(a, asking, my_id) + page(b, asking, my_id),
    decreases b.len(),
{
    if b.len() == 0 {
        assert(a + b =~= a);
        assert(page(a, asking, my_id) + page(b, asking, my_id) =~= page(a, asking, my_id));
    } else {
        pages_join(a, b.drop_last(), asking, my_id);
        assert((a + b).drop_last() =~= a + b.drop_last());
        assert(page(a + b, asking, my_id) =~= page(a, asking, my_id) + page(b, asking, my_id));
    }
}

/// Where every row is of this device or of another than the one that asks, and no
/// row is of files, all of them go out, each in its place.
pub proof fn all_clips_of_others_go_out(
    rows: Seq<ClipRowView>,
    asking: Seq<char>,
    my_id: Seq<char>,
)
    requires
        my_id != asking,
        forall|i: int|
            0 <= i < rows.len() ==> (#[trigger] rows[i]).kind != "file"@ && rows[i].remote_device_id
                != Some(asking),
    ensures
        page(rows, asking, my_id).len() == rows.len(),
        forall|i: int|
            0 <= i < rows.len() ==> #[trigger] page(rows, asking, my_id)[i] == clip_members(
                rows[i],
                my_id,
            ),
    decreases rows.len(),
{
    if rows.len() > 0 {
        let before = rows.drop_last();
        assert forall|i: int| 0 <= i < before.len() implies (#[trigger] before[i]).kind != "file"@
            && before[i].remote_device_id != Some(asking) by {
            assert(before[i] == rows[i]);
        }
        all_clips_of_others_go_out(before, asking, my_id);
        assert(rows[rows.len() - 1].kind != "file"@);
    }
}

/// A clip goes out under its own number, with its text as it is and its time in
/// milliseconds; a clip of this device under the identity of this device and its
/// own number, and one that came from another under the identity and the number
/// that it had there. A picture goes out as kind 1 and anything else as kind 0,
/// and only a picture names a file and its size.
pub proof fn clips_go_out_as_they_are(c: ClipRowView, my_id: Seq<char>)
    requires
        i64::MIN <= c.created_at * 1000 <= i64::MAX,
    ensures
        clip_members(c, my_id)[0] == ("id"@, JsonView::Int(c.id)),
        c.kind == "image"@ ==> clip_members(c, my_id)[1] == ("type"@, JsonView::Int(1)),
        c.kind != "image"@ ==> clip_members(c, my_id)[1] == ("type"@, JsonView::Int(0)),
        c.content is Some ==> clip_members(c, my_id)[2] == ("text"@, JsonView::Text(c.content->0)),
        c.content is None ==> clip_members(c, my_id)[2] == ("text"@, JsonView::Null),
        clip_members(c, my_id)[3].0 == "timestamp"@,
        clip_members(c, my_id)[3].1 matches JsonView::Int(t) && t == c.created_at * 1000,
        c.remote_device_id is None ==> clip_members(c, my_id)[4] == (
            "remoteDeviceId"@,
            JsonView::Text(my_id),
        ),
        c.remote_device_id is Some ==> clip_members(c, my_id)[4] == (
            "remoteDeviceId"@,
            JsonView::Text(c.remote_device_id->0),
        ),
        c.remote_id is None ==> clip_members(c, my_id)[5] == ("remoteId"@, JsonView::Int(c.id)),
        c.remote_id is Some ==> clip_members(c, my_id)[5] == (
            "remoteId"@,
            JsonView::Int(c.remote_id->0),
        ),
        c.kind == "image"@ && c.image_len is Some ==> {
            &&& clip_members(c, my_id).len() == 8
            &&& clip_members(c, my_id)[6] == (
                "fileName"@,
                JsonView::Text("clip_"@ + dec_int(c.id as int) + ".png"@),
            )
            &&& clip_members(c, my_id)[7] == ("fileSize"@, JsonView::Int(c.image_len->0))
        },
        c.kind != "image"@ || c.image_len is None ==> clip_members(c, my_id).len() == 6,
{
}

/// Who is refused content, and how: while nothing is shared everyone is told so;
/// without the pairing code the code is bad; a device that does not say who it is,
/// is blocked or is not paired is told that it is not paired.
pub proof fn content_is_refused(s: SettingsView, h: Map<Seq<char>, Seq<char>>)
    ensures
        !s.sharing ==> content_refusal(s, h) == Some(
            (ReplyView { code: 403, body: "{\"error\":\"sharing_off\"}"@ }),
        ),
        s.sharing && (!h.contains_key("x-token"@) || h["x-token"@] != s.pairing_token)
            ==> content_refusal(s, h) == Some(
            (ReplyView { code: 401, body: "{\"error\":\"bad_token\"}"@ }),
        ),
        s.sharing && h.contains_key("x-token"@) && h["x-token"@] == s.pairing_token && (
        !h.contains_key("x-device-id"@) || s.blocked.contains_key(h["x-device-id"@])
            || !s.paired.contains_key(h["x-device-id"@])) ==> content_refusal(s, h) == Some(
            (ReplyView { code: 403, body: "{\"error\":\"unpaired\"}"@ }),
        ),
        s.sharing && h.contains_key("x-token"@) && h["x-token"@] == s.pairing_token
            && h.contains_key("x-device-id"@) && !s.blocked.contains_key(h["x-device-id"@])
            && s.paired.contains_key(h["x-device-id"@]) ==> content_refusal(s, h) is None,
{
}

/// Each path has its request under `GET`; `/recv` alone is posted. Another path is
/// not found and another method is not allowed.
pub proof fn paths_have_routes(method: Seq<char>, path: Seq<char>)
    ensures
        route_of("GET"@, "/info"@) == Route::Info,
        route_of("GET"@, "/pair"@) == Route::Pair,
        route_of("GET"@, "/unpair"@) == Route::Unpair,
        route_of("GET"@, "/unblocked"@) == Route::Unblocked,
        route_of("GET"@, "/blocked"@) == Route::Blocked,
        route_of("GET"@, "/clips"@) == Route::Clips,
        route_of("GET"@, "/file"@) == Route::File,
        route_of("POST"@, "/recv"@) == Route::Receive,
        method == "POST"@ && path != "/recv"@ ==> route_of(method, path) == Route::NotAllowed,
        method != "GET"@ && method != "POST"@ ==> route_of(method, path) == Route::NotAllowed,
        method == "GET"@ && path == "__method_not_allowed__"@ ==> route_of(method, path)
            == Route::NotAllowed,
        method == "GET"@ && path != "/info"@ && path != "/pair"@ && path != "/unpair"@ && path
            != "/unblocked"@ && path != "/blocked"@ && path != "/clips"@ && path != "/file"@ && path
            != "__method_not_allowed__"@ ==> route_of(method, path) == Route::NotFound,
{
    reveal_strlit("GET");
    reveal_strlit("POST");
    reveal_strlit("/info");
    reveal_strlit("/pair");
    reveal_strlit("/unpair");
    reveal_strlit("/unblocked");
    reveal_strlit("/blocked");
    reveal_strlit("/clips");
    reveal_strlit("/file");
    reveal_strlit("__method_not_allowed__");
    assert("GET"@.len() == 3 && "POST"@.len() == 4);
    assert("/info"@[1] == 'i' && "/pair"@[1] == 'p' && "/unpair"@[3] == 'p' && "/unblocked"@[3]
        == 'b');
    assert("/blocked"@[1] == 'b' && "/clips"@[1] == 'c' && "/file"@[1] == 'f' && "/unpair"@[1]
        == 'u' && "/unblocked"@[1] == 'u');
    assert("__method_not_allowed__"@[0] == '_');
}

/// Who asks to be paired is told by the headers: whoever gives an identity, a code
/// and a port, and is not this device itself, is taken by just these, at the
/// address that the request came from. Anyone else is nobody.
pub proof fn headers_tell_who_asks(s: SettingsView, h: Map<Seq<char>, Seq<char>>, ip: Seq<char>)
    ensures
        requester(s, h, ip) is Some <==> {
            &&& h.contains_key("x-device-id"@)
            &&& h.contains_key("x-my-token"@)
            &&& h.contains_key("x-my-port"@)
            &&& parse_unsigned(h["x-my-port"@], 10, 65535) is Some
            &&& h["x-device-id"@] != s.device_id
        },
        requester(s, h, ip) matches Some(d) ==> {
            &&& d.device_id == h["x-device-id"@]
            &&& d.token == Some(h["x-my-token"@])
            &&& d.host == Some(ip)
            &&& Some(d.port as nat) == parse_unsigned(h["x-my-port"@], 10, 65535)
            &&& d.sharing
            &&& d.paired
            &&& h.contains_key("x-device-name"@) ==> d.name == decoded(h["x-device-name"@])
            &&& !h.contains_key("x-device-name"@) ==> d.name == "未知设备"@
            &&& h.contains_key("x-device-model"@) ==> d.model == Some(decoded(h["x-device-model"@]))
            &&& !h.contains_key("x-device-model"@) ==> d.model is None
        },
{
}

/// A request to pair: while nothing is shared it is refused; one that does not tell
/// who asks is a bad one; where the user lets every device in, one that is not
/// blocked is granted at once; else the user is asked, but only where the request
/// shows the pairing code.
pub proof fn pairing_is_decided(s: SettingsView, h: Map<Seq<char>, Seq<char>>, ip: Seq<char>)
    ensures
        !s.sharing ==> pair_step(s, h, ip) == PairStepView::Refused(
            (ReplyView { code: 403, body: "{\"error\":\"sharing_off\"}"@ }),
        ),
        s.sharing && requester(s, h, ip) is None ==> pair_step(s, h, ip) == PairStepView::Refused(
            (ReplyView { code: 400, body: "{\"error\":\"bad_request\"}"@ }),
        ),
        s.sharing && requester(s, h, ip) is Some ==> {
            let d = requester(s, h, ip)->0;
            let let_in = s.auto_accept_pair && !s.blocked.contains_key(h["x-device-id"@]);
            let shows = h.contains_key("x-token"@) && h["x-token"@] == s.pairing_token;
            &&& let_in ==> pair_step(s, h, ip) == PairStepView::Granted(d)
            &&& !let_in && shows ==> pair_step(s, h, ip) == PairStepView::Asked(d)
            &&& !let_in && !shows ==> pair_step(s, h, ip) == PairStepView::Refused(
                (ReplyView { code: 401, body: "{\"error\":\"bad_token\"}"@ }),
            )
        },
{
}

/// Pairing with a device lets it in and touches no other device.
pub proof fn pairing_touches_one_device(s: SettingsView, d: DeviceView, other: Seq<char>)
    requires
        other != d.device_id,
    ensures
        paired_with(s, d).paired.contains_key(d.device_id),
        paired_with(s, d).paired[d.device_id] == d,
        !paired_with(s, d).blocked.contains_key(d.device_id),
        paired_with(s, d).paired.contains_key(other) == s.paired.contains_key(other),
        s.paired.contains_key(other) ==> paired_with(s, d).paired[other] == s.paired[other],
        paired_with(s, d).blocked.contains_key(other) == s.blocked.contains_key(other),
        s.blocked.contains_key(other) ==> paired_with(s, d).blocked[other] == s.blocked[other],
        paired_with(s, d).blocked_by == s.blocked_by,
        paired_with(s, d).pairing_token == s.pairing_token,
        paired_with(s, d).device_id == s.device_id,
        paired_with(s, d).device_name == s.device_name,
        paired_with(s, d).sharing == s.sharing,
{
}

/// A request for content renews what is known of the device that asks, unless it
/// is blocked: afterwards the code, the name and the port that it gave are those
/// that are kept. No other device, and nothing else, changes.
pub proof fn asking_renews_what_is_known(
    s: SettingsView,
    h: Map<Seq<char>, Seq<char>>,
    ip: Seq<char>,
    other: Seq<char>,
)
    ensures
        requester(s, h, ip) is None ==> auto_paired(s, h, ip) == s,
        requester(s, h, ip) matches Some(d) ==> {
            let t = auto_paired(s, h, ip);
            &&& s.blocked.contains_key(d.device_id) ==> t == s
            &&& !s.blocked.contains_key(d.device_id) ==> {
                &&& t.paired.contains_key(d.device_id)
                &&& t.paired[d.device_id].token == d.token
                &&& t.paired[d.device_id].name == d.name
                &&& t.paired[d.device_id].port == d.port
            }
            &&& other != d.device_id ==> t.paired.contains_key(other) == s.paired.contains_key(
                other,
            ) && (s.paired.contains_key(other) ==> t.paired[other] == s.paired[other])
            &&& t == (SettingsView { paired: t.paired, ..s })
        },
{
}

/// What takes a pairing or a block back is done for another device that shows the
/// pairing code and says who it is, whether anything is shared or not.
pub proof fn notices_need_the_code(s: SettingsView, h: Map<Seq<char>, Seq<char>>)
    ensures
        notice_refusal(s, h) is None <==> {
            &&& h.contains_key("x-token"@)
            &&& h["x-token"@] == s.pairing_token
            &&& h.contains_key("x-device-id"@)
            &&& h["x-device-id"@].len() > 0
            &&& h["x-device-id"@] != s.device_id
        },
        !h.contains_key("x-token"@) || h["x-token"@] != s.pairing_token ==> notice_refusal(s, h)
            == Some((ReplyView { code: 401, body: "{\"error\":\"bad_token\"}"@ })),
        notice_refusal(s, h) is Some && h.contains_key("x-token"@) && h["x-token"@]
            == s.pairing_token ==> notice_refusal(s, h) == Some(
            (ReplyView { code: 400, body: "{\"error\":\"bad_request\"}"@ }),
        ),
{
}

/// A notice of being blocked is looked into where it names another device and a
/// port other than 0.
pub proof fn blockers_name_themselves(s: SettingsView, h: Map<Seq<char>, Seq<char>>)
    ensures
        names_blocker(s, h) <==> {
            &&& h.contains_key("x-device-id"@)
            &&& h["x-device-id"@].len() > 0
            &&& h["x-device-id"@] != s.device_id
            &&& h.contains_key("x-my-port"@)
            &&& parse_unsigned(h["x-my-port"@], 10, 65535) matches Some(p) && 0 < p
        },
        names_blocker(s, h) ==> Some(port_header(h) as nat) == parse_unsigned(
            h["x-my-port"@],
            10,
            65535,
        ),
{
    if h.contains_key("x-my-port"@) {
        match parse_unsigned(h["x-my-port"@], 10, u16::MAX as nat) {
            Some(p) => {
                assert(p <= u16::MAX);
            },
            None => {},
        }
    }
}

/// A device that has blocked this one is paired and seen no more, and is known to
/// have blocked it; nothing changes of other devices.
pub proof fn being_blocked_ends_the_pairing(v: SharedView, id: Seq<char>, other: Seq<char>)
    requires
        other != id,
    ensures
        !blocked_by_device(v, id).settings.paired.contains_key(id),
        blocked_by_device(v, id).settings.blocked_by.contains(id),
        !blocked_by_device(v, id).discovered.contains_key(id),
        blocked_by_device(v, id).settings.paired.contains_key(other)
            == v.settings.paired.contains_key(other),
        v.settings.paired.contains_key(other) ==> blocked_by_device(v, id).settings.paired[other]
            == v.settings.paired[other],
        blocked_by_device(v, id).settings.blocked_by.contains(other)
            == v.settings.blocked_by.contains(other),
        blocked_by_device(v, id).discovered.contains_key(other) == v.discovered.contains_key(other),
        blocked_by_device(v, id).settings.blocked == v.settings.blocked,
        blocked_by_device(v, id).settings.pairing_token == v.settings.pairing_token,
{
}

/// The time since when clips are asked for is the number that the request gives;
/// where it gives none that can be read, all of them are asked for.
pub proof fn since_is_the_number_given(q: Map<Seq<char>, Seq<char>>)
    ensures
        q.contains_key("since"@) && parse_signed(q["since"@]) is Some ==> asked_since(q)
            == parse_signed(q["since"@])->0,
        !q.contains_key("since"@) || parse_signed(q["since"@]) is None ==> asked_since(q) == 0,
{
}

/// What this device tells of itself is what its settings say.
pub proof fn info_tells_the_settings(s: SettingsView, platform: Platform)
    ensures
        info_members(s, platform).contains(("deviceId"@, JsonView::Text(s.device_id))),
        info_members(s, platform).contains(("name"@, JsonView::Text(s.device_name))),
        info_members(s, platform).contains(("model"@, JsonView::Text(model_text(platform)))),
        info_members(s, platform).contains(("sharing"@, JsonView::Bool(s.sharing))),
        info_members(s, platform).contains(("autoAccept"@, JsonView::Bool(s.auto_accept_pair))),
        info_members(s, platform).contains(("version"@, JsonView::Int(1))),
        blocked_members(s, platform).contains(("error"@, JsonView::Text("blocked"@))),
        blocked_members(s, platform).contains(("deviceId"@, JsonView::Text(s.device_id))),
        blocked_members(s, platform).contains(("name"@, JsonView::Text(s.device_name))),
{
    let m = info_members(s, platform);
    assert(m[0].0 == "deviceId"@ && m[1].0 == "name"@ && m[2].0 == "model"@ && m[3].0
        == "sharing"@ && m[4].0 == "autoAccept"@ && m[5].0 == "version"@);
    let b = blocked_members(s, platform);
    assert(b[0].0 == "error"@ && b[1].0 == "deviceId"@ && b[2].0 == "name"@);
}

} // verus!
