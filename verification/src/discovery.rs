//! How devices find each other: announcements, and questions to single addresses.

use crate::client::{
    asker, forbidden_as, get_lines, info_fault, request_is_understood, ErrView, LanErr,
};
use crate::http::{fits_line, is_word, lines_text, request_of};
use crate::json::{
    bool_member, field, get_bool, get_text, get_u64, holds_members, members, object_json,
    object_text, text_member, u64_member, Json, JsonView,
};
use crate::lan::{
    device_model, is_shut_out, model_text, shut_out, DeviceView, Discovered, DiscoveredView,
    LanDevice, LanShared, Platform, SettingsView, SharedView, DEFAULT_PORT,
};
use crate::numbers::{dec, decimal, parse_unsigned, read_decimal};
use crate::server::{blocked_members, from_blocked, info_members, route_of, Route};
use crate::text::{
    blank, chars_of, lemma_trim_blank, matches_at, opt_text, same, split, split_chars, stands_at,
    string_of, texts, trim, trim_chars, white_space,
};
use vstd::prelude::*;
use vstd::string::*;
use vstd::utf8::*;

verus! {

// ---------- announcements ----------

/// What a device announces.
pub open spec fn beacon_members(v: SharedView, platform: Platform) -> Seq<(Seq<char>, JsonView)> {
    seq![
        ("deviceId"@, JsonView::Text(v.settings.device_id)),
        ("name"@, JsonView::Text(v.settings.device_name)),
        ("model"@, JsonView::Text(model_text(platform))),
        ("port"@, JsonView::UInt(v.actual_port as u64)),
        ("sharing"@, JsonView::Bool(v.settings.sharing)),
    ]
}

/// What this device announces; nothing unless it may be found and its service runs.
pub fn beacon_payload(shared: &LanShared, platform: Platform) -> (r: Option<Vec<u8>>)
    ensures
        r is Some <==> shared@.settings.discoverable && shared@.server_running,
        r matches Some(b) ==> b@ == encode_utf8(object_json(beacon_members(shared@, platform)))
            && holds_members(b@, beacon_members(shared@, platform)),
{
    if !shared.settings.discoverable || !shared.server_running {
        return None;
    }
    let mut m: Vec<(String, Json)> = Vec::new();
    m.push(field("deviceId", Json::Text(shared.settings.device_id.clone())));
    m.push(field("name", Json::Text(shared.settings.device_name.clone())));
    m.push(field("model", Json::Text(device_model(platform))));
    m.push(field("port", Json::UInt(shared.actual_port as u64)));
    m.push(field("sharing", Json::Bool(shared.settings.sharing)));
    assert(members(m@) =~= beacon_members(shared@, platform));
    Some(object_text(&m).as_str().as_bytes_vec())
}

/// Whether an announcement counts: it names a device other than this one, and a
/// port, and the device is not shut out.
pub open spec fn announces(v: SharedView, doc: Seq<u8>) -> bool {
    &&& text_member(doc, "deviceId"@) matches Some(id) && id != v.settings.device_id && !shut_out(
        v.settings,
        id,
    )
    &&& u64_member(doc, "port"@) is Some
}

/// The device that an announcement from the address `ip` describes.
pub open spec fn announced(doc: Seq<u8>, ip: Seq<char>) -> DeviceView {
    DeviceView {
        device_id: text_member(doc, "deviceId"@)->0,
        name: match text_member(doc, "name"@) {
            Some(n) => n,
            None => "未知设备"@,
        },
        model: text_member(doc, "model"@),
        host: Some(ip),
        port: (u64_member(doc, "port"@)->0 % 65536) as u16,
        sharing: bool_member(doc, "sharing"@) == Some(true),
        paired: false,
        token: None,
    }
}

/// The state once a device was seen.
pub open spec fn seen(v: SharedView, d: DeviceView, now: u64) -> SharedView {
    SharedView {
        discovered: v.discovered.insert(d.device_id, DiscoveredView { device: d, last_seen: now }),
        ..v
    }
}

fn take_note(shared: &mut LanShared, d: LanDevice, now: u64)
    ensures
        final(shared)@ == seen(old(shared)@, d@, now),
{
    shared.discovered.insert(d.device_id.clone(), Discovered { device: d, last_seen: now });
}

/// Takes note of an announcement that came in from the address `ip`; whether it
/// counted.
pub fn receive_beacon(shared: &mut LanShared, doc: &[u8], ip: &str, now: u64) -> (r: bool)
    ensures
        r == announces(old(shared)@, doc@),
        final(shared)@ == (if r {
            seen(old(shared)@, announced(doc@, ip@), now)
        } else {
            old(shared)@
        }),
{
    let id = match get_text(doc, "deviceId") {
        Some(id) => id,
        None => {
            return false;
        },
    };
    if same(id.as_str(), shared.settings.device_id.as_str()) {
        return false;
    }
    let port: u64 = match get_u64(doc, "port") {
        Some(p) => p,
        None => {
            return false;
        },
    };
    if is_shut_out(&shared.settings, id.as_str()) {
        return false;
    }
    let name = match get_text(doc, "name") {
        Some(n) => n,
        None => "未知设备".to_string(),
    };
    let sharing = match get_bool(doc, "sharing") {
        Some(b) => b,
        None => false,
    };
    let d = LanDevice {
        device_id: id,
        name: name,
        model: get_text(doc, "model"),
        host: Some(ip.to_string()),
        port: (port % 65536) as u16,
        sharing: sharing,
        paired: false,
        token: None,
    };
    assert(d@ =~= announced(doc@, ip@));
    take_note(shared, d, now);
    true
}

/// Whoever hears the announcement of a device, unless one has shut out the other,
/// lists it under its identity, with its name, its port, and whether it shares.
pub proof fn announcement_is_understood(
    from: SharedView,
    platform: Platform,
    doc: Seq<u8>,
    to: SharedView,
    ip: Seq<char>,
)
    requires
        holds_members(doc, beacon_members(from, platform)),
        from.settings.device_id != to.settings.device_id,
        !shut_out(to.settings, from.settings.device_id),
    ensures
        announces(to, doc),
        announced(doc, ip) == (DeviceView {
            device_id: from.settings.device_id,
            name: from.settings.device_name,
            model: Some(model_text(platform)),
            host: Some(ip),
            port: from.actual_port,
            sharing: from.settings.sharing,
            paired: false,
            token: None,
        }),
{
    let m = beacon_members(from, platform);
    reveal_strlit("deviceId");
    reveal_strlit("name");
    reveal_strlit("model");
    reveal_strlit("port");
    reveal_strlit("sharing");
    assert("name"@[0] == 'n');
    assert("port"@[0] == 'p');
    assert("deviceId"@.len() == 8 && "name"@.len() == 4 && "model"@.len() == 5 && "port"@.len()
        == 4 && "sharing"@.len() == 7);
    assert(crate::json::last_of_name(m, 0));
    assert(crate::json::last_of_name(m, 1));
    assert(crate::json::last_of_name(m, 2));
    assert(crate::json::last_of_name(m, 3));
    assert(crate::json::last_of_name(m, 4));
    assert(m[0].0 == "deviceId"@ && m[1].0 == "name"@ && m[2].0 == "model"@ && m[3].0 == "port"@
        && m[4].0 == "sharing"@);
}

/// A device does not list itself.
pub proof fn own_announcement_is_ignored(v: SharedView, platform: Platform, doc: Seq<u8>)
    requires
        holds_members(doc, beacon_members(v, platform)),
    ensures
        !announces(v, doc),
{
    let m = beacon_members(v, platform);
    reveal_strlit("deviceId");
    reveal_strlit("name");
    reveal_strlit("model");
    reveal_strlit("port");
    reveal_strlit("sharing");
    assert("deviceId"@.len() == 8 && "name"@.len() == 4 && "model"@.len() == 5 && "port"@.len()
        == 4 && "sharing"@.len() == 7);
    assert(crate::json::last_of_name(m, 0));
    assert(m[0].0 == "deviceId"@);
}

// ---------- questions to single addresses ----------

/// The ports on which a device is asked what it is: the one that is set here,
/// then the usual one.
pub open spec fn ports(server_port: u16) -> Seq<u16> {
    if server_port == DEFAULT_PORT {
        seq![server_port]
    } else {
        seq![server_port, DEFAULT_PORT]
    }
}

/// The ports on which a device is asked what it is.
pub fn probe_ports(server_port: u16) -> (r: Vec<u16>)
    ensures
        r@ == ports(server_port),
{
    let mut v: Vec<u16> = Vec::new();
    v.push(server_port);
    if server_port != DEFAULT_PORT {
        v.push(DEFAULT_PORT);
    }
    assert(v@ =~= ports(server_port));
    v
}

/// The device that an answer of the address `ip` describes.
pub open spec fn described(doc: Seq<u8>, ip: Seq<char>, port: u16) -> DeviceView {
    DeviceView {
        device_id: text_member(doc, "deviceId"@)->0,
        name: match text_member(doc, "name"@) {
            Some(n) => n,
            None => ip,
        },
        model: text_member(doc, "model"@),
        host: Some(ip),
        port: port,
        sharing: bool_member(doc, "sharing"@) == Some(true),
        paired: false,
        token: None,
    }
}

fn describe(doc: &[u8], id: String, ip: &str, port: u16) -> (r: LanDevice)
    requires
        text_member(doc@, "deviceId"@) == Some(id@),
    ensures
        r@ == described(doc@, ip@, port),
{
    let name = match get_text(doc, "name") {
        Some(n) => n,
        None => ip.to_string(),
    };
    let sharing = match get_bool(doc, "sharing") {
        Some(b) => b,
        None => false,
    };
    LanDevice {
        device_id: id,
        name: name,
        model: get_text(doc, "model"),
        host: Some(ip.to_string()),
        port: port,
        sharing: sharing,
        paired: false,
        token: None,
    }
}

/// What to do after one question.
#[derive(Clone, Copy, PartialEq, Eq, Structural, Debug)]
pub enum ProbeStep {
    /// Ask on the next port.
    Next,
    /// A device was found and listed.
    Found,
    /// Give up.
    Stop,
    /// Give up; the settings have changed and are to be stored.
    Changed,
}

/// The address that the user typed; none where it is blank.
pub fn typed_address(ip: &str) -> (r: Option<String>)
    ensures
        opt_text(r) == (if blank(ip@) {
            None
        } else {
            Some(trim(ip@))
        }),
{
    let v = trim_chars(&chars_of(ip));
    proof {
        lemma_trim_blank(ip@);
    }
    if v.len() == 0 {
        None
    } else {
        Some(string_of(&v))
    }
}

/// What comes of the answer to one question about an address that the user gave.
pub open spec fn add_step(v: SharedView, answer: Result<Seq<u8>, ErrView>) -> ProbeStep {
    match answer {
        Ok(doc) => match text_member(doc, "deviceId"@) {
            None => ProbeStep::Next,
            Some(id) => if id == v.settings.device_id {
                ProbeStep::Next
            } else if shut_out(v.settings, id) {
                ProbeStep::Stop
            } else {
                ProbeStep::Found
            },
        },
        Err(ErrView::Blocked(Some(id))) => if id != v.settings.device_id {
            ProbeStep::Changed
        } else {
            ProbeStep::Stop
        },
        Err(_) => ProbeStep::Next,
    }
}

/// The view of an answer.
pub open spec fn answer_view(a: Result<Vec<u8>, LanErr>) -> Result<Seq<u8>, ErrView> {
    match a {
        Ok(d) => Ok(d@),
        Err(e) => Err(e@),
    }
}

/// The state once it is known that a device has blocked this one.
pub open spec fn known_blocker(v: SharedView, id: Seq<char>) -> SharedView {
    SharedView {
        settings: SettingsView {
            blocked_by: v.settings.blocked_by.insert(id),
            ..v.settings
        },
        discovered: v.discovered.remove(id),
        ..v
    }
}

/// Takes the answer to one question about an address that the user gave. A
/// device that has blocked this one is remembered as such.
pub fn lan_add_device(
    shared: &mut LanShared,
    ip: &str,
    port: u16,
    answer: &Result<Vec<u8>, LanErr>,
    now: u64,
) -> (r: ProbeStep)
    ensures
        r == add_step(old(shared)@, answer_view(*answer)),
        final(shared)@ == (match r {
            ProbeStep::Found => seen(
                old(shared)@,
                described(answer_view(*answer)->Ok_0, ip@, port),
                now,
            ),
            ProbeStep::Changed => known_blocker(
                old(shared)@,
                answer_view(*answer)->Err_0->Blocked_0->0,
            ),
            _ => old(shared)@,
        }),
{
    match answer {
        Ok(doc) => {
            let id = match get_text(doc.as_slice(), "deviceId") {
                Some(id) => id,
                None => {
                    return ProbeStep::Next;
                },
            };
            if same(id.as_str(), shared.settings.device_id.as_str()) {
                return ProbeStep::Next;
            }
            if is_shut_out(&shared.settings, id.as_str()) {
                return ProbeStep::Stop;
            }
            let d = describe(doc.as_slice(), id, ip, port);
            take_note(shared, d, now);
            ProbeStep::Found
        },
        Err(LanErr::Blocked(Some(id))) => {
            if same(id.as_str(), shared.settings.device_id.as_str()) {
                return ProbeStep::Stop;
            }
            shared.settings.blocked_by.insert(id.clone());
            let _ = shared.discovered.remove(id.as_str());
            ProbeStep::Changed
        },
        Err(_) => ProbeStep::Next,
    }
}

/// What comes of the answer to one question about an address of the network.
pub open spec fn sweep_step(v: SharedView, answer: Result<Seq<u8>, ErrView>) -> ProbeStep {
    match answer {
        Ok(doc) => match text_member(doc, "deviceId"@) {
            None => ProbeStep::Stop,
            Some(id) => if id == v.settings.device_id || shut_out(v.settings, id) {
                ProbeStep::Stop
            } else {
                ProbeStep::Found
            },
        },
        Err(_) => ProbeStep::Next,
    }
}

/// Takes the answer to one question about an address of the network.
pub fn lan_sweep(
    shared: &mut LanShared,
    ip: &str,
    port: u16,
    answer: &Result<Vec<u8>, LanErr>,
    now: u64,
) -> (r: ProbeStep)
    ensures
        r == sweep_step(old(shared)@, answer_view(*answer)),
        final(shared)@ == (if r == ProbeStep::Found {
            seen(old(shared)@, described(answer_view(*answer)->Ok_0, ip@, port), now)
        } else {
            old(shared)@
        }),
{
    match answer {
        Ok(doc) => {
            let id = match get_text(doc.as_slice(), "deviceId") {
                Some(id) => id,
                None => {
                    return ProbeStep::Stop;
                },
            };
            if same(id.as_str(), shared.settings.device_id.as_str()) || is_shut_out(
                &shared.settings,
                id.as_str(),
            ) {
                return ProbeStep::Stop;
            }
            let d = describe(doc.as_slice(), id, ip, port);
            take_note(shared, d, now);
            ProbeStep::Found
        },
        Err(_) => ProbeStep::Next,
    }
}

/// A device that is shut out is listed neither when it announces itself nor when
/// it is asked what it is.
pub proof fn shut_out_is_never_seen(v: SharedView, doc: Seq<u8>)
    requires
        text_member(doc, "deviceId"@) matches Some(id) && shut_out(v.settings, id),
    ensures
        !announces(v, doc),
        add_step(v, Ok(doc)) != ProbeStep::Found,
        sweep_step(v, Ok(doc)) != ProbeStep::Found,
{
}

/// What a device tells of itself is understood by whoever asks it.
pub proof fn info_is_understood(
    s: SettingsView,
    platform: Platform,
    doc: Seq<u8>,
    ip: Seq<char>,
    port: u16,
)
    requires
        holds_members(doc, info_members(s, platform)),
    ensures
        info_fault(200, doc) is None,
        described(doc, ip, port) == (DeviceView {
            device_id: s.device_id,
            name: s.device_name,
            model: Some(model_text(platform)),
            host: Some(ip),
            port: port,
            sharing: s.sharing,
            paired: false,
            token: None,
        }),
        bool_member(doc, "autoAccept"@) == Some(s.auto_accept_pair),
{
    let m = info_members(s, platform);
    reveal_strlit("deviceId");
    reveal_strlit("name");
    reveal_strlit("model");
    reveal_strlit("sharing");
    reveal_strlit("autoAccept");
    reveal_strlit("version");
    assert("deviceId"@.len() == 8 && "name"@.len() == 4 && "model"@.len() == 5 && "sharing"@.len()
        == 7 && "autoAccept"@.len() == 10 && "version"@.len() == 7);
    assert("sharing"@[0] == 's' && "version"@[0] == 'v');
    assert(crate::json::last_of_name(m, 0));
    assert(crate::json::last_of_name(m, 1));
    assert(crate::json::last_of_name(m, 2));
    assert(crate::json::last_of_name(m, 3));
    assert(crate::json::last_of_name(m, 4));
    assert(m[0].0 == "deviceId"@ && m[1].0 == "name"@ && m[2].0 == "model"@ && m[3].0 == "sharing"@
        && m[4].0 == "autoAccept"@);
}

/// The refusal of a blocked device that asks says that it is blocked, and by whom.
pub proof fn block_is_understood(s: SettingsView, platform: Platform, doc: Seq<u8>)
    requires
        holds_members(doc, blocked_members(s, platform)),
    ensures
        info_fault(403, doc) == Some(ErrView::Blocked(Some(s.device_id))),
        forbidden_as(doc) == ErrView::Blocked(Some(s.device_id)),
{
    let m = blocked_members(s, platform);
    reveal_strlit("error");
    reveal_strlit("deviceId");
    reveal_strlit("name");
    reveal_strlit("model");
    reveal_strlit("unpaired");
    reveal_strlit("blocked");
    assert("error"@.len() == 5 && "deviceId"@.len() == 8 && "name"@.len() == 4 && "model"@.len()
        == 5);
    assert("error"@[0] == 'e' && "model"@[0] == 'm');
    assert("unpaired"@.len() == 8 && "blocked"@.len() == 7);
    assert(crate::json::last_of_name(m, 0));
    assert(crate::json::last_of_name(m, 1));
    assert(m[0].0 == "error"@ && m[1].0 == "deviceId"@);
}

/// A device that asks another what it is, is answered by it, and refused exactly where
/// the other has blocked it: what it makes of the refusal is that it is blocked, and
/// by whom. `v` is the device that asks, and `s` holds the settings of the other.
pub proof fn blocked_asker_is_told(
    v: SharedView,
    platform: Platform,
    host: Seq<char>,
    port: u16,
    s: SettingsView,
    other: Platform,
    doc: Seq<u8>,
)
    requires
        fits_line(host),
        fits_line(v.settings.device_id),
    ensures
        request_of(lines_text(get_lines(host, port, "/info"@, asker(v, platform), None))) matches
            Some(q) && {
            &&& route_of(q.method, q.path) == Route::Info
            &&& from_blocked(s, q.headers) == s.blocked.contains_key(v.settings.device_id)
        },
        holds_members(doc, blocked_members(s, other)) ==> info_fault(403, doc) == Some(
            ErrView::Blocked(Some(s.device_id)),
        ),
        holds_members(doc, info_members(s, other)) ==> info_fault(200, doc) is None,
{
    reveal_strlit("/info");
    reveal_strlit("GET");
    reveal_strlit("POST");
    reveal_strlit("__method_not_allowed__");
    let path = "/info"@;
    assert(path.len() == 5 && "__method_not_allowed__"@.len() == 22);
    assert(is_word(path)) by {
        assert forall|i: int| 0 <= i < path.len() implies !white_space(#[trigger] path[i]) by {}
    }
    request_is_understood(host, port, path, asker(v, platform), None, s, seq![]);
    crate::text::lemma_split_none(path, '?');
    assert("GET"@.len() == 3 && "POST"@.len() == 4);
    if holds_members(doc, blocked_members(s, other)) {
        block_is_understood(s, other, doc);
    }
}

/// The address `i` of the network of `my_ip`.
pub open spec fn address(my_ip: Seq<char>, i: nat) -> Seq<char> {
    let p = split(my_ip, '.');
    p[0] + "."@ + p[1] + "."@ + p[2] + "."@ + dec(i)
}

/// The last number of an address; 0 where it is none.
pub open spec fn last_number(my_ip: Seq<char>) -> nat {
    match parse_unsigned(split(my_ip, '.')[3], 10, 255) {
        Some(n) => n,
        None => 0,
    }
}

/// The addresses of the network from `from` up to but without `to`, without the
/// own one.
pub open spec fn addresses(my_ip: Seq<char>, from: int, to: int) -> Seq<Seq<char>>
    decreases to - from,
{
    if from >= to {
        seq![]
    } else if to - 1 == last_number(my_ip) {
        addresses(my_ip, from, to - 1)
    } else {
        addresses(my_ip, from, to - 1).push(address(my_ip, (to - 1) as nat))
    }
}

/// The end of the batch that starts at `from`.
pub open spec fn batch_end(from: int) -> int {
    if from + 32 <= 255 {
        from + 32
    } else {
        255
    }
}

/// The addresses in batches of 32 numbers, from the number `from` on.
pub open spec fn batches(my_ip: Seq<char>, from: int) -> Seq<Seq<Seq<char>>>
    decreases 255 - from,
{
    if from >= 255 {
        seq![]
    } else {
        seq![addresses(my_ip, from, batch_end(from))] + batches(my_ip, batch_end(from))
    }
}

/// The views of several lists of strings.
pub open spec fn list_views(v: Seq<Vec<String>>) -> Seq<Seq<Seq<char>>> {
    v.map_values(|l: Vec<String>| crate::http::string_views(l@))
}

fn address_batch(prefix: &str, own: u64, from: u64, to: u64, my_ip: Ghost<Seq<char>>) -> (r: Vec<
    String,
>)
    requires
        1 <= from <= to <= 255,
        own == last_number(my_ip@),
        prefix@ == split(my_ip@, '.')[0] + "."@ + split(my_ip@, '.')[1] + "."@ + split(
            my_ip@,
            '.',
        )[2] + "."@,
    ensures
        crate::http::string_views(r@) == addresses(my_ip@, from as int, to as int),
{
    let mut out: Vec<String> = Vec::new();
    let mut i: u64 = from;
    assert(crate::http::string_views(out@) =~= addresses(my_ip@, from as int, from as int));
    while i < to
        invariant
            from <= i <= to <= 255,
            own == last_number(my_ip@),
            prefix@ == split(my_ip@, '.')[0] + "."@ + split(my_ip@, '.')[1] + "."@ + split(
                my_ip@,
                '.',
            )[2] + "."@,
            crate::http::string_views(out@) == addresses(my_ip@, from as int, i as int),
        decreases to - i,
    {
        if i != own {
            let mut a = prefix.to_string();
            a.append(decimal(i).as_str());
            let ghost before = out@;
            let ghost av = a@;
            out.push(a);
            assert(crate::http::string_views(out@) =~= crate::http::string_views(before).push(av));
        }
        i = i + 1;
    }
    out
}

/// The addresses to ask in a search of the whole network of `my_ip`, in batches;
/// none where that is no address of four numbers.
pub fn sweep_addresses(my_ip: &str) -> (r: Vec<Vec<String>>)
    ensures
        list_views(r@) == (if split(my_ip@, '.').len() == 4 {
            batches(my_ip@, 1)
        } else {
            seq![]
        }),
{
    let parts = split_chars(&chars_of(my_ip), '.');
    let ghost p = texts(parts@);
    let mut out: Vec<Vec<String>> = Vec::new();
    assert(list_views(out@) =~= seq![]);
    if parts.len() != 4 {
        return out;
    }
    assert(p[0] == parts@[0]@ && p[1] == parts@[1]@ && p[2] == parts@[2]@ && p[3] == parts@[3]@);
    let mut prefix = string_of(&parts[0]);
    prefix.append(".");
    prefix.append(string_of(&parts[1]).as_str());
    prefix.append(".");
    prefix.append(string_of(&parts[2]).as_str());
    prefix.append(".");
    let own: u64 = match read_decimal(string_of(&parts[3]).as_str(), 255) {
        Some(n) => n,
        None => 0,
    };
    let mut from: u64 = 1;
    assert(list_views(out@) + batches(my_ip@, 1) =~= batches(my_ip@, 1));
    while from < 255
        invariant
            1 <= from <= 255,
            own == last_number(my_ip@),
            prefix@ == split(my_ip@, '.')[0] + "."@ + split(my_ip@, '.')[1] + "."@ + split(
                my_ip@,
                '.',
            )[2] + "."@,
            list_views(out@) + batches(my_ip@, from as int) == batches(my_ip@, 1),
        decreases 255 - from,
    {
        let to: u64 = if from + 32 <= 255 {
            from + 32
        } else {
            255
        };
        let b = address_batch(prefix.as_str(), own, from, to, Ghost(my_ip@));
        let ghost before = list_views(out@);
        let ghost bv = crate::http::string_views(b@);
        out.push(b);
        assert(list_views(out@) =~= before.push(bv));
        assert(before + (seq![bv] + batches(my_ip@, to as int)) =~= before.push(bv) + batches(
            my_ip@,
            to as int,
        ));
        from = to;
    }
    assert(list_views(out@) + Seq::<Seq<Seq<char>>>::empty() =~= list_views(out@));
    out
}

/// Every address of the network but the own one is asked.
pub proof fn sweep_asks_everyone(my_ip: Seq<char>, from: int, i: int)
    requires
        1 <= from <= i < 255,
        i != last_number(my_ip),
    ensures
        exists|b: int|
            0 <= b < batches(my_ip, from).len() && (#[trigger] batches(my_ip, from)[b]).contains(
                address(my_ip, i as nat),
            ),
    decreases 255 - from,
{
    let all = batches(my_ip, from);
    let end = batch_end(from);
    if i < end {
        lemma_addresses(my_ip, from, end, i);
        assert(all[0].contains(address(my_ip, i as nat)));
    } else {
        sweep_asks_everyone(my_ip, end, i);
        let rest = batches(my_ip, end);
        let b = choose|b: int|
            0 <= b < rest.len() && (#[trigger] rest[b]).contains(address(my_ip, i as nat));
        assert(all[b + 1] == rest[b]);
    }
}

proof fn lemma_addresses(my_ip: Seq<char>, from: int, to: int, i: int)
    requires
        0 <= from <= i < to,
        i != last_number(my_ip),
    ensures
        addresses(my_ip, from, to).contains(address(my_ip, i as nat)),
    decreases to - from,
{
    let all = addresses(my_ip, from, to);
    if i == to - 1 {
        assert(all.last() == address(my_ip, i as nat));
    } else {
        lemma_addresses(my_ip, from, to - 1, i);
        let less = addresses(my_ip, from, to - 1);
        let k = choose|k: int| 0 <= k < less.len() && less[k] == address(my_ip, i as nat);
        assert(all[k] == less[k]);
    }
}

/// Whether an address is one of the local network: not of this computer itself.
pub open spec fn is_local(ip: Seq<char>) -> bool {
    !matches_at(ip, 0, "0."@) && !matches_at(ip, 0, "127."@)
}

/// The address of this device in the local network, from the address from which
/// the system would send.
pub fn local_ip(ip: &str) -> (r: Option<String>)
    ensures
        opt_text(r) == (if is_local(ip@) {
            Some(ip@)
        } else {
            None
        }),
{
    let v = chars_of(ip);
    let zero = stands_at(&v, 0, &chars_of("0."));
    let own = stands_at(&v, 0, &chars_of("127."));
    if zero || own {
        None
    } else {
        Some(ip.to_string())
    }
}

// ---------- laws of finding devices ----------

/// An announcement is taken up where it names a device and a port, and the device is
/// neither this one nor shut out.
pub proof fn others_are_taken_up(v: SharedView, doc: Seq<u8>)
    ensures
        announces(v, doc) <==> {
            &&& text_member(doc, "deviceId"@) is Some
            &&& u64_member(doc, "port"@) is Some
            &&& text_member(doc, "deviceId"@)->0 != v.settings.device_id
            &&& !v.settings.blocked.contains_key(text_member(doc, "deviceId"@)->0)
            &&& !v.settings.blocked_by.contains(text_member(doc, "deviceId"@)->0)
        },
{
}

/// What is announced is what the device says of itself, at the address that it came
/// from; nobody is paired by an announcement.
pub proof fn announcements_tell_of_the_device(doc: Seq<u8>, ip: Seq<char>)
    ensures
        text_member(doc, "deviceId"@) is Some ==> Some(announced(doc, ip).device_id) == text_member(
            doc,
            "deviceId"@,
        ),
        text_member(doc, "name"@) is Some ==> Some(announced(doc, ip).name) == text_member(
            doc,
            "name"@,
        ),
        text_member(doc, "name"@) is None ==> announced(doc, ip).name == "未知设备"@,
        announced(doc, ip).model == text_member(doc, "model"@),
        announced(doc, ip).host == Some(ip),
        u64_member(doc, "port"@) matches Some(p) ==> (p < 65536 ==> announced(doc, ip).port == p),
        announced(doc, ip).sharing <==> bool_member(doc, "sharing"@) == Some(true),
        !announced(doc, ip).paired,
        announced(doc, ip).token is None,
{
}

/// What a device answers of itself is taken as it says, at the address and the port on
/// which it was asked; without a name it goes by its address.
pub proof fn answers_tell_of_the_device(doc: Seq<u8>, ip: Seq<char>, port: u16)
    ensures
        text_member(doc, "deviceId"@) is Some ==> Some(described(doc, ip, port).device_id)
            == text_member(doc, "deviceId"@),
        text_member(doc, "name"@) is Some ==> Some(described(doc, ip, port).name) == text_member(
            doc,
            "name"@,
        ),
        text_member(doc, "name"@) is None ==> described(doc, ip, port).name == ip,
        described(doc, ip, port).model == text_member(doc, "model"@),
        described(doc, ip, port).host == Some(ip),
        described(doc, ip, port).port == port,
        described(doc, ip, port).sharing <==> bool_member(doc, "sharing"@) == Some(true),
        !described(doc, ip, port).paired,
        described(doc, ip, port).token is None,
{
}

/// A device that was seen is known as it was seen, from now on; no other device is
/// touched, and neither are the settings.
pub proof fn seeing_touches_one_device(v: SharedView, d: DeviceView, now: u64, other: Seq<char>)
    requires
        other != d.device_id,
    ensures
        seen(v, d, now).discovered.contains_key(d.device_id),
        seen(v, d, now).discovered[d.device_id].device == d,
        seen(v, d, now).discovered[d.device_id].last_seen == now,
        seen(v, d, now).discovered.contains_key(other) == v.discovered.contains_key(other),
        v.discovered.contains_key(other) ==> seen(v, d, now).discovered[other]
            == v.discovered[other],
        seen(v, d, now).settings == v.settings,
{
}

/// A device that has blocked this one is known as such and seen no more.
pub proof fn blockers_are_known(v: SharedView, id: Seq<char>, other: Seq<char>)
    requires
        other != id,
    ensures
        known_blocker(v, id).settings.blocked_by.contains(id),
        !known_blocker(v, id).discovered.contains_key(id),
        known_blocker(v, id).settings.blocked_by.contains(other)
            == v.settings.blocked_by.contains(other),
        known_blocker(v, id).discovered.contains_key(other) == v.discovered.contains_key(other),
        known_blocker(v, id).settings.paired == v.settings.paired,
        known_blocker(v, id).settings.blocked == v.settings.blocked,
{
}

/// A device is asked on the port of this one first, and then on the usual one, and on
/// none twice.
pub proof fn usual_port_is_asked_too(port: u16)
    ensures
        ports(port)[0] == port,
        ports(port).contains(8765),
        ports(port).no_duplicates(),
        ports(port).len() <= 2,
{
    let p = ports(port);
    assert(p[p.len() - 1] == 8765);
}

/// What becomes of an answer at a typed address: another device that is not shut out
/// is found; one that is shut out ends the search; this device itself, or no device,
/// is passed over. A device that says it has blocked this one is remembered, and where
/// nobody answers the next port is asked.
pub proof fn typed_address_is_decided(v: SharedView, answer: Result<Seq<u8>, ErrView>)
    ensures
        answer matches Ok(doc) ==> {
            let id = text_member(doc, "deviceId"@);
            &&& id is None ==> add_step(v, answer) == ProbeStep::Next
            &&& id == Some(v.settings.device_id) ==> add_step(v, answer) == ProbeStep::Next
            &&& id is Some && id->0 != v.settings.device_id && (v.settings.blocked.contains_key(
                id->0,
            ) || v.settings.blocked_by.contains(id->0)) ==> add_step(v, answer) == ProbeStep::Stop
            &&& id is Some && id->0 != v.settings.device_id && !v.settings.blocked.contains_key(
                id->0,
            ) && !v.settings.blocked_by.contains(id->0) ==> add_step(v, answer) == ProbeStep::Found
        },
        answer is Err && answer->Err_0 is Blocked && answer->Err_0->Blocked_0 is Some
            && answer->Err_0->Blocked_0->0 != v.settings.device_id ==> add_step(v, answer)
            == ProbeStep::Changed,
        answer is Err && answer->Err_0 is Blocked && answer->Err_0->Blocked_0 == Some(
            v.settings.device_id,
        ) ==> add_step(v, answer) == ProbeStep::Stop,
        answer is Err && !(answer->Err_0 is Blocked) ==> add_step(v, answer) == ProbeStep::Next,
        answer is Err && answer->Err_0 is Blocked && answer->Err_0->Blocked_0 is None ==> add_step(
            v,
            answer,
        ) == ProbeStep::Next,
{
}

/// What becomes of an answer in the search of the network: another device that is not
/// shut out is found; any other answer ends the search at that address, and none means
/// that the next port is asked.
pub proof fn swept_address_is_decided(v: SharedView, answer: Result<Seq<u8>, ErrView>)
    ensures
        answer is Err ==> sweep_step(v, answer) == ProbeStep::Next,
        answer matches Ok(doc) ==> {
            let id = text_member(doc, "deviceId"@);
            &&& id is Some && id->0 != v.settings.device_id && !v.settings.blocked.contains_key(
                id->0,
            ) && !v.settings.blocked_by.contains(id->0) ==> sweep_step(v, answer)
                == ProbeStep::Found
            &&& id is None || id->0 == v.settings.device_id || v.settings.blocked.contains_key(
                id->0,
            ) || v.settings.blocked_by.contains(id->0) ==> sweep_step(v, answer) == ProbeStep::Stop
        },
{
}

proof fn lemma_four_parts(a: Seq<char>, b: Seq<char>, c: Seq<char>, d: Seq<char>)
    requires
        forall|i: int| 0 <= i < a.len() ==> a[i] != '.',
        forall|i: int| 0 <= i < b.len() ==> b[i] != '.',
        forall|i: int| 0 <= i < c.len() ==> c[i] != '.',
        forall|i: int| 0 <= i < d.len() ==> d[i] != '.',
    ensures
        split(a + "."@ + b + "."@ + c + "."@ + d, '.') == seq![a, b, c, d],
{
    reveal_strlit(".");
    let dot = seq!['.'];
    assert("."@ =~= dot);
    let s = a + "."@ + b + "."@ + c + "."@ + d;
    crate::text::splitting_goes_by_separators(c, d, '.');
    crate::text::splitting_goes_by_separators(d, d, '.');
    crate::text::splitting_goes_by_separators(b, c + dot + d, '.');
    crate::text::splitting_goes_by_separators(a, b + dot + (c + dot + d), '.');
    assert(s =~= a + dot + (b + dot + (c + dot + d)));
    assert(seq![a] + (seq![b] + (seq![c] + seq![d])) =~= seq![a, b, c, d]);
}

/// The addresses that are searched are those of the same network: of `a.b.c.n` they are
/// `a.b.c.1` to `a.b.c.254`, each of them but the own one, no more than 32 at a time.
pub proof fn whole_network_is_searched(a: Seq<char>, b: Seq<char>, c: Seq<char>, n: nat, i: int)
    requires
        forall|k: int| 0 <= k < a.len() ==> a[k] != '.',
        forall|k: int| 0 <= k < b.len() ==> b[k] != '.',
        forall|k: int| 0 <= k < c.len() ==> c[k] != '.',
        n <= 255,
        1 <= i <= 254,
        i != n,
    ensures
        ({
            let my_ip = a + "."@ + b + "."@ + c + "."@ + dec(n);
            let all = batches(my_ip, 1);
            &&& exists|k: int|
                0 <= k < all.len() && (#[trigger] all[k]).contains(
                    a + "."@ + b + "."@ + c + "."@ + dec(i as nat),
                )
            &&& forall|k: int| 0 <= k < all.len() ==> (#[trigger] all[k]).len() <= 32
            &&& forall|k: int| 0 <= k < all.len() ==> !(#[trigger] all[k]).contains(my_ip)
        }),
{
    let my_ip = a + "."@ + b + "."@ + c + "."@ + dec(n);
    crate::numbers::lemma_dec_value(n);
    lemma_four_parts(a, b, c, dec(n));
    crate::numbers::decimal_reads_back(n, 255);
    assert(last_number(my_ip) == n);
    assert(address(my_ip, i as nat) == a + "."@ + b + "."@ + c + "."@ + dec(i as nat));
    sweep_asks_everyone(my_ip, 1, i);
    lemma_batches(my_ip, 1, n);
}

proof fn lemma_batches(my_ip: Seq<char>, from: int, n: nat)
    requires
        1 <= from,
        last_number(my_ip) == n,
        address(my_ip, n) == my_ip,
    ensures
        forall|k: int|
            0 <= k < batches(my_ip, from).len() ==> (#[trigger] batches(my_ip, from)[k]).len() <= 32
                && !batches(my_ip, from)[k].contains(my_ip),
    decreases 255 - from,
{
    if from < 255 {
        let to = batch_end(from);
        lemma_batches(my_ip, to, n);
        lemma_own_left_out(my_ip, from, to, n);
        let all = batches(my_ip, from);
        let rest = batches(my_ip, to);
        assert forall|k: int| 0 <= k < all.len() implies (#[trigger] all[k]).len() <= 32
            && !all[k].contains(my_ip) by {
            if k > 0 {
                assert(all[k] == rest[k - 1]);
            }
        }
    }
}

proof fn lemma_own_left_out(my_ip: Seq<char>, from: int, to: int, n: nat)
    requires
        1 <= from <= to,
        last_number(my_ip) == n,
        address(my_ip, n) == my_ip,
    ensures
        addresses(my_ip, from, to).len() <= to - from,
        !addresses(my_ip, from, to).contains(my_ip),
    decreases to - from,
{
    if from < to {
        lemma_own_left_out(my_ip, from, to - 1, n);
        let before = addresses(my_ip, from, to - 1);
        let now = addresses(my_ip, from, to);
        if to - 1 != n {
            lemma_address_tells(my_ip, (to - 1) as nat, n);
            if now.contains(my_ip) {
                let k = choose|k: int| 0 <= k < now.len() && now[k] == my_ip;
                if k < before.len() {
                    assert(before[k] == my_ip);
                }
            }
        }
    }
}

proof fn lemma_address_tells(my_ip: Seq<char>, m: nat, n: nat)
    requires
        m != n,
    ensures
        address(my_ip, m) != address(my_ip, n),
{
    let p = split(my_ip, '.');
    let head = p[0] + "."@ + p[1] + "."@ + p[2] + "."@;
    if address(my_ip, m) == address(my_ip, n) {
        assert(address(my_ip, m) == head + dec(m));
        assert(address(my_ip, n) == head + dec(n));
        assert(dec(m) =~= (head + dec(m)).skip(head.len() as int));
        assert(dec(n) =~= (head + dec(n)).skip(head.len() as int));
        crate::numbers::lemma_dec_value(m);
        crate::numbers::lemma_dec_value(n);
    }
}

/// The address of this device is one of the network: none that starts with `0.` or
/// `127.`, and any other.
pub proof fn local_addresses_are_of_the_network(rest: Seq<char>, ip: Seq<char>)
    requires
        ip.len() > 0,
        ip[0] != '0',
        ip[0] != '1' || ip.len() < 4 || ip[1] != '2' || ip[2] != '7' || ip[3] != '.',
    ensures
        is_local(ip),
        !is_local("0."@ + rest),
        !is_local("127."@ + rest),
{
    reveal_strlit("0.");
    reveal_strlit("127.");
    let x = "0."@ + rest;
    let y = "127."@ + rest;
    assert(x.subrange(0, 2) =~= "0."@);
    assert(y.subrange(0, 4) =~= "127."@);
    if matches_at(ip, 0, "0."@) {
        assert(ip.subrange(0, 2)[0] == ip[0]);
    }
    if matches_at(ip, 0, "127."@) {
        let t = ip.subrange(0, 4);
        assert(t[0] == ip[0] && t[1] == ip[1] && t[2] == ip[2] && t[3] == ip[3]);
    }
}

} // verus!
