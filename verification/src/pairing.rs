//! What the user does about other devices: settings, pairing, blocking.

use crate::client::{
    err_text, notify_blocked, notify_unblocked, notify_unpair, Call, CallView, LanErr,
};
use crate::json::{bool_member, get_bool};
use crate::lan::{
    new_token, shut_out, token_number, BlockedInfo, BlockedView, DeviceView, LanDevice, LanSettings,
    LanShared, SettingsView, SharedView,
};
use crate::numbers::dec;
use crate::server::{content_refusal, from_blocked, header, opt_device};
use crate::text::{
    blank, chars_of, copy_text, lemma_trim_blank, opt_text, string_of, trim, trim_chars,
};
use vstd::prelude::*;
use vstd::string::*;

verus! {

// ---------- settings ----------

/// A change of the settings: what is absent stays as it is.
pub struct LanSettingsPatch {
    pub discoverable: Option<bool>,
    pub sharing: Option<bool>,
    pub auto_sync: Option<bool>,
    pub auto_accept_pair: Option<bool>,
    pub device_name: Option<String>,
    pub server_port: Option<u16>,
}

/// Settings after a change. A blank name and the port 0 change nothing.
pub open spec fn patched(s: SettingsView, p: LanSettingsPatch) -> SettingsView {
    SettingsView {
        discoverable: match p.discoverable {
            Some(v) => v,
            None => s.discoverable,
        },
        sharing: match p.sharing {
            Some(v) => v,
            None => s.sharing,
        },
        auto_sync: match p.auto_sync {
            Some(v) => v,
            None => s.auto_sync,
        },
        auto_accept_pair: match p.auto_accept_pair {
            Some(v) => v,
            None => s.auto_accept_pair,
        },
        device_name: match p.device_name {
            Some(n) => if blank(n@) {
                s.device_name
            } else {
                trim(n@)
            },
            None => s.device_name,
        },
        server_port: match p.server_port {
            Some(n) => if n > 0 {
                n
            } else {
                s.server_port
            },
            None => s.server_port,
        },
        ..s
    }
}

/// Changes the settings; whether the port is another now, so that the service
/// has to start anew.
pub fn lan_update_settings(s: &mut LanSettings, patch: LanSettingsPatch) -> (r: bool)
    ensures
        final(s)@ == patched(old(s)@, patch),
        r == (final(s)@.server_port != old(s)@.server_port),
{
    let mut port_changed = false;
    match patch.discoverable {
        Some(v) => {
            s.discoverable = v;
        },
        None => {},
    }
    match patch.sharing {
        Some(v) => {
            s.sharing = v;
        },
        None => {},
    }
    match patch.auto_sync {
        Some(v) => {
            s.auto_sync = v;
        },
        None => {},
    }
    match patch.auto_accept_pair {
        Some(v) => {
            s.auto_accept_pair = v;
        },
        None => {},
    }
    match &patch.device_name {
        Some(n) => {
            let t = trim_chars(&chars_of(n.as_str()));
            proof {
                lemma_trim_blank(n@);
            }
            if t.len() > 0 {
                s.device_name = string_of(&t);
            }
        },
        None => {},
    }
    match patch.server_port {
        Some(n) => if n > 0 && n != s.server_port {
            s.server_port = n;
            port_changed = true;
        },
        None => {},
    }
    port_changed
}

/// Makes a new pairing code of a random number and hands it over.
pub fn lan_regenerate_token(s: &mut LanSettings, random: u64) -> (r: String)
    ensures
        r@ == dec(token_number(random)),
        final(s)@ == (SettingsView { pairing_token: r@, ..old(s)@ }),
{
    let t = new_token(random);
    s.pairing_token = t.clone();
    t
}

/// With a new pairing code the old one is of no use any more.
pub proof fn new_token_ends_the_old(
    s: SettingsView,
    token: Seq<char>,
    h: Map<Seq<char>, Seq<char>>,
)
    requires
        token != s.pairing_token,
        header(h, "x-token"@) == Some(s.pairing_token),
    ensures
        content_refusal(SettingsView { pairing_token: token, ..s }, h) is Some,
{
}

// ---------- pairing ----------

/// What is known of a device: as it was seen, or else as it is paired.
pub open spec fn known_device(v: SharedView, id: Seq<char>) -> Option<DeviceView> {
    if v.discovered.contains_key(id) {
        Some(v.discovered[id].device)
    } else if v.settings.paired.contains_key(id) {
        Some(v.settings.paired[id])
    } else {
        None
    }
}

/// What is known of a device: as it was seen, or else as it is paired.
pub fn find_device(shared: &LanShared, id: &str) -> (r: Option<LanDevice>)
    ensures
        opt_device(r) == known_device(shared@, id@),
{
    match shared.discovered.get(id) {
        Some(d) => Some(d.device.clone()),
        None => match shared.settings.paired.get(id) {
            Some(p) => Some(p.clone()),
            None => None,
        },
    }
}

/// Why a device cannot be paired with; none where it can be asked.
pub open spec fn pair_obstacle(v: SharedView, id: Seq<char>) -> Option<Seq<char>> {
    if v.settings.blocked.contains_key(id) {
        Some("该设备在本机黑名单中，请先移出黑名单"@)
    } else if v.settings.blocked_by.contains(id) {
        Some("你已被对方拉黑，无法配对"@)
    } else {
        match known_device(v, id) {
            None => Some("设备不在线，请先刷新扫描"@),
            Some(d) => if d.host is None {
                Some("设备离线"@)
            } else {
                None
            },
        }
    }
}

/// The device to pair with, as it is to be asked what it is.
pub fn lan_pair(shared: &LanShared, id: &str) -> (r: Result<LanDevice, String>)
    ensures
        match r {
            Ok(d) => pair_obstacle(shared@, id@) is None && known_device(shared@, id@) == Some(d@),
            Err(e) => pair_obstacle(shared@, id@) == Some(e@),
        },
{
    if shared.settings.blocked.contains_key(id) {
        return Err("该设备在本机黑名单中，请先移出黑名单".to_string());
    }
    if shared.settings.blocked_by.contains(id) {
        return Err("你已被对方拉黑，无法配对".to_string());
    }
    match find_device(shared, id) {
        None => Err("设备不在线，请先刷新扫描".to_string()),
        Some(d) => match &d.host {
            None => Err("设备离线".to_string()),
            Some(_) => Ok(d),
        },
    }
}

/// What the user is told where the device to pair with does not answer.
pub fn pair_unreachable(e: &LanErr) -> (r: String)
    ensures
        r@ == "设备不在线，无法连接（"@ + err_text(e@) + "）"@,
{
    let mut t = "设备不在线，无法连接（".to_string();
    t.append(e.message().as_str());
    t.append("）");
    t
}

/// The device with the code that the user typed, as it is to be asked to pair.
/// Without a code that works only where the device, as the document `doc` says,
/// consents of itself.
pub fn pair_with_token(device: LanDevice, doc: &[u8], token: &str) -> (r: Result<LanDevice, String>)
    ensures
        match r {
            Ok(d) => {
                &&& !blank(token@) || bool_member(doc@, "autoAccept"@) == Some(true)
                &&& d@ == (DeviceView {
                    token: if blank(token@) {
                        None
                    } else {
                        Some(trim(token@))
                    },
                    ..device@
                })
            },
            Err(e) => {
                &&& blank(token@) && bool_member(doc@, "autoAccept"@) != Some(true)
                &&& e@ == "__need_token__"@
            },
        },
{
    let t = trim_chars(&chars_of(token));
    proof {
        lemma_trim_blank(token@);
    }
    let accepts = match get_bool(doc, "autoAccept") {
        Some(b) => b,
        None => false,
    };
    if t.len() == 0 && !accepts {
        return Err("__need_token__".to_string());
    }
    let mut d = device;
    d.token = if t.len() == 0 {
        None
    } else {
        Some(string_of(&t))
    };
    Ok(d)
}

/// The settings once another device has consented to pair.
pub open spec fn paired_as(
    s: SettingsView,
    id: Seq<char>,
    d: DeviceView,
    granted: Option<Seq<char>>,
) -> SettingsView {
    SettingsView {
        blocked: s.blocked.remove(id),
        paired: s.paired.insert(
            id,
            DeviceView {
                paired: true,
                token: match granted {
                    Some(t) => Some(t),
                    None => d.token,
                },
                ..d
            },
        ),
        ..s
    }
}

/// Keeps a device that has consented to pair, with the code that it handed over,
/// where it did.
pub fn pair_granted(s: &mut LanSettings, id: &str, device: LanDevice, granted: Option<String>)
    ensures
        final(s)@ == paired_as(old(s)@, id@, device@, opt_text(granted)),
{
    let mut d = device;
    match granted {
        Some(t) => {
            d.token = Some(t);
        },
        None => {},
    }
    d.paired = true;
    let _ = s.blocked.remove(id);
    s.paired.insert(id.to_string(), d);
}

/// Ends the pairing with a device; hands over what was kept of it, so that it
/// can be told.
pub fn lan_unpair(s: &mut LanSettings, id: &str) -> (r: Option<LanDevice>)
    ensures
        final(s)@ == (SettingsView { paired: old(s)@.paired.remove(id@), ..old(s)@ }),
        opt_device(r) == (if old(s)@.paired.contains_key(id@) {
            Some(old(s)@.paired[id@])
        } else {
            None
        }),
{
    s.paired.remove(id)
}

// ---------- blocking ----------

/// What is known of a device that is to be blocked, so that it can be told: its
/// newest address, with the code under which it is paired, where it is paired.
pub open spec fn device_to_tell(v: SharedView, id: Seq<char>) -> Option<DeviceView> {
    match known_device(v, id) {
        Some(d) => if v.settings.paired.contains_key(id) {
            Some(DeviceView { token: v.settings.paired[id].token, ..d })
        } else {
            Some(d)
        },
        None => None,
    }
}

/// What is kept of a device that is put on the block list.
pub open spec fn blocked_entry(d: Option<DeviceView>) -> BlockedView {
    match d {
        Some(d) => BlockedView {
            name: d.name,
            model: d.model,
            token: d.token,
            host: d.host,
            port: d.port,
        },
        None => BlockedView { name: seq![], model: None, token: None, host: None, port: 0 },
    }
}

/// The state once a device is on the block list: it is neither paired nor listed
/// any more.
pub open spec fn blocked_device(v: SharedView, id: Seq<char>) -> SharedView {
    SharedView {
        settings: SettingsView {
            paired: v.settings.paired.remove(id),
            blocked: v.settings.blocked.insert(id, blocked_entry(device_to_tell(v, id))),
            ..v.settings
        },
        discovered: v.discovered.remove(id),
        ..v
    }
}

/// What a device that was blocked is told: that the pairing has ended, where its
/// code is known, and that it is blocked.
pub open spec fn block_notices(d: Option<DeviceView>) -> Seq<CallView> {
    match d {
        Some(d) => match d.host {
            Some(h) => {
                let told = CallView {
                    host: h,
                    port: d.port,
                    path: "/blocked"@,
                    token: None,
                    timeout: 3,
                };
                if d.token is Some {
                    seq![
                        CallView {
                            host: h,
                            port: d.port,
                            path: "/unpair"@,
                            token: d.token,
                            timeout: 3,
                        },
                        told,
                    ]
                } else {
                    seq![told]
                }
            },
            None => seq![],
        },
        None => seq![],
    }
}

/// The views of several calls.
pub open spec fn call_views(v: Seq<Call>) -> Seq<CallView> {
    v.map_values(|c: Call| c@)
}

/// Puts a device on the block list; hands over what it is to be told.
pub fn lan_block(shared: &mut LanShared, id: &str) -> (r: Vec<Call>)
    ensures
        final(shared)@ == blocked_device(old(shared)@, id@),
        call_views(r@) == block_notices(device_to_tell(old(shared)@, id@)),
{
    let known = match (find_device(shared, id), shared.settings.paired.remove(id)) {
        (Some(d), Some(p)) => {
            let mut told = d;
            told.token = p.token;
            Some(told)
        },
        (found, _) => found,
    };
    let mut calls: Vec<Call> = Vec::new();
    match &known {
        Some(d) => {
            shared.settings.blocked.insert(
                id.to_string(),
                BlockedInfo {
                    name: d.name.clone(),
                    model: copy_text(&d.model),
                    token: copy_text(&d.token),
                    host: copy_text(&d.host),
                    port: d.port,
                },
            );
            match &d.host {
                Some(h) => {
                    if d.token.is_some() {
                        match notify_unpair(d) {
                            Some(c) => {
                                calls.push(c);
                            },
                            None => {},
                        }
                    }
                    calls.push(notify_blocked(h.as_str(), d.port));
                },
                None => {},
            }
        },
        None => {
            shared.settings.blocked.insert(id.to_string(), BlockedInfo::default());
        },
    }
    let _ = shared.discovered.remove(id);
    assert(call_views(calls@) =~= block_notices(device_to_tell(old(shared)@, id@)));
    calls
}

/// What a device that comes off the block list is told: that needs its address and
/// its pairing code.
pub open spec fn unblock_notice(s: SettingsView, id: Seq<char>) -> Option<CallView> {
    if s.blocked.contains_key(id) {
        let b = s.blocked[id];
        match (b.host, b.token) {
            (Some(h), Some(t)) => Some(
                CallView {
                    host: h,
                    port: b.port,
                    path: "/unblocked"@,
                    token: Some(t),
                    timeout: 3,
                },
            ),
            _ => None,
        }
    } else {
        None
    }
}

/// Takes a device off the block list; hands over what it is to be told.
pub fn lan_unblock(s: &mut LanSettings, id: &str) -> (r: Option<Call>)
    ensures
        final(s)@ == (SettingsView { blocked: old(s)@.blocked.remove(id@), ..old(s)@ }),
        crate::client::opt_call(r) == unblock_notice(old(s)@, id@),
{
    match s.blocked.remove(id) {
        Some(info) => notify_unblocked(&info),
        None => None,
    }
}

/// Whoever asks under the identity of a blocked device gets no content and is told that
/// it is blocked; the device itself is shut out of the lists, and cannot be paired with.
pub proof fn blocking_shuts_out(v: SharedView, id: Seq<char>, h: Map<Seq<char>, Seq<char>>)
    requires
        header(h, "x-device-id"@) == Some(id),
    ensures
        content_refusal(blocked_device(v, id).settings, h) is Some,
        from_blocked(blocked_device(v, id).settings, h),
        shut_out(blocked_device(v, id).settings, id),
        pair_obstacle(blocked_device(v, id), id) is Some,
{
}

/// Blocking a paired device keeps its pairing code, also where the device was seen
/// anew: with the code it is told that the pairing has ended, and later that it has
/// come off the block list.
pub proof fn blocking_keeps_the_code(v: SharedView, id: Seq<char>)
    requires
        v.settings.paired.contains_key(id),
        v.settings.paired[id].token is Some,
        known_device(v, id)->0.host is Some,
    ensures
        ({
            let d = known_device(v, id)->0;
            let t = v.settings.paired[id].token;
            let b = blocked_device(v, id).settings.blocked[id];
            let n = block_notices(device_to_tell(v, id));
            &&& b.token == t
            &&& b.host == d.host
            &&& b.port == d.port
            &&& n.len() == 2
            &&& n[0] == (CallView {
                host: d.host->0,
                port: d.port,
                path: "/unpair"@,
                token: t,
                timeout: 3,
            })
            &&& n[1] == (CallView {
                host: d.host->0,
                port: d.port,
                path: "/blocked"@,
                token: None,
                timeout: 3,
            })
            &&& unblock_notice(blocked_device(v, id).settings, id) == Some(
                CallView {
                    host: d.host->0,
                    port: d.port,
                    path: "/unblocked"@,
                    token: t,
                    timeout: 3,
                },
            )
        }),
{
}

/// Taking a device off the block list undoes having put it there: only the
/// pairing has to be made anew.
pub proof fn unblocking_undoes_blocking(v: SharedView, id: Seq<char>)
    requires
        !v.settings.blocked.contains_key(id),
    ensures
        ({
            let b = blocked_device(v, id).settings;
            (SettingsView { blocked: b.blocked.remove(id), ..b }) == (SettingsView {
                paired: v.settings.paired.remove(id),
                ..v.settings
            })
        }),
{
    let b = blocked_device(v, id).settings;
    assert(b.blocked.remove(id) =~= v.settings.blocked);
}

// ---------- laws of what the user does ----------

/// A change of the settings changes what it names and leaves the rest: a name is taken
/// without the white space around it, and only where something is left of it; a port
/// only where it is not 0.
pub proof fn changes_change_what_they_name(s: SettingsView, p: LanSettingsPatch)
    ensures
        patched(s, p).discoverable == (if p.discoverable is Some {
            p.discoverable->0
        } else {
            s.discoverable
        }),
        patched(s, p).sharing == (if p.sharing is Some {
            p.sharing->0
        } else {
            s.sharing
        }),
        patched(s, p).auto_sync == (if p.auto_sync is Some {
            p.auto_sync->0
        } else {
            s.auto_sync
        }),
        patched(s, p).auto_accept_pair == (if p.auto_accept_pair is Some {
            p.auto_accept_pair->0
        } else {
            s.auto_accept_pair
        }),
        p.device_name is None ==> patched(s, p).device_name == s.device_name,
        p.device_name matches Some(n) ==> {
            &&& trim(n@).len() > 0 ==> patched(s, p).device_name == trim(n@)
            &&& trim(n@).len() == 0 ==> patched(s, p).device_name == s.device_name
        },
        p.server_port is None || p.server_port == Some(0u16) ==> patched(s, p).server_port
            == s.server_port,
        p.server_port matches Some(n) ==> (n > 0 ==> patched(s, p).server_port == n),
        patched(s, p).device_id == s.device_id,
        patched(s, p).pairing_token == s.pairing_token,
        patched(s, p).paired == s.paired,
        patched(s, p).blocked == s.blocked,
        patched(s, p).blocked_by == s.blocked_by,
        patched(s, p).last_sync == s.last_sync,
{
    match p.device_name {
        Some(n) => {
            lemma_trim_blank(n@);
        },
        None => {},
    }
}

/// A device is known as it was last seen, or else as it was paired.
pub proof fn seen_devices_come_before_paired(v: SharedView, id: Seq<char>)
    ensures
        v.discovered.contains_key(id) ==> known_device(v, id) == Some(v.discovered[id].device),
        !v.discovered.contains_key(id) && v.settings.paired.contains_key(id) ==> known_device(v, id)
            == Some(v.settings.paired[id]),
        !v.discovered.contains_key(id) && !v.settings.paired.contains_key(id) ==> known_device(
            v,
            id,
        ) is None,
{
}

/// Nothing stands in the way of pairing with a device that neither side has blocked,
/// that is known and that has an address; else the user is told what does.
pub proof fn pairing_needs_an_address(v: SharedView, id: Seq<char>)
    ensures
        pair_obstacle(v, id) is None <==> {
            &&& !v.settings.blocked.contains_key(id)
            &&& !v.settings.blocked_by.contains(id)
            &&& known_device(v, id) is Some
            &&& known_device(v, id)->0.host is Some
        },
        v.settings.blocked.contains_key(id) ==> pair_obstacle(v, id) == Some(
            "该设备在本机黑名单中，请先移出黑名单"@,
        ),
        !v.settings.blocked.contains_key(id) && v.settings.blocked_by.contains(id) ==> pair_obstacle(
            v,
            id,
        ) == Some("你已被对方拉黑，无法配对"@),
        !v.settings.blocked.contains_key(id) && !v.settings.blocked_by.contains(id)
            && known_device(v, id) is None ==> pair_obstacle(v, id) == Some(
            "设备不在线，请先刷新扫描"@,
        ),
        !v.settings.blocked.contains_key(id) && !v.settings.blocked_by.contains(id)
            && known_device(v, id) is Some && known_device(v, id)->0.host is None ==> pair_obstacle(
            v,
            id,
        ) == Some("设备离线"@),
{
}

/// A device that has granted a pairing is kept with the code that it handed over, or
/// else the one that was typed; it is no longer blocked, and no other device is touched.
pub proof fn granted_code_is_kept(
    s: SettingsView,
    id: Seq<char>,
    d: DeviceView,
    granted: Option<Seq<char>>,
    other: Seq<char>,
)
    requires
        other != id,
    ensures
        ({
            let t = paired_as(s, id, d, granted);
            &&& t.paired.contains_key(id)
            &&& t.paired[id].paired
            &&& granted is Some ==> t.paired[id].token == granted
            &&& granted is None ==> t.paired[id].token == d.token
            &&& t.paired[id].host == d.host
            &&& t.paired[id].port == d.port
            &&& t.paired[id].name == d.name
            &&& t.paired[id].device_id == d.device_id
            &&& !t.blocked.contains_key(id)
            &&& t.paired.contains_key(other) == s.paired.contains_key(other)
            &&& s.paired.contains_key(other) ==> t.paired[other] == s.paired[other]
            &&& t.blocked.contains_key(other) == s.blocked.contains_key(other)
            &&& s.blocked.contains_key(other) ==> t.blocked[other] == s.blocked[other]
            &&& t.blocked_by == s.blocked_by
            &&& t.pairing_token == s.pairing_token
            &&& t.last_sync == s.last_sync
        }),
{
}

/// Blocking a device ends its pairing, takes it out of sight and remembers what is
/// known of it; no other device is touched.
pub proof fn blocking_touches_one_device(v: SharedView, id: Seq<char>, other: Seq<char>)
    requires
        other != id,
    ensures
        ({
            let b = blocked_device(v, id);
            &&& b.settings.blocked.contains_key(id)
            &&& !b.settings.paired.contains_key(id)
            &&& !b.discovered.contains_key(id)
            &&& known_device(v, id) matches Some(d) ==> b.settings.blocked[id].name == d.name
                && b.settings.blocked[id].model == d.model && b.settings.blocked[id].host == d.host
                && b.settings.blocked[id].port == d.port
            &&& known_device(v, id) is None ==> b.settings.blocked[id].name.len() == 0
                && b.settings.blocked[id].host is None && b.settings.blocked[id].token is None
                && b.settings.blocked[id].model is None && b.settings.blocked[id].port == 0
            &&& b.settings.paired.contains_key(other) == v.settings.paired.contains_key(other)
            &&& v.settings.paired.contains_key(other) ==> b.settings.paired[other]
                == v.settings.paired[other]
            &&& b.settings.blocked.contains_key(other) == v.settings.blocked.contains_key(other)
            &&& v.settings.blocked.contains_key(other) ==> b.settings.blocked[other]
                == v.settings.blocked[other]
            &&& b.discovered.contains_key(other) == v.discovered.contains_key(other)
            &&& b.settings.blocked_by == v.settings.blocked_by
            &&& b.settings.pairing_token == v.settings.pairing_token
        }),
{
}

/// A device that is blocked is told so where it has an address, and told before that
/// its pairing has ended where a code is kept of it; one that is let in again is told
/// so where both are known.
pub proof fn devices_are_told(d: DeviceView, s: SettingsView, id: Seq<char>)
    ensures
        d.host is None ==> block_notices(Some(d)).len() == 0,
        block_notices(None).len() == 0,
        d.host is Some && d.token is None ==> block_notices(Some(d)).len() == 1,
        d.host is Some && d.token is Some ==> {
            &&& block_notices(Some(d)).len() == 2
            &&& block_notices(Some(d))[0].path == "/unpair"@
            &&& block_notices(Some(d))[0].token == d.token
            &&& block_notices(Some(d))[0].host == d.host->0
            &&& block_notices(Some(d))[0].port == d.port
        },
        d.host is Some ==> {
            let last = block_notices(Some(d)).last();
            &&& last.path == "/blocked"@
            &&& last.token is None
            &&& last.host == d.host->0
            &&& last.port == d.port
        },
        unblock_notice(s, id) is Some <==> s.blocked.contains_key(id) && s.blocked[id].host is Some
            && s.blocked[id].token is Some,
        unblock_notice(s, id) matches Some(c) ==> {
            &&& c.path == "/unblocked"@
            &&& c.token == s.blocked[id].token
            &&& Some(c.host) == s.blocked[id].host
            &&& c.port == s.blocked[id].port
        },
{
}

} // verus!
