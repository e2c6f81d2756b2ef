//! The devices of the local network: what is kept of each, the settings, and
//! the state that the parts of the program share.

use crate::numbers::{hex, hexadecimal};
use crate::strmap::{StrMap, StrSet};
use crate::text::{
    blank, chars_of, copy_text, lemma_trim_blank, opt_text, string_of, trim, trim_chars,
};
use vstd::prelude::*;
use vstd::string::*;

verus! {

/// The port on which the service listens unless told otherwise.
pub const DEFAULT_PORT: u16 = 8765;

/// The port of broadcast announcements.
pub const BEACON_PORT: u16 = 8766;

/// The port of multicast announcements.
pub const MULTICAST_PORT: u16 = 8767;

/// The time between two announcements, in seconds.
pub const BEACON_INTERVAL: u64 = 3;

/// The time between two rounds of automatic synchronisation, in seconds.
pub const AUTO_SYNC_INTERVAL: u64 = 30;

/// For how long after its last announcement a device counts as online, in
/// milliseconds.
pub const ONLINE_WINDOW: u64 = 12000;

/// The least time between two notices of a change, in milliseconds.
pub const EMIT_INTERVAL: u64 = 1000;

/// The system that the program runs on.
#[derive(Clone, Copy, PartialEq, Eq, Structural, Debug)]
pub enum Platform {
    Windows,
    Mac,
    Other,
}

// ---------- devices ----------

/// A device of the local network: seen just now, or known as paired.
#[derive(Debug)]
pub struct LanDevice {
    pub device_id: String,
    pub name: String,
    pub model: Option<String>,
    pub host: Option<String>,
    pub port: u16,
    /// Whether it shares its clipboard.
    pub sharing: bool,
    /// Whether this device holds its pairing code.
    pub paired: bool,
    /// Its pairing code.
    pub token: Option<String>,
}

/// The view of a device.
#[verifier::ext_equal]
pub struct DeviceView {
    pub device_id: Seq<char>,
    pub name: Seq<char>,
    pub model: Option<Seq<char>>,
    pub host: Option<Seq<char>>,
    pub port: u16,
    pub sharing: bool,
    pub paired: bool,
    pub token: Option<Seq<char>>,
}

impl View for LanDevice {
    type V = DeviceView;

    open spec fn view(&self) -> DeviceView {
        DeviceView {
            device_id: self.device_id@,
            name: self.name@,
            model: opt_text(self.model),
            host: opt_text(self.host),
            port: self.port,
            sharing: self.sharing,
            paired: self.paired,
            token: opt_text(self.token),
        }
    }
}

impl Clone for LanDevice {
    fn clone(&self) -> (r: Self)
        ensures
            r == *self,
    {
        LanDevice {
            device_id: self.device_id.clone(),
            name: self.name.clone(),
            model: copy_text(&self.model),
            host: copy_text(&self.host),
            port: self.port,
            sharing: self.sharing,
            paired: self.paired,
            token: copy_text(&self.token),
        }
    }
}

impl Default for LanDevice {
    fn default() -> (r: Self)
        ensures
            r@ == (DeviceView {
                device_id: seq![],
                name: seq![],
                model: None,
                host: None,
                port: 0,
                sharing: false,
                paired: false,
                token: None,
            }),
    {
        let r = LanDevice {
            device_id: String::new(),
            name: String::new(),
            model: None,
            host: None,
            port: 0,
            sharing: false,
            paired: false,
            token: None,
        };
        assert(r.device_id@ =~= seq![]);
        assert(r.name@ =~= seq![]);
        r
    }
}

/// What is kept of a device on the block list: enough to show it, and to tell
/// it when it comes off the list.
#[derive(Debug)]
pub struct BlockedInfo {
    pub name: String,
    pub model: Option<String>,
    pub token: Option<String>,
    pub host: Option<String>,
    pub port: u16,
}

/// The view of an entry of the block list.
#[verifier::ext_equal]
pub struct BlockedView {
    pub name: Seq<char>,
    pub model: Option<Seq<char>>,
    pub token: Option<Seq<char>>,
    pub host: Option<Seq<char>>,
    pub port: u16,
}

impl View for BlockedInfo {
    type V = BlockedView;

    open spec fn view(&self) -> BlockedView {
        BlockedView {
            name: self.name@,
            model: opt_text(self.model),
            token: opt_text(self.token),
            host: opt_text(self.host),
            port: self.port,
        }
    }
}

impl Clone for BlockedInfo {
    fn clone(&self) -> (r: Self)
        ensures
            r == *self,
    {
        BlockedInfo {
            name: self.name.clone(),
            model: copy_text(&self.model),
            token: copy_text(&self.token),
            host: copy_text(&self.host),
            port: self.port,
        }
    }
}

impl Default for BlockedInfo {
    fn default() -> (r: Self)
        ensures
            r@ == (BlockedView { name: seq![], model: None, token: None, host: None, port: 0 }),
    {
        let r = BlockedInfo { name: String::new(), model: None, token: None, host: None, port: 0 };
        assert(r.name@ =~= seq![]);
        r
    }
}

/// A device that announced itself, and when it last did, in milliseconds.
#[derive(Debug)]
pub struct Discovered {
    pub device: LanDevice,
    pub last_seen: u64,
}

/// The view of a device that announced itself.
#[verifier::ext_equal]
pub struct DiscoveredView {
    pub device: DeviceView,
    pub last_seen: u64,
}

impl View for Discovered {
    type V = DiscoveredView;

    open spec fn view(&self) -> DiscoveredView {
        DiscoveredView { device: self.device@, last_seen: self.last_seen }
    }
}

// ---------- settings ----------

/// All that the program keeps of the local network.
pub struct LanSettings {
    /// Whether this device announces itself.
    pub discoverable: bool,
    /// Whether paired devices may fetch the clipboard of this one.
    pub sharing: bool,
    /// Whether the clipboards of paired devices are fetched from time to time.
    pub auto_sync: bool,
    /// Whether a request to pair is granted without asking.
    pub auto_accept_pair: bool,
    /// The identity of this device; it never changes once made.
    pub device_id: String,
    /// The name under which others see this device.
    pub device_name: String,
    /// The six digits that others need to fetch from this device.
    pub pairing_token: String,
    pub server_port: u16,
    /// The paired devices, by identity.
    pub paired: StrMap<LanDevice>,
    /// The devices that this one has blocked.
    pub blocked: StrMap<BlockedInfo>,
    /// The devices that have blocked this one.
    pub blocked_by: StrSet,
    /// The time of the newest clip fetched from each device, in milliseconds.
    pub last_sync: StrMap<i64>,
}

/// The view of the settings.
#[verifier::ext_equal]
pub struct SettingsView {
    pub discoverable: bool,
    pub sharing: bool,
    pub auto_sync: bool,
    pub auto_accept_pair: bool,
    pub device_id: Seq<char>,
    pub device_name: Seq<char>,
    pub pairing_token: Seq<char>,
    pub server_port: u16,
    pub paired: Map<Seq<char>, DeviceView>,
    pub blocked: Map<Seq<char>, BlockedView>,
    pub blocked_by: Set<Seq<char>>,
    pub last_sync: Map<Seq<char>, i64>,
}

impl View for LanSettings {
    type V = SettingsView;

    open spec fn view(&self) -> SettingsView {
        SettingsView {
            discoverable: self.discoverable,
            sharing: self.sharing,
            auto_sync: self.auto_sync,
            auto_accept_pair: self.auto_accept_pair,
            device_id: self.device_id@,
            device_name: self.device_name@,
            pairing_token: self.pairing_token@,
            server_port: self.server_port,
            paired: self.paired@,
            blocked: self.blocked@,
            blocked_by: self.blocked_by@,
            last_sync: self.last_sync@,
        }
    }
}

/// The settings before anything was set.
pub open spec fn first_settings() -> SettingsView {
    SettingsView {
        discoverable: false,
        sharing: false,
        auto_sync: false,
        auto_accept_pair: false,
        device_id: seq![],
        device_name: seq![],
        pairing_token: seq![],
        server_port: DEFAULT_PORT,
        paired: Map::empty(),
        blocked: Map::empty(),
        blocked_by: Set::empty(),
        last_sync: Map::empty(),
    }
}

impl Default for LanSettings {
    fn default() -> (r: Self)
        ensures
            r@ == first_settings(),
    {
        let r = LanSettings {
            discoverable: false,
            sharing: false,
            auto_sync: false,
            auto_accept_pair: false,
            device_id: String::new(),
            device_name: String::new(),
            pairing_token: String::new(),
            server_port: DEFAULT_PORT,
            paired: StrMap::new(),
            blocked: StrMap::new(),
            blocked_by: StrSet::new(),
            last_sync: StrMap::new(),
        };
        assert(r@ =~= first_settings());
        r
    }
}

/// Whether a device is on the block list of this one, or has this one on its own.
pub open spec fn shut_out(s: SettingsView, id: Seq<char>) -> bool {
    s.blocked.contains_key(id) || s.blocked_by.contains(id)
}

/// Whether a device is on the block list of this one, or has this one on its own.
pub fn is_shut_out(s: &LanSettings, id: &str) -> (r: bool)
    ensures
        r == shut_out(s@, id@),
{
    s.blocked.contains_key(id) || s.blocked_by.contains(id)
}

// ---------- names and numbers of a new device ----------

/// The identity made of two random numbers.
pub open spec fn device_id_text(a: u64, b: u64) -> Seq<char> {
    hex((a / 0x1_0000_0000) as nat, 8) + "-"@ + hex((a / 0x1_0000 % 0x1_0000) as nat, 4) + "-"@
        + hex((a % 0x1_0000) as nat, 4) + "-"@ + hex((b / 0x1_0000_0000_0000) as nat, 4) + "-"@
        + hex((b % 0x1_0000_0000_0000) as nat, 12)
}

/// The identity made of two random numbers.
pub fn new_device_id(a: u64, b: u64) -> (r: String)
    ensures
        r@ == device_id_text(a, b),
{
    let mut out = hexadecimal(a / 0x1_0000_0000, 8);
    out.append("-");
    out.append(hexadecimal(a / 0x1_0000 % 0x1_0000, 4).as_str());
    out.append("-");
    out.append(hexadecimal(a % 0x1_0000, 4).as_str());
    out.append("-");
    out.append(hexadecimal(b / 0x1_0000_0000_0000, 4).as_str());
    out.append("-");
    out.append(hexadecimal(b % 0x1_0000_0000_0000, 12).as_str());
    out
}

/// The pairing code made of a random number.
pub open spec fn token_number(r: u64) -> nat {
    (r % 900_000 + 100_000) as nat
}

/// The pairing code made of a random number: six digits, the first not zero.
pub fn new_token(random: u64) -> (r: String)
    ensures
        r@ == crate::numbers::dec(token_number(random)),
{
    crate::numbers::decimal(random % 900_000 + 100_000)
}

/// A pairing code has six digits.
pub proof fn token_has_six_digits(random: u64)
    ensures
        crate::numbers::dec(token_number(random)).len() == 6,
        forall|i: int|
            0 <= i < 6 ==> '0' <= #[trigger] crate::numbers::dec(token_number(random))[i] <= '9',
        crate::numbers::dec(token_number(random))[0] != '0',
{
    reveal_with_fuel(crate::numbers::dec, 7);
}

/// The name that a device has until it is given another.
pub open spec fn first_name(platform: Platform, computer: Option<Seq<char>>) -> Seq<char> {
    match platform {
        Platform::Windows => match computer {
            Some(n) => if blank(n) {
                "Windows 电脑"@
            } else {
                trim(n)
            },
            None => "Windows 电脑"@,
        },
        Platform::Mac => "Mac"@,
        Platform::Other => "我的电脑"@,
    }
}

/// The name that a device has until it is given another: on Windows the name of
/// the computer, where it has one.
pub fn default_device_name(platform: Platform, computer: &Option<String>) -> (r: String)
    ensures
        r@ == first_name(platform, opt_text(*computer)),
{
    match platform {
        Platform::Windows => match computer {
            Some(n) => {
                let t = trim_chars(&chars_of(n.as_str()));
                proof {
                    lemma_trim_blank(n@);
                }
                if t.len() == 0 {
                    "Windows 电脑".to_string()
                } else {
                    string_of(&t)
                }
            },
            None => "Windows 电脑".to_string(),
        },
        Platform::Mac => "Mac".to_string(),
        Platform::Other => "我的电脑".to_string(),
    }
}

/// What a device says that it is.
pub open spec fn model_text(platform: Platform) -> Seq<char> {
    match platform {
        Platform::Windows => "Windows PC"@,
        Platform::Mac => "Mac"@,
        Platform::Other => "PC"@,
    }
}

/// What a device says that it is.
pub fn device_model(platform: Platform) -> (r: String)
    ensures
        r@ == model_text(platform),
{
    match platform {
        Platform::Windows => "Windows PC".to_string(),
        Platform::Mac => "Mac".to_string(),
        Platform::Other => "PC".to_string(),
    }
}

// ---------- files ----------

/// Whether a path is a drive alone: a letter and a colon.
pub open spec fn is_drive(dir: Seq<char>) -> bool {
    dir.len() == 2 && ('a' <= dir[0] <= 'z' || 'A' <= dir[0] <= 'Z') && dir[1] == ':'
}

/// Whether a path on Windows is taken word for word: only `\\` separates its parts.
pub open spec fn is_verbatim(dir: Seq<char>) -> bool {
    dir.len() >= 4 && dir[0] == '\\' && dir[1] == '\\' && dir[2] == '?' && dir[3] == '\\'
}

/// Whether a directory's path already ends where a name can follow.
pub open spec fn takes_name(dir: Seq<char>, platform: Platform) -> bool {
    ||| dir.len() == 0
    ||| dir.last() == '/' && !(platform == Platform::Windows && is_verbatim(dir))
    ||| platform == Platform::Windows && dir.last() == '\\'
    ||| platform == Platform::Windows && is_drive(dir)
}

/// The path of the file `name` in the directory `dir`.
pub open spec fn joined(dir: Seq<char>, name: Seq<char>, platform: Platform) -> Seq<char> {
    if takes_name(dir, platform) {
        dir + name
    } else if platform == Platform::Windows {
        dir + "\\"@ + name
    } else {
        dir + "/"@ + name
    }
}

/// The path of the file `name` in the directory `dir`.
pub fn join_path(dir: &str, name: &str, platform: Platform) -> (r: String)
    ensures
        r@ == joined(dir@, name@, platform),
{
    let d = chars_of(dir);
    let n: usize = d.len();
    let mut out = dir.to_string();
    let windows = platform == Platform::Windows;
    let drive = n == 2 && (('a' <= d[0] && d[0] <= 'z') || ('A' <= d[0] && d[0] <= 'Z')) && d[1]
        == ':';
    let verbatim = n >= 4 && d[0] == '\\' && d[1] == '\\' && d[2] == '?' && d[3] == '\\';
    let ready = n == 0 || (d[n - 1] == '/' && !(windows && verbatim)) || (windows && d[n - 1] == '\\') || (windows && drive);
    if !ready {
        if windows {
            out.append("\\");
        } else {
            out.append("/");
        }
    }
    out.append(name);
    out
}

/// Where the settings of the local network are kept: beside the program.
pub fn settings_file(exe_dir: &str, platform: Platform) -> (r: String)
    ensures
        r@ == joined(exe_dir@, "lscopy-lan.json"@, platform),
{
    join_path(exe_dir, "lscopy-lan.json", platform)
}

/// Settings with what was missing in them filled in.
pub open spec fn completed(
    s: SettingsView,
    id: Seq<char>,
    name: Seq<char>,
    token: Seq<char>,
) -> SettingsView {
    SettingsView {
        device_id: if s.device_id.len() == 0 {
            id
        } else {
            s.device_id
        },
        device_name: if s.device_name.len() == 0 {
            name
        } else {
            s.device_name
        },
        pairing_token: if s.pairing_token.len() == 0 {
            token
        } else {
            s.pairing_token
        },
        server_port: if s.server_port == 0 {
            DEFAULT_PORT
        } else {
            s.server_port
        },
        ..s
    }
}

/// Whether something is missing in the settings.
pub open spec fn incomplete(s: SettingsView) -> bool {
    s.device_id.len() == 0 || s.device_name.len() == 0 || s.pairing_token.len() == 0
        || s.server_port == 0
}

fn is_empty(s: &String) -> (r: bool)
    ensures
        r == (s@.len() == 0),
{
    chars_of(s.as_str()).len() == 0
}

/// The settings to start with: those that were stored (the first ones where
/// nothing could be read), with what is missing filled in from two random
/// numbers for the identity, one for the code, and the name of the computer.
/// Also whether anything was filled in, so that they are to be stored.
pub fn load_settings(
    stored: Option<LanSettings>,
    random_id: (u64, u64),
    random_token: u64,
    platform: Platform,
    computer: &Option<String>,
) -> (r: (LanSettings, bool))
    ensures
        ({
            let s = match stored {
                Some(s) => s@,
                None => first_settings(),
            };
            &&& r.0@ == completed(
                s,
                device_id_text(random_id.0, random_id.1),
                first_name(platform, opt_text(*computer)),
                crate::numbers::dec(token_number(random_token)),
            )
            &&& r.1 == incomplete(s)
        }),
{
    let mut s = match stored {
        Some(s) => s,
        None => LanSettings::default(),
    };
    let mut dirty = false;
    if is_empty(&s.device_id) {
        s.device_id = new_device_id(random_id.0, random_id.1);
        dirty = true;
    }
    if is_empty(&s.device_name) {
        s.device_name = default_device_name(platform, computer);
        dirty = true;
    }
    if is_empty(&s.pairing_token) {
        s.pairing_token = new_token(random_token);
        dirty = true;
    }
    if s.server_port == 0 {
        s.server_port = DEFAULT_PORT;
        dirty = true;
    }
    (s, dirty)
}

/// A new name is never empty.
proof fn lemma_first_name(platform: Platform, computer: Option<Seq<char>>)
    ensures
        first_name(platform, computer).len() > 0,
{
    reveal_strlit("Windows 电脑");
    reveal_strlit("Mac");
    reveal_strlit("我的电脑");
    match computer {
        Some(n) => lemma_trim_blank(n),
        None => {},
    }
}

/// Settings that were once completed stay as they are at every later start,
/// whatever numbers and names come up there.
pub proof fn completed_settings_stay(
    s: SettingsView,
    a: u64,
    b: u64,
    random: u64,
    platform: Platform,
    computer: Option<Seq<char>>,
    id2: Seq<char>,
    name2: Seq<char>,
    token2: Seq<char>,
)
    ensures
        ({
            let done = completed(
                s,
                device_id_text(a, b),
                first_name(platform, computer),
                crate::numbers::dec(token_number(random)),
            );
            !incomplete(done) && completed(done, id2, name2, token2) == done
        }),
{
    lemma_first_name(platform, computer);
    token_has_six_digits(random);
    crate::numbers::lemma_hex_len((a / 0x1_0000_0000) as nat, 8);
}

// ---------- shared state ----------

/// The state that the parts of the program share.
pub struct LanShared {
    /// Where the settings are kept.
    pub file: String,
    pub settings: LanSettings,
    /// The devices that announced themselves, by identity.
    pub discovered: StrMap<Discovered>,
    /// The requests to pair that wait for the user: the number of the request
    /// by the identity of the device.
    pub pending_pairs: StrMap<u64>,
    pub server_running: bool,
    /// The port on which the service listens; 0 where it does not.
    pub actual_port: u16,
    /// The devices that are being synchronised.
    pub syncing: StrSet,
    /// When the last notice of a change was given, in milliseconds.
    pub last_emit: u64,
}

/// The view of the shared state.
#[verifier::ext_equal]
pub struct SharedView {
    pub file: Seq<char>,
    pub settings: SettingsView,
    pub discovered: Map<Seq<char>, DiscoveredView>,
    pub pending_pairs: Map<Seq<char>, u64>,
    pub server_running: bool,
    pub actual_port: u16,
    pub syncing: Set<Seq<char>>,
    pub last_emit: u64,
}

impl View for LanShared {
    type V = SharedView;

    open spec fn view(&self) -> SharedView {
        SharedView {
            file: self.file@,
            settings: self.settings@,
            discovered: self.discovered@,
            pending_pairs: self.pending_pairs@,
            server_running: self.server_running,
            actual_port: self.actual_port,
            syncing: self.syncing@,
            last_emit: self.last_emit,
        }
    }
}

impl LanShared {
    /// The state at the start, `now` being the time in milliseconds: nothing is
    /// seen, asked, running or being synchronised, and a notice may be given at once.
    pub fn new(file: String, settings: LanSettings, now: u64) -> (r: Self)
        requires
            now >= 10_000,
        ensures
            r@ == (SharedView {
                file: file@,
                settings: settings@,
                discovered: Map::empty(),
                pending_pairs: Map::empty(),
                server_running: false,
                actual_port: 0,
                syncing: Set::empty(),
                last_emit: (now - 10_000) as u64,
            }),
    {
        LanShared {
            file: file,
            settings: settings,
            discovered: StrMap::new(),
            pending_pairs: StrMap::new(),
            server_running: false,
            actual_port: 0,
            syncing: StrSet::new(),
            last_emit: now - 10_000,
        }
    }
}

/// The time that has gone by since `before`.
pub open spec fn elapsed(now: u64, before: u64) -> int {
    if now >= before {
        now - before
    } else {
        0
    }
}

/// The time that has gone by since `before`.
pub fn since(now: u64, before: u64) -> (r: u64)
    ensures
        r == elapsed(now, before),
{
    if now >= before {
        now - before
    } else {
        0
    }
}

/// Whether a notice of a change is to be given now: at most one a second.
pub fn emit_state_changed(shared: &mut LanShared, now: u64) -> (r: bool)
    ensures
        r == (elapsed(now, old(shared)@.last_emit) >= EMIT_INTERVAL),
        r == (now - old(shared)@.last_emit >= 1000),
        final(shared)@ == (SharedView {
            last_emit: if r {
                now
            } else {
                old(shared)@.last_emit
            },
            ..old(shared)@
        }),
{
    if since(now, shared.last_emit) < EMIT_INTERVAL {
        return false;
    }
    shared.last_emit = now;
    true
}

// ---------- the service ----------

/// What is to be done about the service when the settings have changed.
#[derive(Clone, Copy, PartialEq, Eq, Structural, Debug)]
pub enum ServiceStep {
    Start,
    Stop,
}

/// The service is needed for sharing, and for being found: a device that was
/// found is asked what it is.
pub fn apply_state(s: &LanSettings) -> (r: ServiceStep)
    ensures
        r == (if s@.sharing || s@.discoverable {
            ServiceStep::Start
        } else {
            ServiceStep::Stop
        }),
{
    if s.sharing || s.discoverable {
        ServiceStep::Start
    } else {
        ServiceStep::Stop
    }
}

/// Marks the service as running and hands over the port to listen on; nothing
/// where it already runs.
pub fn start_server(shared: &mut LanShared) -> (r: Option<u16>)
    ensures
        r == (if old(shared)@.server_running {
            None
        } else {
            Some(old(shared)@.settings.server_port)
        }),
        final(shared)@ == (SharedView { server_running: true, ..old(shared)@ }),
{
    if shared.server_running {
        return None;
    }
    shared.server_running = true;
    Some(shared.settings.server_port)
}

/// Takes note of the port on which the service listens, or that it could not be
/// started on any.
pub fn server_bound(shared: &mut LanShared, port: Option<u16>)
    ensures
        final(shared)@ == (match port {
            Some(p) => SharedView { actual_port: p, ..old(shared)@ },
            None => SharedView { server_running: false, ..old(shared)@ },
        }),
{
    match port {
        Some(p) => {
            shared.actual_port = p;
        },
        None => {
            shared.server_running = false;
        },
    }
}

/// Marks the service as stopped; hands over the port on which it is to be woken
/// so that it notices.
pub fn stop_server(shared: &mut LanShared) -> (r: Option<u16>)
    ensures
        r == (if old(shared)@.server_running && old(shared)@.actual_port > 0 {
            Some(old(shared)@.actual_port)
        } else {
            None
        }),
        final(shared)@ == (if old(shared)@.server_running {
            SharedView { server_running: false, actual_port: 0, ..old(shared)@ }
        } else {
            old(shared)@
        }),
{
    if !shared.server_running {
        return None;
    }
    shared.server_running = false;
    let port = shared.actual_port;
    shared.actual_port = 0;
    if port > 0 {
        Some(port)
    } else {
        None
    }
}

// ---------- laws of the devices ----------

/// A device is shut out exactly where one of the two has blocked the other.
pub proof fn blocking_either_way_shuts_out(s: SettingsView, id: Seq<char>)
    ensures
        s.blocked.contains_key(id) ==> shut_out(s, id),
        s.blocked_by.contains(id) ==> shut_out(s, id),
        !s.blocked.contains_key(id) && !s.blocked_by.contains(id) ==> !shut_out(s, id),
{
}

/// An identity has the form of five groups of hexadecimal digits, and tells the random
/// numbers that it was made of: two that differ give identities that differ.
pub proof fn identities_differ(a: u64, b: u64, c: u64, d: u64)
    ensures
        device_id_text(a, b).len() == 36,
        device_id_text(a, b)[8] == '-',
        device_id_text(a, b)[13] == '-',
        device_id_text(a, b)[18] == '-',
        device_id_text(a, b)[23] == '-',
        device_id_text(a, b) == device_id_text(c, d) ==> a == c && b == d,
{
    reveal_strlit("-");
    lemma_identity_groups(a, b);
    lemma_identity_groups(c, d);
    if device_id_text(a, b) == device_id_text(c, d) {
        lemma_hex_tells((a / 0x1_0000_0000) as nat, (c / 0x1_0000_0000) as nat, 8);
        lemma_hex_tells((a / 0x1_0000 % 0x1_0000) as nat, (c / 0x1_0000 % 0x1_0000) as nat, 4);
        lemma_hex_tells((a % 0x1_0000) as nat, (c % 0x1_0000) as nat, 4);
        lemma_hex_tells((b / 0x1_0000_0000_0000) as nat, (d / 0x1_0000_0000_0000) as nat, 4);
        lemma_hex_tells((b % 0x1_0000_0000_0000) as nat, (d % 0x1_0000_0000_0000) as nat, 12);
        lemma_whole_number(a);
        lemma_whole_number(c);
    }
}

proof fn lemma_whole_number(a: u64)
    ensures
        a == (a / 0x1_0000_0000) * 0x1_0000_0000 + (a / 0x1_0000 % 0x1_0000) * 0x1_0000 + a
            % 0x1_0000,
{
    assert(a / 0x1_0000_0000 == (a / 0x1_0000) / 0x1_0000);
}

proof fn lemma_hex_tells(m: nat, n: nat, width: nat)
    requires
        hex(m, width) == hex(n, width),
        m < vstd::arithmetic::power::pow(16, width),
        n < vstd::arithmetic::power::pow(16, width),
    ensures
        m == n,
{
    crate::numbers::hexadecimal_reads_back(m, width);
    crate::numbers::hexadecimal_reads_back(n, width);
}

proof fn lemma_identity_groups(a: u64, b: u64)
    ensures
        ({
            let t = device_id_text(a, b);
            &&& t.len() == 36
            &&& t[8] == '-' && t[13] == '-' && t[18] == '-' && t[23] == '-'
            &&& t.subrange(0, 8) == hex((a / 0x1_0000_0000) as nat, 8)
            &&& t.subrange(9, 13) == hex((a / 0x1_0000 % 0x1_0000) as nat, 4)
            &&& t.subrange(14, 18) == hex((a % 0x1_0000) as nat, 4)
            &&& t.subrange(19, 23) == hex((b / 0x1_0000_0000_0000) as nat, 4)
            &&& t.subrange(24, 36) == hex((b % 0x1_0000_0000_0000) as nat, 12)
        }),
        (a / 0x1_0000_0000) < vstd::arithmetic::power::pow(16, 8),
        (a / 0x1_0000 % 0x1_0000) < vstd::arithmetic::power::pow(16, 4),
        (a % 0x1_0000) < vstd::arithmetic::power::pow(16, 4),
        (b / 0x1_0000_0000_0000) < vstd::arithmetic::power::pow(16, 4),
        (b % 0x1_0000_0000_0000) < vstd::arithmetic::power::pow(16, 12),
{
    reveal_strlit("-");
    let t = device_id_text(a, b);
    let p = hex((a / 0x1_0000_0000) as nat, 8);
    let q = hex((a / 0x1_0000 % 0x1_0000) as nat, 4);
    let r = hex((a % 0x1_0000) as nat, 4);
    let u = hex((b / 0x1_0000_0000_0000) as nat, 4);
    let v = hex((b % 0x1_0000_0000_0000) as nat, 12);
    crate::numbers::lemma_hex_len((a / 0x1_0000_0000) as nat, 8);
    crate::numbers::lemma_hex_len((a / 0x1_0000 % 0x1_0000) as nat, 4);
    crate::numbers::lemma_hex_len((a % 0x1_0000) as nat, 4);
    crate::numbers::lemma_hex_len((b / 0x1_0000_0000_0000) as nat, 4);
    crate::numbers::lemma_hex_len((b % 0x1_0000_0000_0000) as nat, 12);
    assert(t.subrange(0, 8) =~= p);
    assert(t.subrange(9, 13) =~= q);
    assert(t.subrange(14, 18) =~= r);
    assert(t.subrange(19, 23) =~= u);
    assert(t.subrange(24, 36) =~= v);
    reveal_with_fuel(vstd::arithmetic::power::pow, 13);
    assert(vstd::arithmetic::power::pow(16, 4) == 0x1_0000);
    assert(vstd::arithmetic::power::pow(16, 8) == 0x1_0000_0000);
    assert(vstd::arithmetic::power::pow(16, 12) == 0x1_0000_0000_0000);
}

/// Every code of six digits that does not start with a zero can be drawn, and as often
/// as any other: numbers that are 900000 apart give the same code, and closer ones do
/// not.
pub proof fn every_code_can_be_drawn(n: u64, k: u64)
    requires
        100_000 <= n <= 999_999,
        k < 900_000,
    ensures
        token_number((n - 100_000) as u64) == n,
        n - 100_000 != k ==> token_number(k) != n,
{
}

/// What a device is first called is the name of the computer, without white space
/// around it, on Windows, and a name for its system where that is not known.
pub proof fn computers_keep_their_name(a: Seq<char>, n: Seq<char>, b: Seq<char>)
    requires
        forall|i: int| 0 <= i < a.len() ==> crate::text::white_space(#[trigger] a[i]),
        forall|i: int| 0 <= i < b.len() ==> crate::text::white_space(#[trigger] b[i]),
        n.len() > 0,
        !crate::text::white_space(n[0]),
        !crate::text::white_space(n.last()),
    ensures
        first_name(Platform::Windows, Some(a + n + b)) == n,
        first_name(Platform::Windows, Some(a)) == "Windows 电脑"@,
        first_name(Platform::Windows, None) == "Windows 电脑"@,
        first_name(Platform::Mac, Some(n)) == "Mac"@,
        first_name(Platform::Mac, None) == "Mac"@,
        first_name(Platform::Other, Some(n)) == "我的电脑"@,
        first_name(Platform::Other, None) == "我的电脑"@,
{
    crate::text::white_space_around_is_cut(a, n, b);
    assert((a + n + b)[a.len() as int] == n[0]);
    assert(!blank(a + n + b));
}

/// A path in a directory is the directory and the name with one separator between
/// them, that of the system; none is added to a directory that ends with one.
pub proof fn names_go_behind_the_separator(dir: Seq<char>, name: Seq<char>)
    requires
        dir.len() > 2,
    ensures
        dir.last() != '/' ==> joined(dir, name, Platform::Mac) == dir + seq!['/'] + name,
        dir.last() != '/' ==> joined(dir, name, Platform::Other) == dir + seq!['/'] + name,
        dir.last() == '/' ==> joined(dir, name, Platform::Mac) == dir + name,
        dir.last() == '/' ==> joined(dir, name, Platform::Other) == dir + name,
        dir.last() != '/' && dir.last() != '\\' ==> joined(dir, name, Platform::Windows) == dir
            + seq!['\\'] + name,
        dir.last() == '\\' ==> joined(dir, name, Platform::Windows) == dir + name,
        dir.last() == '/' && dir[0] != '\\' ==> joined(dir, name, Platform::Windows) == dir + name,
        joined(Seq::empty(), name, Platform::Other) == name,
        joined(seq![dir[0], ':'], name, Platform::Windows) == (if ('a' <= dir[0] && dir[0] <= 'z')
            || ('A' <= dir[0] && dir[0] <= 'Z') {
            seq![dir[0], ':'] + name
        } else {
            seq![dir[0], ':'] + seq!['\\'] + name
        }),
{
    reveal_strlit("/");
    reveal_strlit("\\");
    assert("/"@ =~= seq!['/']);
    assert("\\"@ =~= seq!['\\']);
    assert(Seq::<char>::empty() + name =~= name);
}

/// Settings that are there stay; only what is missing is filled in.
pub proof fn only_what_is_missing_is_filled_in(
    s: SettingsView,
    id: Seq<char>,
    name: Seq<char>,
    token: Seq<char>,
)
    ensures
        s.device_id.len() > 0 ==> completed(s, id, name, token).device_id == s.device_id,
        s.device_id.len() == 0 ==> completed(s, id, name, token).device_id == id,
        s.device_name.len() > 0 ==> completed(s, id, name, token).device_name == s.device_name,
        s.device_name.len() == 0 ==> completed(s, id, name, token).device_name == name,
        s.pairing_token.len() > 0 ==> completed(s, id, name, token).pairing_token
            == s.pairing_token,
        s.pairing_token.len() == 0 ==> completed(s, id, name, token).pairing_token == token,
        s.server_port != 0 ==> completed(s, id, name, token).server_port == s.server_port,
        s.server_port == 0 ==> completed(s, id, name, token).server_port == 8765,
        completed(s, id, name, token).paired == s.paired,
        completed(s, id, name, token).blocked == s.blocked,
        completed(s, id, name, token).blocked_by == s.blocked_by,
        completed(s, id, name, token).last_sync == s.last_sync,
        completed(s, id, name, token).sharing == s.sharing,
        completed(s, id, name, token).discoverable == s.discoverable,
        completed(s, id, name, token).auto_sync == s.auto_sync,
        completed(s, id, name, token).auto_accept_pair == s.auto_accept_pair,
        incomplete(s) <==> s.device_id.len() == 0 || s.device_name.len() == 0
            || s.pairing_token.len() == 0 || s.server_port == 0,
{
}

/// At first nothing is shared, announced, fetched or granted, and nobody is known.
pub proof fn nothing_is_shared_at_first()
    ensures
        !first_settings().sharing,
        !first_settings().discoverable,
        !first_settings().auto_sync,
        !first_settings().auto_accept_pair,
        first_settings().paired == Map::<Seq<char>, DeviceView>::empty(),
        first_settings().blocked == Map::<Seq<char>, BlockedView>::empty(),
        first_settings().server_port == 8765,
{
}

/// The time that has gone by is the difference, and none where the clock was set back.
pub proof fn time_goes_by(before: u64, gone: u64)
    ensures
        before + gone <= u64::MAX ==> elapsed((before + gone) as u64, before) == gone,
        gone > before ==> elapsed(before, gone) == 0,
{
}

/// What a device says that it is goes by its system.
pub proof fn models_go_by_the_system()
    ensures
        model_text(Platform::Windows) == "Windows PC"@,
        model_text(Platform::Mac) == "Mac"@,
        model_text(Platform::Other) == "PC"@,
{
}

} // verus!
