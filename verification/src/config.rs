//! The configuration of the program.

use crate::http::string_views;
use crate::lan::{join_path, joined, Platform};
use crate::text::{
    blank, chars_of, copy_text, find_last, last_at, lemma_trim_blank, lower, lowercase, opt_text,
    same, same_text, slice_of, string_of, trim, trim_chars, trimmed, white_space,
};
use vstd::prelude::*;
use vstd::string::*;

verus! {

/// What the user can set.
pub struct AppConfig {
    /// The keys that call the panel.
    pub hotkey: String,
    /// Whether the program starts with the system.
    pub autostart: bool,
    /// Whether it starts without showing the panel.
    pub silent_start: bool,
    /// The directory of the database; none for that of the program.
    pub db_dir: Option<String>,
    pub theme: String,
    pub font_family: String,
    pub font_size: u32,
    /// The programs in which nothing is recorded.
    pub exclude_apps: Vec<String>,
    /// How many clips that are not pinned are kept; 0 for all.
    pub max_items: i64,
    /// For how long clips are kept; 0 for ever.
    pub retention_value: u32,
    /// `hours`, `days`, `months` or `years`.
    pub retention_unit: String,
    /// Whether the clipboard is recorded.
    pub enabled: bool,
    /// Whether the panel comes back in the size that it had.
    pub remember_size: bool,
    pub window_width: u32,
    pub window_height: u32,
}

/// The view of the configuration.
#[verifier::ext_equal]
pub struct ConfigView {
    pub hotkey: Seq<char>,
    pub autostart: bool,
    pub silent_start: bool,
    pub db_dir: Option<Seq<char>>,
    pub theme: Seq<char>,
    pub font_family: Seq<char>,
    pub font_size: u32,
    pub exclude_apps: Seq<Seq<char>>,
    pub max_items: i64,
    pub retention_value: u32,
    pub retention_unit: Seq<char>,
    pub enabled: bool,
    pub remember_size: bool,
    pub window_width: u32,
    pub window_height: u32,
}

impl View for AppConfig {
    type V = ConfigView;

    open spec fn view(&self) -> ConfigView {
        ConfigView {
            hotkey: self.hotkey@,
            autostart: self.autostart,
            silent_start: self.silent_start,
            db_dir: opt_text(self.db_dir),
            theme: self.theme@,
            font_family: self.font_family@,
            font_size: self.font_size,
            exclude_apps: string_views(self.exclude_apps@),
            max_items: self.max_items,
            retention_value: self.retention_value,
            retention_unit: self.retention_unit@,
            enabled: self.enabled,
            remember_size: self.remember_size,
            window_width: self.window_width,
            window_height: self.window_height,
        }
    }
}

impl Clone for AppConfig {
    fn clone(&self) -> (r: Self)
        ensures
            r@ == self@,
    {
        let mut apps: Vec<String> = Vec::new();
        let ghost all = string_views(self.exclude_apps@);
        let mut i: usize = 0;
        assert(string_views(apps@) =~= all.take(0));
        while i < self.exclude_apps.len()
            invariant
                i <= self.exclude_apps@.len(),
                all == string_views(self.exclude_apps@),
                string_views(apps@) == all.take(i as int),
            decreases self.exclude_apps@.len() - i,
        {
            let ghost before = apps@;
            apps.push(self.exclude_apps[i].clone());
            assert(string_views(apps@) =~= string_views(before).push(all[i as int]));
            assert(all.take(i + 1) =~= all.take(i as int).push(all[i as int]));
            i = i + 1;
        }
        assert(all.take(i as int) =~= all);
        AppConfig {
            hotkey: self.hotkey.clone(),
            autostart: self.autostart,
            silent_start: self.silent_start,
            db_dir: copy_text(&self.db_dir),
            theme: self.theme.clone(),
            font_family: self.font_family.clone(),
            font_size: self.font_size,
            exclude_apps: apps,
            max_items: self.max_items,
            retention_value: self.retention_value,
            retention_unit: self.retention_unit.clone(),
            enabled: self.enabled,
            remember_size: self.remember_size,
            window_width: self.window_width,
            window_height: self.window_height,
        }
    }
}

/// The configuration before anything was set.
pub open spec fn first_config() -> ConfigView {
    ConfigView {
        hotkey: "Ctrl+`"@,
        autostart: false,
        silent_start: true,
        db_dir: None,
        theme: "dark"@,
        font_family: "Segoe UI, Microsoft YaHei, system-ui, sans-serif"@,
        font_size: 14,
        exclude_apps: seq![],
        max_items: 0,
        retention_value: 0,
        retention_unit: "days"@,
        enabled: true,
        remember_size: false,
        window_width: 420,
        window_height: 640,
    }
}

impl Default for AppConfig {
    fn default() -> (r: Self)
        ensures
            r@ == first_config(),
    {
        let r = AppConfig {
            hotkey: "Ctrl+`".to_string(),
            autostart: false,
            silent_start: true,
            db_dir: None,
            theme: "dark".to_string(),
            font_family: "Segoe UI, Microsoft YaHei, system-ui, sans-serif".to_string(),
            font_size: 14,
            exclude_apps: Vec::new(),
            max_items: 0,
            retention_value: 0,
            retention_unit: "days".to_string(),
            enabled: true,
            remember_size: false,
            window_width: 420,
            window_height: 640,
        };
        assert(r@.exclude_apps =~= seq![]);
        r
    }
}

/// The configuration to start with: the one that was stored, or else the first.
pub fn load_config(stored: Option<AppConfig>) -> (r: AppConfig)
    ensures
        r@ == (match stored {
            Some(c) => c@,
            None => first_config(),
        }),
{
    match stored {
        Some(c) => c,
        None => AppConfig::default(),
    }
}

// ---------- files ----------

/// Where the configuration is kept: beside the program.
pub fn config_file(exe_dir: &str, platform: Platform) -> (r: String)
    ensures
        r@ == joined(exe_dir@, "lscopy-config.json"@, platform),
{
    join_path(exe_dir, "lscopy-config.json", platform)
}

/// Where the database is kept.
pub open spec fn db_path(c: ConfigView, exe_dir: Seq<char>, platform: Platform) -> Seq<char> {
    let dir = match c.db_dir {
        Some(d) => if blank(d) {
            exe_dir
        } else {
            d
        },
        None => exe_dir,
    };
    joined(dir, "lscopy.db"@, platform)
}

/// Where the database is kept: in the directory that is set, unless it is blank,
/// or else beside the program.
pub fn effective_db_path(cfg: &AppConfig, exe_dir: &str, platform: Platform) -> (r: String)
    ensures
        r@ == db_path(cfg@, exe_dir@, platform),
{
    match &cfg.db_dir {
        Some(d) => {
            proof {
                lemma_trim_blank(d@);
            }
            if trim_chars(&chars_of(d.as_str())).len() > 0 {
                return join_path(d.as_str(), "lscopy.db", platform);
            }
        },
        None => {},
    }
    join_path(exe_dir, "lscopy.db", platform)
}

/// Whether another database is to be opened for a new configuration.
pub fn db_moved(before: &AppConfig, after: &AppConfig) -> (r: bool)
    ensures
        r == (before@.db_dir != after@.db_dir),
{
    !same_text(&before.db_dir, &after.db_dir)
}

// ---------- how long clips are kept ----------

/// The seconds of one unit of time; a day where the unit is not known.
pub open spec fn unit_seconds(unit: Seq<char>) -> int {
    if unit == "hours"@ {
        3600
    } else if unit == "months"@ {
        30int * 86400
    } else if unit == "years"@ {
        365int * 86400
    } else {
        86400
    }
}

/// The time before which clips expire; none where they are kept for ever.
pub open spec fn cutoff(c: ConfigView, now: int) -> Option<int> {
    if c.retention_value == 0 {
        None
    } else {
        Some(now - c.retention_value * unit_seconds(c.retention_unit))
    }
}

/// The time before which clips that are not pinned expire, all in seconds; none
/// where they are kept for ever.
pub fn retention_cutoff(cfg: &AppConfig, now: i64) -> (r: Option<i64>)
    requires
        now - u32::MAX * (365 * 86400) >= i64::MIN,
    ensures
        match cutoff(cfg@, now as int) {
            Some(t) => r is Some && r->0 == t,
            None => r is None,
        },
{
    if cfg.retention_value == 0 {
        return None;
    }
    let v: i64 = cfg.retention_value as i64;
    let name = cfg.retention_unit.as_str();
    let unit: i64 = if same(name, "hours") {
        3600
    } else if same(name, "months") {
        30 * 86400
    } else if same(name, "years") {
        365 * 86400
    } else {
        86400
    };
    assert(0 <= v * unit <= u32::MAX * (365 * 86400)) by (nonlinear_arith)
        requires
            0 <= v <= u32::MAX,
            0 <= unit <= 365 * 86400,
    ;
    Some(now - v * unit)
}

/// What expires never comes back: as time goes by, the time before which clips
/// expire does not go back.
pub proof fn cutoff_never_goes_back(c: ConfigView, now: int, later: int)
    requires
        now <= later,
        c.retention_value > 0,
    ensures
        cutoff(c, now)->0 <= cutoff(c, later)->0,
        cutoff(c, later)->0 < later,
{
    assert(c.retention_value * unit_seconds(c.retention_unit) > 0) by (nonlinear_arith)
        requires
            c.retention_value > 0,
            unit_seconds(c.retention_unit) > 0,
    ;
}

// ---------- programs in which nothing is recorded ----------

/// Whether an entry of the user's list means the program `name`: by its name, or
/// by its name without the ending.
pub open spec fn names_program(entry: Seq<char>, name: Seq<char>) -> bool {
    let e = lowercase(trim(entry));
    e.len() > 0 && (name == e || name == e + ".exe"@)
}

/// Whether nothing is recorded while the program `front` is in front.
pub open spec fn excluded(c: ConfigView, front: Option<Seq<char>>) -> bool {
    match front {
        Some(name) => exists|i: int|
            0 <= i < c.exclude_apps.len() && names_program(#[trigger] c.exclude_apps[i], name),
        None => false,
    }
}

/// Whether nothing is recorded while the program `front` is in front; its name is
/// in small letters.
pub fn is_excluded(cfg: &AppConfig, front: &Option<String>) -> (r: bool)
    ensures
        r == excluded(cfg@, opt_text(*front)),
{
    let name = match front {
        Some(n) => n.as_str(),
        None => {
            return false;
        },
    };
    let ghost apps = cfg@.exclude_apps;
    let mut i: usize = 0;
    while i < cfg.exclude_apps.len()
        invariant
            i <= cfg.exclude_apps@.len(),
            apps == string_views(cfg.exclude_apps@),
            apps == cfg@.exclude_apps,
            opt_text(*front) == Some(name@),
            forall|j: int| 0 <= j < i ==> !names_program(#[trigger] apps[j], name@),
        decreases cfg.exclude_apps@.len() - i,
    {
        let e = lower(trimmed(cfg.exclude_apps[i].as_str()).as_str());
        let mut exe = e.clone();
        exe.append(".exe");
        assert(apps[i as int] == cfg.exclude_apps@[i as int]@);
        if chars_of(e.as_str()).len() > 0 && (same(name, e.as_str()) || same(name, exe.as_str())) {
            assert(names_program(apps[i as int], name@));
            return true;
        }
        i = i + 1;
    }
    false
}

/// The name of a program from the path of its file, in small letters.
pub open spec fn program_name(path: Seq<char>) -> Seq<char> {
    lowercase(path.subrange(last_at(path, '\\') + 1, path.len() as int))
}

/// The name of the program in front, from the path of its file.
pub fn foreground_exe_name(path: &str) -> (r: String)
    ensures
        r@ == program_name(path@),
{
    let v = chars_of(path);
    let n: usize = v.len();
    let from: usize = match find_last(&v, '\\') {
        Some(at) => at + 1,
        None => 0,
    };
    let name = string_of(&slice_of(&v, from, n));
    lower(name.as_str())
}

// ---------- the size of the panel ----------

/// The configuration that is stored when the user saves: where the size of the
/// panel is remembered, it is the present one.
pub fn save_config(cfg: &mut AppConfig, size: Option<(u32, u32)>)
    ensures
        final(cfg)@ == (match size {
            Some((w, h)) => if old(cfg)@.remember_size {
                ConfigView { window_width: w, window_height: h, ..old(cfg)@ }
            } else {
                old(cfg)@
            },
            None => old(cfg)@,
        }),
{
    if cfg.remember_size {
        match size {
            Some((w, h)) => {
                cfg.window_width = w;
                cfg.window_height = h;
            },
            None => {},
        }
    }
}

/// Stores a size that the panel was given, where it is remembered; whether the
/// configuration is to be written.
pub fn keep_size(cfg: &mut AppConfig, pending: Option<(u32, u32)>) -> (r: bool)
    ensures
        r == (old(cfg)@.remember_size && pending is Some),
        final(cfg)@ == (match pending {
            Some((w, h)) => if r {
                ConfigView { window_width: w, window_height: h, ..old(cfg)@ }
            } else {
                old(cfg)@
            },
            None => old(cfg)@,
        }),
{
    match pending {
        Some((w, h)) => if cfg.remember_size {
            cfg.window_width = w;
            cfg.window_height = h;
            true
        } else {
            false
        },
        None => false,
    }
}

/// The size in which the panel comes back, where it is remembered.
pub fn restored_size(cfg: &AppConfig) -> (r: Option<(u32, u32)>)
    ensures
        r == (if cfg@.remember_size && cfg@.window_width > 0 && cfg@.window_height > 0 {
            Some((cfg@.window_width, cfg@.window_height))
        } else {
            None
        }),
{
    if cfg.remember_size && cfg.window_width > 0 && cfg.window_height > 0 {
        Some((cfg.window_width, cfg.window_height))
    } else {
        None
    }
}

// ---------- starting with the system ----------

/// What is to be done so that the program starts with the system, or does not.
#[derive(Clone, Copy, PartialEq, Eq, Structural, Debug)]
pub enum AutostartStep {
    Enable,
    Disable,
    Nothing,
}

/// What is to be done so that the program starts with the system as is wished,
/// `enabled` being whether it does so now.
pub fn apply_autostart(enable: bool, enabled: bool) -> (r: AutostartStep)
    ensures
        r == (if enable == enabled {
            AutostartStep::Nothing
        } else if enable {
            AutostartStep::Enable
        } else {
            AutostartStep::Disable
        }),
{
    if enable && !enabled {
        AutostartStep::Enable
    } else if !enable && enabled {
        AutostartStep::Disable
    } else {
        AutostartStep::Nothing
    }
}

/// Whether what is in the clipboard now is to be left alone when a configuration takes
/// the place of another: where it switches recording on, so that nothing copied while
/// it was off is recorded.
pub fn starts_recording(before: &AppConfig, after: &AppConfig) -> (r: bool)
    ensures
        r == (!before@.enabled && after@.enabled),
{
    !before.enabled && after.enabled
}

/// Switches recording on or off; whether what is in the clipboard now is to be
/// left alone, so that nothing copied while it was off is recorded.
pub fn set_recording_enabled(cfg: &mut AppConfig, enabled: bool) -> (r: bool)
    ensures
        final(cfg)@ == (ConfigView { enabled: enabled, ..old(cfg)@ }),
        r == enabled,
{
    cfg.enabled = enabled;
    enabled
}

/// What the icon of the program says.
pub fn tooltip(cfg: &AppConfig) -> (r: String)
    ensures
        r@ == "剪贴板管家 ("@ + cfg@.hotkey + ")"@,
{
    let mut t = "剪贴板管家 (".to_string();
    t.append(cfg.hotkey.as_str());
    t.append(")");
    t
}

// ---------- laws of the settings ----------

/// How long clips are kept: the number of hours, days, months of 30 days or years of
/// 365 days before now; for ever where the number is 0. An unknown unit is days.
pub proof fn retention_counts_its_unit(c: ConfigView, now: int)
    ensures
        c.retention_value == 0 ==> cutoff(c, now) is None,
        c.retention_value > 0 && c.retention_unit == "hours"@ ==> cutoff(c, now) == Some(
            now - 3600 * c.retention_value,
        ),
        c.retention_value > 0 && c.retention_unit == "days"@ ==> cutoff(c, now) == Some(
            now - 86400 * c.retention_value,
        ),
        c.retention_value > 0 && c.retention_unit == "months"@ ==> cutoff(c, now) == Some(
            now - 2592000 * c.retention_value,
        ),
        c.retention_value > 0 && c.retention_unit == "years"@ ==> cutoff(c, now) == Some(
            now - 31536000 * c.retention_value,
        ),
        c.retention_value > 0 && c.retention_unit != "hours"@ && c.retention_unit != "months"@
            && c.retention_unit != "years"@ ==> cutoff(c, now) == Some(
            now - 86400 * c.retention_value,
        ),
{
    reveal_strlit("hours");
    reveal_strlit("days");
    reveal_strlit("months");
    reveal_strlit("years");
    assert("hours"@[0] == 'h' && "days"@[0] == 'd' && "months"@[0] == 'm' && "years"@[0] == 'y');
    let v = c.retention_value as int;
    assert(v * (30int * 86400) == 2592000 * v) by (nonlinear_arith);
    assert(v * (365int * 86400) == 31536000 * v) by (nonlinear_arith);
    assert(unit_seconds("months"@) == 2592000);
    assert(unit_seconds("years"@) == 31536000);
    assert(v * 2592000 == 2592000 * v) by (nonlinear_arith);
    assert(v * 31536000 == 31536000 * v) by (nonlinear_arith);
}

/// Nothing is recorded in a program that an entry names, with or without its `.exe`,
/// whatever white space stands around the entry.
pub proof fn named_programs_are_left_out(
    c: ConfigView,
    i: int,
    before: Seq<char>,
    entry: Seq<char>,
    behind: Seq<char>,
)
    requires
        0 <= i < c.exclude_apps.len(),
        c.exclude_apps[i] == before + entry + behind,
        forall|j: int| 0 <= j < before.len() ==> white_space(#[trigger] before[j]),
        forall|j: int| 0 <= j < behind.len() ==> white_space(#[trigger] behind[j]),
        entry.len() > 0,
        !white_space(entry[0]),
        !white_space(entry.last()),
        lowercase(entry).len() > 0,
    ensures
        excluded(c, Some(lowercase(entry))),
        excluded(c, Some(lowercase(entry) + ".exe"@)),
{
    crate::text::white_space_around_is_cut(before, entry, behind);
    assert(names_program(c.exclude_apps[i], lowercase(entry)));
    assert(names_program(c.exclude_apps[i], lowercase(entry) + ".exe"@));
}

/// In a program that no entry names, recording goes on, and so it does where the
/// program is not known.
pub proof fn other_programs_are_recorded(c: ConfigView, name: Seq<char>)
    requires
        forall|i: int|
            0 <= i < c.exclude_apps.len() ==> {
                ||| lowercase(trim(#[trigger] c.exclude_apps[i])).len() == 0
                ||| name != lowercase(trim(c.exclude_apps[i])) && name != lowercase(
                    trim(c.exclude_apps[i]),
                ) + ".exe"@
            },
    ensures
        !excluded(c, Some(name)),
        !excluded(c, None),
{
}

/// The name of a program is what follows the last backslash of its path, in small
/// letters.
pub proof fn programs_go_by_their_file(d: Seq<char>, n: Seq<char>)
    requires
        forall|i: int| 0 <= i < n.len() ==> #[trigger] n[i] != '\\',
    ensures
        program_name(n) == lowercase(n),
        program_name(d + seq!['\\'] + n) == lowercase(n),
{
    let p = d + seq!['\\'] + n;
    let k = d.len() as int;
    crate::text::last_place_is_last(n, '\\');
    crate::text::last_place_is_last(p, '\\');
    assert(p[k] == '\\');
    if last_at(p, '\\') > k {
        assert(p[last_at(p, '\\')] == n[last_at(p, '\\') - k - 1]);
    }
    assert(p.subrange(k + 1, p.len() as int) =~= n);
    assert(n.subrange(0, n.len() as int) =~= n);
}

/// The database is in the directory that the settings name, and in that of the
/// program where they name none.
pub proof fn database_is_where_it_is_told(c: ConfigView, exe_dir: Seq<char>, platform: Platform)
    ensures
        c.db_dir is None ==> db_path(c, exe_dir, platform) == joined(
            exe_dir,
            "lscopy.db"@,
            platform,
        ),
        c.db_dir matches Some(d) ==> {
            &&& (forall|i: int| 0 <= i < d.len() ==> white_space(#[trigger] d[i])) ==> db_path(
                c,
                exe_dir,
                platform,
            ) == joined(exe_dir, "lscopy.db"@, platform)
            &&& (exists|i: int| 0 <= i < d.len() && !white_space(#[trigger] d[i])) ==> db_path(
                c,
                exe_dir,
                platform,
            ) == joined(d, "lscopy.db"@, platform)
        },
{
}

/// At first the clipboard is recorded, everything is kept, and the program neither
/// starts with the system nor shows its panel when it starts.
pub proof fn everything_is_kept_at_first()
    ensures
        first_config().enabled,
        first_config().max_items == 0,
        first_config().retention_value == 0,
        first_config().retention_unit == "days"@,
        !first_config().autostart,
        first_config().silent_start,
        first_config().db_dir is None,
        first_config().exclude_apps.len() == 0,
        !first_config().remember_size,
        first_config().window_width == 420,
        first_config().window_height == 640,
        first_config().font_size == 14,
        first_config().hotkey == "Ctrl+`"@,
        first_config().theme == "dark"@,
        first_config().font_family == "Segoe UI, Microsoft YaHei, system-ui, sans-serif"@,
{
}

} // verus!
