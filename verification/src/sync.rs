//! Fetching the clips of other devices.

use crate::client::{ErrView, LanErr};
use crate::hashing::{content_hash, hash_bytes, hash_column, stored_hash};
use crate::imaging::{as_png, transcode_png};
use crate::json::{documents, get_i64, get_text, get_u64, i64_member, text_member, u64_member};
use crate::lan::{
    is_shut_out, join_path, joined, shut_out, DeviceView, LanDevice, LanSettings, LanShared,
    Platform, SettingsView, SharedView,
};
use crate::numbers::{dec, dec_int, decimal, decimal_i64};
use crate::pairing::{find_device, known_device};
use crate::server::{WIRE_IMAGE, WIRE_TEXT};
use crate::store::{NewClip, NewClipView};
use crate::text::{
    ascii_alphanumeric, ascii_lower, chars_of, copy_text, find_last, is_ascii_alphanumeric, last_at,
    opt_text, same, slice_of, string_of,
};
use vstd::prelude::*;
use vstd::string::*;
use vstd::utf8::*;

verus! {

/// The largest file that is fetched from another device.
pub const MAX_REMOTE_FILE: u64 = 104857600;

/// Whether the table of the clips has the columns of their origin.
pub const PROBE_REMOTE: &'static str = "SELECT remote_device_id, remote_id FROM clips LIMIT 1";

/// Adds the columns that say where a clip came from.
pub const ADD_REMOTE: &'static str =
    "ALTER TABLE clips ADD COLUMN remote_device_id TEXT; ALTER TABLE clips ADD COLUMN remote_id INTEGER;";

// ---------- which device ----------

/// Why a device cannot be synchronised; none where it can be asked.
pub open spec fn sync_obstacle(v: SharedView, id: Seq<char>) -> Option<ErrView> {
    if shut_out(v.settings, id) {
        Some(ErrView::Blocked(None))
    } else if !v.settings.paired.contains_key(id) || v.settings.paired[id].token is None {
        Some(ErrView::NeedPairing)
    } else if known_device(v, id)->0.host is None {
        Some(ErrView::Net("设备离线"@))
    } else {
        None
    }
}

/// The device as it is to be asked: with the address at which it was last seen,
/// and the code that was kept when it was paired.
pub open spec fn sync_target(v: SharedView, id: Seq<char>) -> DeviceView {
    DeviceView { token: v.settings.paired[id].token, ..known_device(v, id)->0 }
}

/// The device to synchronise with, and the time of the newest clip fetched from
/// it so far, in milliseconds. From then on it counts as being synchronised.
pub fn sync_device(shared: &mut LanShared, id: &str) -> (r: Result<(LanDevice, i64), LanErr>)
    ensures
        match r {
            Ok((d, since)) => {
                &&& sync_obstacle(old(shared)@, id@) is None
                &&& d@ == sync_target(old(shared)@, id@)
                &&& since == last_fetched(old(shared)@.settings, id@)
                &&& final(shared)@ == (SharedView {
                    syncing: old(shared)@.syncing.insert(id@),
                    ..old(shared)@
                })
            },
            Err(e) => sync_obstacle(old(shared)@, id@) == Some(e@) && final(shared)@ == old(
                shared,
            )@,
        },
{
    if is_shut_out(&shared.settings, id) {
        return Err(LanErr::Blocked(None));
    }
    let token = match shared.settings.paired.get(id) {
        Some(p) => copy_text(&p.token),
        None => None,
    };
    match token {
        None => Err(LanErr::NeedPairing),
        Some(t) => match find_device(shared, id) {
            None => Err(LanErr::Net("设备离线".to_string())),
            Some(d) => match &d.host {
                None => Err(LanErr::Net("设备离线".to_string())),
                Some(_) => {
                    let mut d = d;
                    d.token = Some(t);
                    let since: i64 = match shared.settings.last_sync.get(id) {
                        Some(n) => *n,
                        None => 0,
                    };
                    shared.syncing.insert(id.to_string());
                    Ok((d, since))
                },
            },
        },
    }
}

/// The time of the newest clip that was fetched from a device.
pub open spec fn last_fetched(s: SettingsView, id: Seq<char>) -> i64 {
    if s.last_sync.contains_key(id) {
        s.last_sync[id]
    } else {
        0
    }
}

/// A device does not count as being synchronised any more.
pub fn sync_over(shared: &mut LanShared, id: &str)
    ensures
        final(shared)@ == (SharedView {
            syncing: old(shared)@.syncing.remove(id@),
            ..old(shared)@
        }),
{
    shared.syncing.remove(id);
}

/// Takes note that the clips could not be fetched: a device that has ended the
/// pairing is not kept as paired here either. Whether the settings have changed.
pub fn sync_failed(s: &mut LanSettings, id: &str, e: &LanErr) -> (r: bool)
    ensures
        r == (e@ is Unpaired),
        final(s)@ == (if r {
            SettingsView { paired: old(s)@.paired.remove(id@), ..old(s)@ }
        } else {
            old(s)@
        }),
{
    match e {
        LanErr::Unpaired => {
            let _ = s.paired.remove(id);
            true
        },
        _ => false,
    }
}

// ---------- what was fetched ----------

/// The time of a clip, in milliseconds.
pub open spec fn clip_time(doc: Seq<u8>) -> i64 {
    match i64_member(doc, "timestamp"@) {
        Some(t) => t,
        None => 0,
    }
}

/// The newest of the times of some clips and of `since`.
pub open spec fn newest(docs: Seq<Seq<u8>>, since: i64) -> i64
    decreases docs.len(),
{
    if docs.len() == 0 {
        since
    } else {
        let n = newest(docs.drop_last(), since);
        let t = clip_time(docs.last());
        if t > n {
            t
        } else {
            n
        }
    }
}

fn newest_time(docs: &Vec<Vec<u8>>, since: i64) -> (r: i64)
    ensures
        r == newest(documents(docs@), since),
{
    let ghost all = documents(docs@);
    let mut max: i64 = since;
    let mut i: usize = 0;
    while i < docs.len()
        invariant
            i <= docs@.len(),
            all == documents(docs@),
            max == newest(all.take(i as int), since),
        decreases docs@.len() - i,
    {
        let t: i64 = match get_i64(docs[i].as_slice(), "timestamp") {
            Some(t) => t,
            None => 0,
        };
        assert(all.take(i + 1).drop_last() =~= all.take(i as int));
        assert(all.take(i + 1).last() == docs@[i as int]@);
        if t > max {
            max = t;
        }
        i = i + 1;
    }
    assert(all.take(i as int) =~= all);
    max
}

/// What came of a synchronisation: how many clips were added, and how many were not.
#[derive(Clone, Copy, PartialEq, Eq, Structural, Debug)]
pub struct SyncResult {
    pub added: usize,
    pub skipped: usize,
}

/// How many of some outcomes say that a clip was added.
pub open spec fn count_added(v: Seq<bool>) -> nat
    decreases v.len(),
{
    if v.len() == 0 {
        0
    } else {
        count_added(v.drop_last()) + (if v.last() {
            1nat
        } else {
            0
        })
    }
}

proof fn lemma_count_added(v: Seq<bool>)
    ensures
        count_added(v) <= v.len(),
    decreases v.len(),
{
    if v.len() > 0 {
        lemma_count_added(v.drop_last());
    }
}

/// Closes a synchronisation: `added` says of each fetched clip whether it was
/// added. The next one asks for what is newer than the newest clip.
pub fn sync_device_inner(
    s: &mut LanSettings,
    id: &str,
    since: i64,
    docs: &Vec<Vec<u8>>,
    added: &Vec<bool>,
) -> (r: SyncResult)
    requires
        docs@.len() == added@.len(),
    ensures
        r.added == count_added(added@),
        r.added + r.skipped == docs@.len(),
        final(s)@ == (SettingsView {
            last_sync: old(s)@.last_sync.insert(id@, newest(documents(docs@), since)),
            ..old(s)@
        }),
{
    let mut n: usize = 0;
    let mut i: usize = 0;
    while i < added.len()
        invariant
            i <= added@.len(),
            n == count_added(added@.take(i as int)),
            n <= i,
        decreases added@.len() - i,
    {
        assert(added@.take(i + 1).drop_last() =~= added@.take(i as int));
        if added[i] {
            n = n + 1;
        }
        i = i + 1;
    }
    assert(added@.take(i as int) =~= added@);
    proof {
        lemma_count_added(added@);
    }
    let max = newest_time(docs, since);
    s.last_sync.insert(id.to_string(), max);
    SyncResult { added: n, skipped: docs.len() - n }
}

/// What the user is told of a synchronisation.
pub fn lan_sync_now(r: SyncResult) -> (t: String)
    ensures
        t@ == "同步完成：新增 "@ + dec(r.added as nat) + " 条，跳过 "@ + dec(r.skipped as nat) + " 条"@,
{
    let mut t = "同步完成：新增 ".to_string();
    t.append(decimal(r.added as u64).as_str());
    t.append(" 条，跳过 ");
    t.append(decimal(r.skipped as u64).as_str());
    t.append(" 条");
    t
}

/// What was fetched up to never goes back.
pub proof fn newest_never_goes_back(docs: Seq<Seq<u8>>, since: i64)
    ensures
        newest(docs, since) >= since,
        forall|i: int| 0 <= i < docs.len() ==> clip_time(#[trigger] docs[i]) <= newest(docs, since),
    decreases docs.len(),
{
    if docs.len() > 0 {
        newest_never_goes_back(docs.drop_last(), since);
        assert forall|i: int| 0 <= i < docs.len() implies clip_time(#[trigger] docs[i]) <= newest(
            docs,
            since,
        ) by {
            if i < docs.len() - 1 {
                assert(docs.drop_last()[i] == docs[i]);
            }
        }
    }
}

// ---------- one clip ----------

/// The time of a clip in seconds; the beginning of time for one before that.
pub open spec fn seconds(ms: i64) -> i64 {
    if ms >= 0 {
        (ms / 1000) as i64
    } else {
        0
    }
}

/// The kind of a fetched clip.
pub open spec fn wire_kind(doc: Seq<u8>) -> i64 {
    match i64_member(doc, "type"@) {
        Some(k) => k,
        None => WIRE_TEXT,
    }
}

/// The size that a fetched clip gives for its file; 0 where it gives none.
pub open spec fn file_size(doc: Seq<u8>) -> u64 {
    match u64_member(doc, "fileSize"@) {
        Some(n) => n,
        None => 0,
    }
}

/// What is to be done about a fetched clip.
pub enum ImportView {
    /// Nothing.
    Skip,
    /// It is stored as it is.
    Store(NewClipView),
    /// The file of the clip of this number is fetched first.
    Fetch(i64),
}

/// What is to be done about a fetched clip: one that came from this device, an
/// empty one, and one whose file is too large are left alone.
pub open spec fn import_step(doc: Seq<u8>, my_id: Seq<char>) -> ImportView {
    if text_member(doc, "remoteDeviceId"@) == Some(my_id) {
        ImportView::Skip
    } else if wire_kind(doc) == WIRE_TEXT {
        match text_member(doc, "text"@) {
            Some(t) => if t.len() == 0 {
                ImportView::Skip
            } else {
                ImportView::Store(
                    NewClipView {
                        kind: "text"@,
                        content: Some(t),
                        image: None,
                        width: None,
                        height: None,
                        hash: stored_hash(content_hash(encode_utf8(t))),
                        created_at: Some(seconds(clip_time(doc))),
                        remote_device_id: text_member(doc, "remoteDeviceId"@),
                        remote_id: i64_member(doc, "remoteId"@),
                    },
                )
            },
            None => ImportView::Skip,
        }
    } else if text_member(doc, "fileName"@) is None || file_size(doc) > MAX_REMOTE_FILE {
        ImportView::Skip
    } else {
        match i64_member(doc, "id"@) {
            Some(id) => ImportView::Fetch(id),
            None => ImportView::Skip,
        }
    }
}

/// What is to be done about a fetched clip.
pub enum ImportStep {
    Skip,
    Store(NewClip),
    Fetch(i64),
}

impl View for ImportStep {
    type V = ImportView;

    open spec fn view(&self) -> ImportView {
        match self {
            ImportStep::Skip => ImportView::Skip,
            ImportStep::Store(c) => ImportView::Store(c@),
            ImportStep::Fetch(id) => ImportView::Fetch(*id),
        }
    }
}

fn time_of(doc: &[u8]) -> (r: i64)
    ensures
        r == clip_time(doc@),
{
    match get_i64(doc, "timestamp") {
        Some(t) => t,
        None => 0,
    }
}

fn seconds_of(ms: i64) -> (r: i64)
    ensures
        r == seconds(ms),
{
    if ms >= 0 {
        ms / 1000
    } else {
        0
    }
}

fn kind_of(doc: &[u8]) -> (r: i64)
    ensures
        r == wire_kind(doc@),
{
    match get_i64(doc, "type") {
        Some(k) => k,
        None => WIRE_TEXT,
    }
}

fn size_of(doc: &[u8]) -> (r: u64)
    ensures
        r == file_size(doc@),
{
    match get_u64(doc, "fileSize") {
        Some(n) => n,
        None => 0,
    }
}

/// What is to be done about a fetched clip.
pub fn import_clip(doc: &[u8], my_id: &str) -> (r: ImportStep)
    ensures
        r@ == import_step(doc@, my_id@),
{
    let from = get_text(doc, "remoteDeviceId");
    let own = match &from {
        Some(d) => same(d.as_str(), my_id),
        None => false,
    };
    if own {
        return ImportStep::Skip;
    }
    if kind_of(doc) == WIRE_TEXT {
        let text = match get_text(doc, "text") {
            Some(t) => t,
            None => {
                return ImportStep::Skip;
            },
        };
        if chars_of(text.as_str()).len() == 0 {
            return ImportStep::Skip;
        }
        let hash = hash_column(hash_bytes(text.as_str().as_bytes()));
        let clip = NewClip {
            kind: "text".to_string(),
            content: Some(text),
            image: None,
            width: None,
            height: None,
            hash: hash,
            created_at: Some(seconds_of(time_of(doc))),
            remote_device_id: from,
            remote_id: get_i64(doc, "remoteId"),
        };
        return ImportStep::Store(clip);
    }
    if get_text(doc, "fileName").is_none() || size_of(doc) > MAX_REMOTE_FILE {
        return ImportStep::Skip;
    }
    match get_i64(doc, "id") {
        Some(id) => ImportStep::Fetch(id),
        None => ImportStep::Skip,
    }
}

/// A clip that came from this device is never stored anew.
pub proof fn own_clips_are_skipped(doc: Seq<u8>, my_id: Seq<char>)
    requires
        text_member(doc, "remoteDeviceId"@) == Some(my_id),
    ensures
        import_step(doc, my_id) is Skip,
{
}

/// A text that is fetched is stored with its words, its time in seconds and its
/// origin: what another device offers arrives as it was there.
pub proof fn offered_text_arrives(
    doc: Seq<u8>,
    row: crate::server::ClipRowView,
    from: Seq<char>,
    my_id: Seq<char>,
)
    requires
        crate::json::holds_members(doc, crate::server::clip_members(row, from)),
        row.kind == "text"@,
        row.content matches Some(t) && t.len() > 0,
        crate::server::origin(row, from) != my_id,
        0 <= row.created_at,
        row.created_at * 1000 <= i64::MAX,
    ensures
        import_step(doc, my_id) == ImportView::Store(
            NewClipView {
                kind: "text"@,
                content: row.content,
                image: None,
                width: None,
                height: None,
                hash: stored_hash(content_hash(encode_utf8(row.content->0))),
                created_at: Some(row.created_at),
                remote_device_id: Some(crate::server::origin(row, from)),
                remote_id: Some(
                    match row.remote_id {
                        Some(n) => n,
                        None => row.id,
                    },
                ),
            },
        ),
{
    lemma_text_members(doc, row, from);
    let t = (row.created_at * 1000) as i64;
    assert(seconds(t) == row.created_at);
}

/// What the document of a text is read as.
#[verifier::spinoff_prover]
proof fn lemma_text_members(doc: Seq<u8>, row: crate::server::ClipRowView, from: Seq<char>)
    requires
        crate::json::holds_members(doc, crate::server::clip_members(row, from)),
        row.kind == "text"@,
        row.content is Some,
    ensures
        text_member(doc, "remoteDeviceId"@) == Some(crate::server::origin(row, from)),
        text_member(doc, "text"@) == row.content,
        wire_kind(doc) == WIRE_TEXT,
        clip_time(doc) == (row.created_at * 1000) as i64,
        i64_member(doc, "remoteId"@) == Some(
            match row.remote_id {
                Some(n) => n,
                None => row.id,
            },
        ),
{
    let m = crate::server::clip_members(row, from);
    lemma_clip_names();
    assert("image"@ != "text"@) by {
        reveal_strlit("image");
        reveal_strlit("text");
        assert("image"@.len() == 5 && "text"@.len() == 4);
    }
    assert(m.len() == 6);
    assert(m[0].0 == "id"@ && m[1].0 == "type"@ && m[2].0 == "text"@ && m[3].0 == "timestamp"@
        && m[4].0 == "remoteDeviceId"@ && m[5].0 == "remoteId"@);
    assert(crate::json::last_of_name(m, 1));
    assert(crate::json::last_of_name(m, 2));
    assert(crate::json::last_of_name(m, 3));
    assert(crate::json::last_of_name(m, 4));
    assert(crate::json::last_of_name(m, 5));
}

/// The names of the members of a clip are all different.
proof fn lemma_clip_names()
    ensures
        "fileName"@ != "id"@ && "fileName"@ != "type"@ && "fileName"@ != "text"@ && "fileName"@
            != "timestamp"@ && "fileName"@ != "remoteDeviceId"@ && "fileName"@ != "remoteId"@
            && "fileName"@ != "fileSize"@,
        "fileSize"@ != "id"@ && "fileSize"@ != "type"@ && "fileSize"@ != "text"@ && "fileSize"@
            != "timestamp"@ && "fileSize"@ != "remoteDeviceId"@ && "fileSize"@ != "remoteId"@,
        "id"@ != "type"@ && "id"@ != "text"@ && "id"@ != "timestamp"@ && "id"@ != "remoteDeviceId"@
            && "id"@ != "remoteId"@,
        "type"@ != "text"@ && "type"@ != "timestamp"@ && "type"@ != "remoteDeviceId"@ && "type"@
            != "remoteId"@,
        "text"@ != "timestamp"@ && "text"@ != "remoteDeviceId"@ && "text"@ != "remoteId"@,
        "timestamp"@ != "remoteDeviceId"@ && "timestamp"@ != "remoteId"@,
        "remoteDeviceId"@ != "remoteId"@,
{
    reveal_strlit("id");
    reveal_strlit("type");
    reveal_strlit("text");
    reveal_strlit("timestamp");
    reveal_strlit("remoteDeviceId");
    reveal_strlit("remoteId");
    reveal_strlit("fileName");
    reveal_strlit("fileSize");
    assert("fileName"@.len() == 8 && "fileName"@[0] == 'f' && "fileName"@[4] == 'N');
    assert("fileSize"@.len() == 8 && "fileSize"@[0] == 'f' && "fileSize"@[4] == 'S');
    assert("remoteId"@[0] == 'r');
    assert("id"@.len() == 2);
    assert("type"@.len() == 4 && "type"@[1] == 'y');
    assert("text"@.len() == 4 && "text"@[1] == 'e');
    assert("timestamp"@.len() == 9);
    assert("remoteDeviceId"@.len() == 14);
    assert("remoteId"@.len() == 8);
}

// ---------- files ----------

/// The letters and digits of a text, in small letters.
pub open spec fn plain_letters(s: Seq<char>) -> Seq<char>
    decreases s.len(),
{
    if s.len() == 0 {
        seq![]
    } else if ascii_alphanumeric(s.last()) {
        plain_letters(s.drop_last()).push(ascii_lower(s.last()))
    } else {
        plain_letters(s.drop_last())
    }
}

/// At most the first ten of some characters.
pub open spec fn first_ten(s: Seq<char>) -> Seq<char> {
    if s.len() > 10 {
        s.take(10)
    } else {
        s
    }
}

/// A file extension that does no harm: letters and digits only, small, at most ten.
pub fn sanitize_ext(ext: &str) -> (r: String)
    ensures
        r@ == first_ten(plain_letters(ext@)),
{
    let v = chars_of(ext);
    let mut out: Vec<char> = Vec::new();
    let mut i: usize = 0;
    assert(plain_letters(v@.take(0)) =~= out@);
    while i < v.len()
        invariant
            i <= v@.len(),
            out@ == first_ten(plain_letters(v@.take(i as int))),
        decreases v@.len() - i,
    {
        let c = v[i];
        assert(v@.take(i + 1).drop_last() =~= v@.take(i as int));
        let ghost before = plain_letters(v@.take(i as int));
        if is_ascii_alphanumeric(c) {
            let low = if 'A' <= c && c <= 'Z' {
                (c as u8 + 32u8) as char
            } else {
                c
            };
            if out.len() < 10 {
                out.push(low);
                assert(out@ =~= first_ten(before.push(low)));
            } else {
                assert(first_ten(before.push(low)) =~= out@);
            }
        }
        i = i + 1;
    }
    assert(v@.take(i as int) =~= v@);
    string_of(&out)
}

/// A file extension that was made harmless has at most ten characters, all small
/// letters or digits.
pub proof fn sanitized_ext_is_plain(ext: Seq<char>)
    ensures
        first_ten(plain_letters(ext)).len() <= 10,
        forall|i: int|
            0 <= i < first_ten(plain_letters(ext)).len() ==> ('0' <= #[trigger] first_ten(
                plain_letters(ext),
            )[i] <= '9' || 'a' <= first_ten(plain_letters(ext))[i] <= 'z'),
{
    lemma_plain_letters(ext);
}

proof fn lemma_plain_letters(s: Seq<char>)
    ensures
        forall|i: int|
            0 <= i < plain_letters(s).len() ==> ('0' <= #[trigger] plain_letters(s)[i] <= '9'
                || 'a' <= plain_letters(s)[i] <= 'z'),
    decreases s.len(),
{
    if s.len() > 0 {
        lemma_plain_letters(s.drop_last());
        let c = s.last();
        let p = plain_letters(s.drop_last());
        let q = plain_letters(s);
        assert(ascii_alphanumeric(c) ==> '0' <= ascii_lower(c) <= '9' || 'a' <= ascii_lower(c)
            <= 'z');
        assert forall|i: int| 0 <= i < q.len() implies ('0' <= #[trigger] q[i] <= '9' || 'a' <= q[i]
            <= 'z') by {
            if i < p.len() {
                assert(q[i] == p[i]);
            }
        }
    }
}

/// The extension of a file name; `bin` where it has none.
pub open spec fn extension(name: Seq<char>) -> Seq<char> {
    let dot = last_at(name, '.');
    if dot >= 0 {
        name.subrange(dot + 1, name.len() as int)
    } else {
        "bin"@
    }
}

/// The name under which a fetched file is kept: its time, and its extension.
pub open spec fn kept_name(ms: i64, name: Seq<char>) -> Seq<char> {
    dec_int(ms as int) + "_lan."@ + first_ten(plain_letters(extension(name)))
}

fn name_for(ms: i64, name: &str) -> (r: String)
    ensures
        r@ == kept_name(ms, name@),
{
    let v = chars_of(name);
    let n: usize = v.len();
    let ext = match find_last(&v, '.') {
        Some(dot) => string_of(&slice_of(&v, dot + 1, n)),
        None => "bin".to_string(),
    };
    let mut t = decimal_i64(ms);
    t.append("_lan.");
    t.append(sanitize_ext(ext.as_str()).as_str());
    t
}

/// The directory in which fetched files are kept: under that of the database, or
/// else beside the program.
pub fn files_dir(db_dir: &Option<String>, exe_dir: &str, platform: Platform) -> (r: String)
    ensures
        r@ == joined(
            match opt_text(*db_dir) {
                Some(d) => d,
                None => exe_dir@,
            },
            "lan-files"@,
            platform,
        ),
{
    match db_dir {
        Some(d) => join_path(d.as_str(), "lan-files", platform),
        None => join_path(exe_dir, "lan-files", platform),
    }
}

/// What is to be done with the file of a fetched clip.
pub enum FileView {
    /// Nothing.
    Skip,
    /// The clip is stored.
    Store(NewClipView),
    /// The file is written to this path, and then the clip is stored.
    Write(Seq<char>, NewClipView),
}

/// What is to be done with the file of a fetched clip: one that is empty or not
/// of the size that was given is left alone. A picture is stored as PNG; any
/// other file is kept in the directory `dir`.
pub open spec fn file_step(
    doc: Seq<u8>,
    file: Seq<u8>,
    dir: Seq<char>,
    platform: Platform,
) -> FileView {
    let size = file_size(doc);
    let at = Some(seconds(clip_time(doc)));
    let device = text_member(doc, "remoteDeviceId"@);
    let number = i64_member(doc, "remoteId"@);
    if file.len() == 0 || (size > 0 && file.len() != size) {
        FileView::Skip
    } else if wire_kind(doc) == WIRE_IMAGE {
        match as_png(file) {
            Some((png, w, h)) => FileView::Store(
                NewClipView {
                    kind: "image"@,
                    content: None,
                    image: Some(png),
                    width: Some(w),
                    height: Some(h),
                    hash: stored_hash(content_hash(png)),
                    created_at: at,
                    remote_device_id: device,
                    remote_id: number,
                },
            ),
            None => FileView::Skip,
        }
    } else {
        match text_member(doc, "fileName"@) {
            Some(name) => {
                let path = joined(dir, kept_name(clip_time(doc), name), platform);
                FileView::Write(
                    path,
                    NewClipView {
                        kind: "file"@,
                        content: Some(path),
                        image: None,
                        width: None,
                        height: None,
                        hash: stored_hash(content_hash(file)),
                        created_at: at,
                        remote_device_id: device,
                        remote_id: number,
                    },
                )
            },
            None => FileView::Skip,
        }
    }
}

/// What is to be done with the file of a fetched clip.
pub enum FileStep {
    Skip,
    Store(NewClip),
    Write(String, NewClip),
}

impl View for FileStep {
    type V = FileView;

    open spec fn view(&self) -> FileView {
        match self {
            FileStep::Skip => FileView::Skip,
            FileStep::Store(c) => FileView::Store(c@),
            FileStep::Write(p, c) => FileView::Write(p@, c@),
        }
    }
}

/// What is to be done with the file of a fetched clip.
pub fn import_file(doc: &[u8], file: &[u8], dir: &str, platform: Platform) -> (r: FileStep)
    ensures
        r@ == file_step(doc@, file@, dir@, platform),
{
    let size = size_of(doc);
    if file.len() == 0 || (size > 0 && file.len() as u64 != size) {
        return FileStep::Skip;
    }
    let ms = time_of(doc);
    if kind_of(doc) == WIRE_IMAGE {
        match transcode_png(file) {
            Some((png, w, h)) => {
                let hash = hash_column(hash_bytes(png.as_slice()));
                let clip = NewClip {
                    kind: "image".to_string(),
                    content: None,
                    image: Some(png),
                    width: Some(w),
                    height: Some(h),
                    hash: hash,
                    created_at: Some(seconds_of(ms)),
                    remote_device_id: get_text(doc, "remoteDeviceId"),
                    remote_id: get_i64(doc, "remoteId"),
                };
                FileStep::Store(clip)
            },
            None => FileStep::Skip,
        }
    } else {
        match get_text(doc, "fileName") {
            Some(name) => {
                let path = join_path(dir, name_for(ms, name.as_str()).as_str(), platform);
                let clip = NewClip {
                    kind: "file".to_string(),
                    content: Some(path.clone()),
                    image: None,
                    width: None,
                    height: None,
                    hash: hash_column(hash_bytes(file)),
                    created_at: Some(seconds_of(ms)),
                    remote_device_id: get_text(doc, "remoteDeviceId"),
                    remote_id: get_i64(doc, "remoteId"),
                };
                FileStep::Write(path, clip)
            },
            None => FileStep::Skip,
        }
    }
}

/// A picture that is offered is fetched, and stored with its time in seconds and its
/// origin: what another device offers arrives as PNG.
#[verifier::spinoff_prover]
pub proof fn offered_picture_arrives(
    doc: Seq<u8>,
    row: crate::server::ClipRowView,
    from: Seq<char>,
    my_id: Seq<char>,
    file: Seq<u8>,
    dir: Seq<char>,
    platform: Platform,
)
    requires
        crate::json::holds_members(doc, crate::server::clip_members(row, from)),
        row.kind == "image"@,
        row.image_len matches Some(n) && 0 < n <= MAX_REMOTE_FILE && n == file.len(),
        crate::server::origin(row, from) != my_id,
        0 <= row.created_at,
        row.created_at * 1000 <= i64::MAX,
    ensures
        import_step(doc, my_id) == ImportView::Fetch(row.id),
        file_step(doc, file, dir, platform) == (match as_png(file) {
            Some((png, w, h)) => FileView::Store(
                NewClipView {
                    kind: "image"@,
                    content: None,
                    image: Some(png),
                    width: Some(w),
                    height: Some(h),
                    hash: stored_hash(content_hash(png)),
                    created_at: Some(row.created_at),
                    remote_device_id: Some(crate::server::origin(row, from)),
                    remote_id: Some(
                        match row.remote_id {
                            Some(n) => n,
                            None => row.id,
                        },
                    ),
                },
            ),
            None => FileView::Skip,
        }),
{
    let m = crate::server::clip_members(row, from);
    lemma_clip_names();
    assert(m.len() == 8);
    assert(m[0].0 == "id"@ && m[1].0 == "type"@ && m[2].0 == "text"@ && m[3].0 == "timestamp"@
        && m[4].0 == "remoteDeviceId"@ && m[5].0 == "remoteId"@ && m[6].0 == "fileName"@ && m[7].0
        == "fileSize"@);
    assert(crate::json::last_of_name(m, 0));
    assert(crate::json::last_of_name(m, 1));
    assert(crate::json::last_of_name(m, 3));
    assert(crate::json::last_of_name(m, 4));
    assert(crate::json::last_of_name(m, 5));
    assert(crate::json::last_of_name(m, 6));
    assert(crate::json::last_of_name(m, 7));
    let t = (row.created_at * 1000) as i64;
    assert(clip_time(doc) == t);
    assert(seconds(t) == row.created_at);
}

/// A clip that was fetched does not go back to the device that it came from.
pub proof fn fetched_clip_does_not_return(
    doc: Seq<u8>,
    my_id: Seq<char>,
    file: Seq<u8>,
    dir: Seq<char>,
    platform: Platform,
    path: Seq<char>,
    c: NewClipView,
    row: crate::server::ClipRowView,
    from: Seq<char>,
)
    requires
        ({
            ||| import_step(doc, my_id) == ImportView::Store(c)
            ||| file_step(doc, file, dir, platform) == FileView::Store(c)
            ||| file_step(doc, file, dir, platform) == FileView::Write(path, c)
        }),
        row.remote_device_id == c.remote_device_id,
        text_member(doc, "remoteDeviceId"@) == Some(from),
    ensures
        !crate::server::offered(row, from, my_id),
{
}

/// The name of a fetched file holds no separator, so that it stays in its directory.
pub proof fn kept_name_stays_inside(ms: i64, name: Seq<char>)
    ensures
        forall|i: int|
            0 <= i < kept_name(ms, name).len() ==> #[trigger] kept_name(ms, name)[i] != '/'
                && kept_name(ms, name)[i] != '\\',
{
    let a = dec_int(ms as int);
    let e = first_ten(plain_letters(extension(name)));
    let k = kept_name(ms, name);
    reveal_strlit("_lan.");
    sanitized_ext_is_plain(extension(name));
    if ms < 0 {
        crate::numbers::lemma_dec_value((-(ms as int)) as nat);
    } else {
        crate::numbers::lemma_dec_value(ms as nat);
    }
    assert forall|i: int| 0 <= i < a.len() implies #[trigger] a[i] != '/' && a[i] != '\\' by {
        if ms < 0 && i > 0 {
            assert(a[i] == dec((-(ms as int)) as nat)[i - 1]);
        }
    }
    assert forall|i: int| 0 <= i < k.len() implies #[trigger] k[i] != '/' && k[i] != '\\' by {
        if i < a.len() {
            assert(k[i] == a[i]);
        } else if i >= a.len() + 5 {
            assert(k[i] == e[i - a.len() - 5]);
        }
    }
}

// ---------- laws of fetching ----------

/// Clips are fetched from a device that is paired with a code, has an address, and is
/// not shut out; else the obstacle is told.
pub proof fn fetching_needs_a_pairing(v: SharedView, id: Seq<char>)
    ensures
        sync_obstacle(v, id) is None <==> {
            &&& !v.settings.blocked.contains_key(id)
            &&& !v.settings.blocked_by.contains(id)
            &&& v.settings.paired.contains_key(id)
            &&& v.settings.paired[id].token is Some
            &&& known_device(v, id)->0.host is Some
        },
        v.settings.blocked.contains_key(id) || v.settings.blocked_by.contains(id) ==> sync_obstacle(
            v,
            id,
        ) == Some(ErrView::Blocked(None)),
        !v.settings.blocked.contains_key(id) && !v.settings.blocked_by.contains(id) && (
        !v.settings.paired.contains_key(id) || v.settings.paired[id].token is None)
            ==> sync_obstacle(v, id) == Some(ErrView::NeedPairing),
        !v.settings.blocked.contains_key(id) && !v.settings.blocked_by.contains(id)
            && v.settings.paired.contains_key(id) && v.settings.paired[id].token is Some
            && known_device(v, id)->0.host is None ==> sync_obstacle(v, id) == Some(
            ErrView::Net("设备离线"@),
        ),
        sync_obstacle(v, id) is None ==> {
            &&& sync_target(v, id).token == v.settings.paired[id].token
            &&& sync_target(v, id).host == known_device(v, id)->0.host
            &&& sync_target(v, id).port == known_device(v, id)->0.port
        },
        v.settings.last_sync.contains_key(id) ==> last_fetched(v.settings, id)
            == v.settings.last_sync[id],
        !v.settings.last_sync.contains_key(id) ==> last_fetched(v.settings, id) == 0,
{
}

/// The time up to which clips were fetched is the latest among them, or the one before
/// where none is later.
pub proof fn newest_is_the_latest(docs: Seq<Seq<u8>>, since: i64)
    ensures
        newest(docs, since) >= since,
        forall|i: int| 0 <= i < docs.len() ==> clip_time(#[trigger] docs[i]) <= newest(docs, since),
        newest(docs, since) == since || exists|i: int|
            0 <= i < docs.len() && clip_time(#[trigger] docs[i]) == newest(docs, since),
    decreases docs.len(),
{
    newest_never_goes_back(docs, since);
    if docs.len() > 0 {
        let d = docs.drop_last();
        newest_is_the_latest(d, since);
        if clip_time(docs.last()) > newest(d, since) {
            assert(clip_time(docs[docs.len() - 1]) == newest(docs, since));
        } else if newest(d, since) != since {
            let i = choose|i: int|
                0 <= i < d.len() && clip_time(#[trigger] d[i]) == newest(d, since);
            assert(clip_time(docs[i]) == newest(docs, since));
        }
    }
}

/// The time of a clip is the one that it is offered with, in milliseconds, and in whole
/// seconds once it is stored; none before the start of the clock.
pub proof fn times_are_milliseconds(doc: Seq<u8>, ms: i64)
    ensures
        i64_member(doc, "timestamp"@) is Some ==> clip_time(doc) == i64_member(
            doc,
            "timestamp"@,
        )->0,
        i64_member(doc, "timestamp"@) is None ==> clip_time(doc) == 0,
        ms >= 0 ==> seconds(ms) * 1000 <= ms < seconds(ms) * 1000 + 1000,
        ms < 0 ==> seconds(ms) == 0,
{
}

/// Each clip that was added counts once.
pub proof fn added_clips_count(v: Seq<bool>, added: bool)
    ensures
        count_added(Seq::empty()) == 0,
        added ==> count_added(v.push(added)) == count_added(v) + 1,
        !added ==> count_added(v.push(added)) == count_added(v),
{
    assert(v.push(added).drop_last() =~= v);
}

/// A text of another device that is not empty is stored as it is, with the time, the
/// device and the number that it is offered with; it is a text where it says that it is
/// of kind 0, or says nothing.
pub proof fn texts_of_others_are_stored(doc: Seq<u8>, my_id: Seq<char>, t: Seq<char>)
    requires
        text_member(doc, "remoteDeviceId"@) != Some(my_id),
        i64_member(doc, "type"@) == Some(0i64) || i64_member(doc, "type"@) is None,
        text_member(doc, "text"@) == Some(t),
        t.len() > 0,
    ensures
        import_step(doc, my_id) matches ImportView::Store(c) && {
            &&& c.kind == "text"@
            &&& c.content == Some(t)
            &&& c.image is None
            &&& c.hash == stored_hash(content_hash(encode_utf8(t)))
            &&& c.created_at == Some(seconds(clip_time(doc)))
            &&& c.remote_device_id == text_member(doc, "remoteDeviceId"@)
            &&& c.remote_id == i64_member(doc, "remoteId"@)
        },
{
}

/// Of the other kinds the file is fetched, where it has a name, is not larger than
/// 100 MiB, and the clip has a number; everything else is passed over.
pub proof fn files_of_others_are_fetched(doc: Seq<u8>, my_id: Seq<char>, k: i64)
    requires
        text_member(doc, "remoteDeviceId"@) != Some(my_id),
        i64_member(doc, "type"@) == Some(k),
        k != 0,
    ensures
        text_member(doc, "fileName"@) is Some && i64_member(doc, "id"@) is Some && (u64_member(
            doc,
            "fileSize"@,
        ) is None || u64_member(doc, "fileSize"@)->0 <= 100 * 1024 * 1024) ==> import_step(
            doc,
            my_id,
        ) == ImportView::Fetch(i64_member(doc, "id"@)->0),
        text_member(doc, "fileName"@) is None || i64_member(doc, "id"@) is None || (u64_member(
            doc,
            "fileSize"@,
        ) is Some && u64_member(doc, "fileSize"@)->0 > 100 * 1024 * 1024) ==> import_step(
            doc,
            my_id,
        ) is Skip,
{
}

/// A text without content, or of this device itself, is passed over.
pub proof fn empty_texts_are_passed_over(doc: Seq<u8>, my_id: Seq<char>)
    requires
        i64_member(doc, "type"@) == Some(0i64) || i64_member(doc, "type"@) is None,
        text_member(doc, "text"@) is None || text_member(doc, "text"@)->0.len() == 0,
    ensures
        import_step(doc, my_id) is Skip,
{
}

// ---------- laws of files ----------

/// The letters and digits of an ending are kept, in small letters and in order, and
/// nothing else is; ten of them at most.
pub proof fn endings_keep_letters_and_digits(s: Seq<char>, c: char)
    ensures
        plain_letters(Seq::empty()) == Seq::<char>::empty(),
        'a' <= c && c <= 'z' ==> plain_letters(s.push(c)) == plain_letters(s).push(c),
        '0' <= c && c <= '9' ==> plain_letters(s.push(c)) == plain_letters(s).push(c),
        'A' <= c && c <= 'Z' ==> plain_letters(s.push(c)) == plain_letters(s).push(
            (c as u32 + 32) as char,
        ),
        !('a' <= c && c <= 'z') && !('0' <= c && c <= '9') && !('A' <= c && c <= 'Z')
            ==> plain_letters(s.push(c)) == plain_letters(s),
        s.len() <= 10 ==> first_ten(s) == s,
        s.len() > 10 ==> first_ten(s) == s.take(10),
{
    assert(s.push(c).drop_last() =~= s);
}

/// A file that is fetched is kept under the time of its clip and its own ending, what
/// follows its last dot; one without an ending is `bin`.
pub proof fn fetched_files_keep_their_ending(ms: i64, stem: Seq<char>, e: Seq<char>)
    requires
        forall|i: int| 0 <= i < e.len() ==> #[trigger] e[i] != '.',
        forall|i: int|
            0 <= i < e.len() ==> ('a' <= #[trigger] e[i] && e[i] <= 'z') || ('0' <= e[i] && e[i]
                <= '9'),
        e.len() <= 10,
    ensures
        kept_name(ms, stem + seq!['.'] + e) == dec_int(ms as int) + "_lan."@ + e,
        kept_name(ms, e) == dec_int(ms as int) + "_lan."@ + "bin"@,
{
    let name = stem + seq!['.'] + e;
    let k = stem.len() as int;
    crate::text::last_place_is_last(name, '.');
    crate::text::last_place_is_last(e, '.');
    assert(name[k] == '.');
    if last_at(name, '.') > k {
        assert(name[last_at(name, '.')] == e[last_at(name, '.') - k - 1]);
    }
    if last_at(e, '.') >= 0 {
        assert(e[last_at(e, '.')] == '.');
    }
    assert(name.subrange(k + 1, name.len() as int) =~= e);
    lemma_plain_stays(e);
    reveal_strlit("bin");
    let b = "bin"@;
    assert(b.len() == 3);
    assert(b[0] == 'b' && b[1] == 'i' && b[2] == 'n');
    lemma_plain_stays(b);
}

proof fn lemma_plain_stays(e: Seq<char>)
    requires
        forall|i: int|
            0 <= i < e.len() ==> ('a' <= #[trigger] e[i] && e[i] <= 'z') || ('0' <= e[i] && e[i]
                <= '9'),
    ensures
        plain_letters(e) == e,
    decreases e.len(),
{
    if e.len() > 0 {
        let d = e.drop_last();
        assert forall|i: int| 0 <= i < d.len() implies ('a' <= #[trigger] d[i] && d[i] <= 'z') || (
        '0' <= d[i] && d[i] <= '9') by {
            assert(d[i] == e[i]);
        }
        lemma_plain_stays(d);
        endings_keep_letters_and_digits(d, e[e.len() - 1]);
        assert(d.push(e[e.len() - 1]) =~= e);
    } else {
        assert(e =~= seq![]);
    }
}

/// A file that came over whole is kept: a picture as a picture, anything else under a
/// name of its own, which is what the clip then says. An empty file, or one of another
/// size than was said, is passed over.
pub proof fn whole_files_are_kept(
    doc: Seq<u8>,
    file: Seq<u8>,
    dir: Seq<char>,
    platform: Platform,
)
    ensures
        file.len() == 0 ==> file_step(doc, file, dir, platform) is Skip,
        u64_member(doc, "fileSize"@) matches Some(n) ==> (n > 0 && file.len() != n ==> file_step(
            doc,
            file,
            dir,
            platform,
        ) is Skip),
        file.len() > 0 && (u64_member(doc, "fileSize"@) is None || u64_member(doc, "fileSize"@)->0
            == 0 || u64_member(doc, "fileSize"@)->0 == file.len()) ==> {
            let r = file_step(doc, file, dir, platform);
            let name = text_member(doc, "fileName"@);
            &&& i64_member(doc, "type"@) == Some(1i64) && as_png(file) is Some ==> {
                &&& r matches FileView::Store(c)
                &&& c.kind == "image"@
                &&& c.image == Some((as_png(file)->0).0)
                &&& c.width == Some((as_png(file)->0).1)
                &&& c.height == Some((as_png(file)->0).2)
                &&& c.created_at == Some(seconds(clip_time(doc)))
                &&& c.remote_device_id == text_member(doc, "remoteDeviceId"@)
                &&& c.remote_id == i64_member(doc, "remoteId"@)
            }
            &&& i64_member(doc, "type"@) == Some(1i64) && as_png(file) is None ==> r is Skip
            &&& i64_member(doc, "type"@) != Some(1i64) && name is Some ==> {
                &&& r matches FileView::Write(p, c)
                &&& p == joined(dir, kept_name(clip_time(doc), name->0), platform)
                &&& c.kind == "file"@
                &&& c.content == Some(p)
                &&& c.image is None
                &&& c.created_at == Some(seconds(clip_time(doc)))
                &&& c.remote_device_id == text_member(doc, "remoteDeviceId"@)
                &&& c.remote_id == i64_member(doc, "remoteId"@)
            }
            &&& i64_member(doc, "type"@) != Some(1i64) && name is None ==> r is Skip
        },
{
}

} // verus!
