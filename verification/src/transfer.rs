//! Sending files to other devices, and receiving theirs.

use crate::client::{
    err_text, error_body, is_reply, lemma_error_body, lemma_refusals, ErrView, LanErr,
};
use crate::discovery::answer_view;
use crate::http::{
    all_lines, append_bytes, fits_line, head_lines_read_back, head_text, lemma_dec_fits,
    lemma_first_word, lemma_headers_push, lemma_host_fits, lemma_lead_white, lemma_lower,
    lemma_named_line, lemma_plain_fits, lines_text, one_line, query_part, request_of, string_views,
    text_of_head, words,
};
use crate::json::{
    field, flat_object, get_text, holds_members, members, object_json, object_text, plain_text,
    text_member, Json, JsonView,
};
use crate::lan::{
    device_model, elapsed, is_shut_out, model_text, shut_out, since, LanSettings, LanShared,
    Platform, SettingsView, SharedView,
};
use crate::numbers::{
    dec, dec_int, decimal, decimal_i64, hex, hexadecimal, parse_unsigned, read_decimal,
    read_unsigned,
};
use crate::pairing::{find_device, known_device};
use crate::server::{
    bad_request, block_refusal, header, reject_if_blocked, reply, route_of, unpaired, Reply, Route,
};
use crate::strmap::StrMap;
use crate::text::{
    base_name, base_name_of, blank, chars_of, control, copy_text, find_last, is_control, last_at,
    lemma_base_name, lemma_next_at, lemma_split_two, lemma_trim_blank, next_at, opt_text, same,
    slice_of, split, string_of, string_of_range, trim, trim_chars, white_space,
};
use crate::url::{
    decoded, decoding_undoes_encoding, encoded, encoded_is_plain, query_of_parts, query_values,
    unreserved, url_decode, url_encode,
};
use vstd::prelude::*;
use vstd::string::*;
use vstd::utf8::*;

verus! {

/// How much of a file is read at a time: a multiple of 8, the size of the blocks
/// in which it is encrypted.
pub const TRANSFER_CHUNK: usize = 65536;

/// How many transfers are kept on record.
pub const HISTORY_KEEP: i64 = 200;

/// The least time between two reports of progress, in milliseconds.
pub const PROGRESS_INTERVAL: u64 = 100;

/// How long the user has for consenting to a file, in seconds.
pub const CONFIRM_TIMEOUT_SECS: u64 = 60;

/// How much of a refused file is read at most, so that the sender gets the answer.
pub const DRAIN_CAP: u64 = 67108864;

/// The table of the transfers.
pub const CREATE_TRANSFERS: &'static str =
    "CREATE TABLE IF NOT EXISTS transfers (id INTEGER PRIMARY KEY AUTOINCREMENT, direction TEXT NOT NULL, peer TEXT NOT NULL, file_name TEXT NOT NULL, path TEXT, size INTEGER NOT NULL, ok INTEGER NOT NULL, msg TEXT, created_at INTEGER NOT NULL);";

/// Puts a transfer on record.
pub const INSERT_TRANSFER: &'static str =
    "INSERT INTO transfers(direction, peer, file_name, path, size, ok, msg, created_at) VALUES(?1, ?2, ?3, ?4, ?5, ?6, ?7, ?8)";

/// Forgets the oldest transfers, down to a number.
pub const PRUNE_TRANSFERS: &'static str =
    "DELETE FROM transfers WHERE id NOT IN (SELECT id FROM transfers ORDER BY id DESC LIMIT ?1)";

/// The newest transfers that were received in full.
pub const SELECT_HISTORY: &'static str =
    "SELECT id, direction, peer, file_name, path, size, ok, msg, created_at FROM transfers WHERE direction='recv' AND ok=1 ORDER BY id DESC LIMIT 100";

/// The direction and the path of a transfer.
pub const SELECT_TRANSFER: &'static str = "SELECT direction, path FROM transfers WHERE id=?1";

/// The directions and the paths of all transfers.
pub const SELECT_TRANSFERS: &'static str = "SELECT direction, path FROM transfers";

/// Forgets a transfer.
pub const DELETE_TRANSFER: &'static str = "DELETE FROM transfers WHERE id=?1";

/// Forgets all transfers.
pub const DELETE_TRANSFERS: &'static str = "DELETE FROM transfers";

// ---------- settings ----------

/// What the user has set for transfers.
pub struct TransferSettings {
    /// Whether files are taken without asking.
    pub auto_accept: bool,
    /// Where received files go; none for the download directory of the system.
    pub download_dir: Option<String>,
}

impl Default for TransferSettings {
    fn default() -> (r: Self)
        ensures
            !r.auto_accept,
            r.download_dir is None,
    {
        TransferSettings { auto_accept: false, download_dir: None }
    }
}

/// Where received files go: the directory that is set, unless it is blank, or
/// else the one of the system.
pub fn recv_dir(t: &TransferSettings, system: &Option<String>) -> (r: Option<String>)
    ensures
        opt_text(r) == (match t.download_dir {
            Some(d) => if blank(d@) {
                opt_text(*system)
            } else {
                Some(trim(d@))
            },
            None => opt_text(*system),
        }),
{
    match &t.download_dir {
        Some(d) => {
            let v = trim_chars(&chars_of(d.as_str()));
            proof {
                lemma_trim_blank(d@);
            }
            if v.len() == 0 {
                copy_text(system)
            } else {
                Some(string_of(&v))
            }
        },
        None => copy_text(system),
    }
}

// ---------- progress and records ----------

/// Whether progress is to be reported now; the end always is.
pub fn emit_progress(last: &mut u64, now: u64, force: bool) -> (r: bool)
    ensures
        r == (force || elapsed(now, *old(last)) >= PROGRESS_INTERVAL),
        r == (force || now - *old(last) >= 100),
        *final(last) == (if r {
            now
        } else {
            *old(last)
        }),
{
    if !force && since(now, *last) < PROGRESS_INTERVAL {
        return false;
    }
    *last = now;
    true
}

/// A size as the database holds it: the same 64 bits, signed.
pub open spec fn signed_size(n: u64) -> int {
    if n < 0x8000_0000_0000_0000 {
        n as int
    } else {
        n - 0x1_0000_0000_0000_0000
    }
}

/// A transfer on record.
pub struct TransferDto {
    pub id: i64,
    pub direction: String,
    pub peer: String,
    pub file_name: String,
    pub path: Option<String>,
    pub size: i64,
    pub ok: bool,
    pub msg: Option<String>,
    /// In seconds.
    pub created_at: i64,
}

/// Whether `r` is the record of a file that was received in full; it has no number yet.
pub open spec fn received(
    r: TransferDto,
    peer: Seq<char>,
    file_name: Seq<char>,
    path: Seq<char>,
    size: u64,
    now: i64,
) -> bool {
    &&& r.id == 0
    &&& r.direction@ == "recv"@
    &&& r.peer@ == peer
    &&& r.file_name@ == file_name
    &&& opt_text(r.path) == Some(path)
    &&& r.size == signed_size(size)
    &&& r.ok
    &&& r.msg is None
    &&& r.created_at == now
}

/// The record of a file that was received in full; it has no number yet.
pub fn record_transfer(
    peer: &str,
    file_name: &str,
    path: &str,
    size: u64,
    now: i64,
) -> (r: TransferDto)
    ensures
        received(r, peer@, file_name@, path@, size, now),
{
    TransferDto {
        id: 0,
        direction: "recv".to_string(),
        peer: peer.to_string(),
        file_name: file_name.to_string(),
        path: Some(path.to_string()),
        size: if size < 0x8000_0000_0000_0000 {
            size as i64
        } else {
            (size as i128 - 0x1_0000_0000_0000_0000) as i64
        },
        ok: true,
        msg: None,
        created_at: now,
    }
}

/// A transfer on record, as it stands in a row of the database.
pub fn transfer_history(
    id: i64,
    direction: String,
    peer: String,
    file_name: String,
    path: Option<String>,
    size: i64,
    ok: i64,
    msg: Option<String>,
    created_at: i64,
) -> (r: TransferDto)
    ensures
        r.id == id,
        r.direction@ == direction@,
        r.peer@ == peer@,
        r.file_name@ == file_name@,
        opt_text(r.path) == opt_text(path),
        r.size == size,
        r.ok == (ok != 0),
        opt_text(r.msg) == opt_text(msg),
        r.created_at == created_at,
{
    TransferDto {
        id: id,
        direction: direction,
        peer: peer,
        file_name: file_name,
        path: path,
        size: size,
        ok: ok != 0,
        msg: msg,
        created_at: created_at,
    }
}

/// The file that goes when a record goes: only a received one, for that of a
/// sent one is the user's own.
pub fn remove_recv_file(direction: &str, path: &Option<String>) -> (r: Option<String>)
    ensures
        opt_text(r) == (if direction@ == "recv"@ {
            opt_text(*path)
        } else {
            None
        }),
{
    if !same(direction, "recv") {
        return None;
    }
    copy_text(path)
}

/// The file that goes with a record that is deleted, where files are to go.
pub fn transfer_delete(direction: &str, path: &Option<String>, delete_file: bool) -> (r: Option<
    String,
>)
    ensures
        opt_text(r) == (if delete_file && direction@ == "recv"@ {
            opt_text(*path)
        } else {
            None
        }),
{
    if delete_file {
        remove_recv_file(direction, path)
    } else {
        None
    }
}

/// The paths of the received files among some records.
pub open spec fn received_paths(rows: Seq<(String, Option<String>)>) -> Seq<Seq<char>>
    decreases rows.len(),
{
    if rows.len() == 0 {
        seq![]
    } else {
        let (direction, path) = rows.last();
        match path {
            Some(p) => if direction@ == "recv"@ {
                received_paths(rows.drop_last()).push(p@)
            } else {
                received_paths(rows.drop_last())
            },
            None => received_paths(rows.drop_last()),
        }
    }
}

/// The files that go when all records go, where files are to go.
pub fn transfer_clear_history(rows: &Vec<(String, Option<String>)>, delete_file: bool) -> (r: Vec<
    String,
>)
    ensures
        string_views(r@) == (if delete_file {
            received_paths(rows@)
        } else {
            seq![]
        }),
{
    let mut out: Vec<String> = Vec::new();
    assert(string_views(out@) =~= seq![]);
    if !delete_file {
        return out;
    }
    let mut i: usize = 0;
    assert(rows@.take(0) =~= Seq::<(String, Option<String>)>::empty());
    while i < rows.len()
        invariant
            i <= rows@.len(),
            string_views(out@) == received_paths(rows@.take(i as int)),
        decreases rows@.len() - i,
    {
        assert(rows@.take(i + 1).drop_last() =~= rows@.take(i as int));
        assert(rows@.take(i + 1).last() == rows@[i as int]);
        match remove_recv_file(rows[i].0.as_str(), &rows[i].1) {
            Some(p) => {
                let ghost before = out@;
                let ghost pv = p@;
                out.push(p);
                assert(string_views(out@) =~= string_views(before).push(pv));
            },
            None => {},
        }
        i = i + 1;
    }
    assert(rows@.take(i as int) =~= rows@);
    out
}

// ---------- names of received files ----------

/// The characters that no file name on Windows may hold.
pub open spec fn forbidden_char(c: char) -> bool {
    c == ':' || c == '*' || c == '?' || c == '"' || c == '<' || c == '>' || c == '|'
}

/// A name without characters that no file name may hold.
pub open spec fn without_forbidden(s: Seq<char>) -> Seq<char>
    decreases s.len(),
{
    if s.len() == 0 {
        seq![]
    } else if forbidden_char(s.last()) || control(s.last()) {
        without_forbidden(s.drop_last())
    } else {
        without_forbidden(s.drop_last()).push(s.last())
    }
}

/// A text without dots at its start.
pub open spec fn no_lead_dots(s: Seq<char>) -> Seq<char>
    decreases s.len(),
{
    if s.len() > 0 && s[0] == '.' {
        no_lead_dots(s.skip(1))
    } else {
        s
    }
}

/// A text without dots at its end.
pub open spec fn no_end_dots(s: Seq<char>) -> Seq<char>
    decreases s.len(),
{
    if s.len() > 0 && s.last() == '.' {
        no_end_dots(s.drop_last())
    } else {
        s
    }
}

/// A name as it may be used: only what comes after the last separator, without
/// forbidden characters, and without white space or dots around it.
pub open spec fn clean_name(name: Seq<char>) -> Seq<char> {
    trim(no_end_dots(no_lead_dots(trim(without_forbidden(base_name(name))))))
}

/// Whether a text is made of dots alone: as a name it would stand for a directory.
pub open spec fn dots_alone(s: Seq<char>) -> bool {
    forall|i: int| 0 <= i < s.len() ==> #[trigger] s[i] == '.'
}

/// The name under which a file is received: with the time, where nothing but dots
/// is left of the one that was asked for.
pub open spec fn safe_name(name: Seq<char>, now: i64) -> Seq<char> {
    if dots_alone(clean_name(name)) {
        "recv_"@ + dec_int(now as int)
    } else {
        clean_name(name)
    }
}

fn drop_forbidden(v: &Vec<char>) -> (r: Vec<char>)
    ensures
        r@ == without_forbidden(v@),
{
    let mut out: Vec<char> = Vec::new();
    let mut i: usize = 0;
    assert(out@ =~= without_forbidden(v@.take(0)));
    while i < v.len()
        invariant
            i <= v@.len(),
            out@ == without_forbidden(v@.take(i as int)),
        decreases v@.len() - i,
    {
        let c = v[i];
        assert(v@.take(i + 1).drop_last() =~= v@.take(i as int));
        let bad = c == ':' || c == '*' || c == '?' || c == '"' || c == '<' || c == '>' || c == '|';
        if !bad && !is_control(c) {
            out.push(c);
        }
        i = i + 1;
    }
    assert(v@.take(i as int) =~= v@);
    out
}

fn trim_dots(v: &Vec<char>) -> (r: Vec<char>)
    ensures
        r@ == no_end_dots(no_lead_dots(v@)),
{
    let mut from: usize = 0;
    assert(v@.skip(0) =~= v@);
    while from < v.len() && v[from] == '.'
        invariant
            from <= v@.len(),
            no_lead_dots(v@) == no_lead_dots(v@.skip(from as int)),
        decreases v@.len() - from,
    {
        assert(v@.skip(from as int).skip(1) =~= v@.skip(from + 1));
        from = from + 1;
    }
    assert(no_lead_dots(v@) == v@.skip(from as int));
    let mut to: usize = v.len();
    assert(v@.subrange(from as int, to as int) =~= v@.skip(from as int));
    while to > from && v[to - 1] == '.'
        invariant
            from <= to <= v@.len(),
            no_end_dots(v@.skip(from as int)) == no_end_dots(v@.subrange(from as int, to as int)),
        decreases to,
    {
        assert(v@.subrange(from as int, to as int).drop_last() =~= v@.subrange(
            from as int,
            to - 1,
        ));
        to = to - 1;
    }
    slice_of(v, from, to)
}

fn is_dots_alone(v: &Vec<char>) -> (r: bool)
    ensures
        r == dots_alone(v@),
{
    let mut i: usize = 0;
    while i < v.len()
        invariant
            i <= v@.len(),
            forall|j: int| 0 <= j < i ==> #[trigger] v@[j] == '.',
        decreases v@.len() - i,
    {
        if v[i] != '.' {
            assert(v@[i as int] != '.');
            return false;
        }
        i = i + 1;
    }
    true
}

/// The name under which a file is received, `now` being the time in seconds.
pub fn sanitize_file_name(name: &str, now: i64) -> (r: String)
    ensures
        r@ == safe_name(name@, now),
{
    let base = base_name_of(&chars_of(name));
    let kept = trim_chars(&trim_dots(&trim_chars(&drop_forbidden(&base))));
    if is_dots_alone(&kept) {
        let mut t = "recv_".to_string();
        t.append(decimal_i64(now).as_str());
        t
    } else {
        string_of(&kept)
    }
}

/// Whether a name holds nothing that leads out of a directory, or that a file
/// name may not hold.
pub open spec fn harmless(s: Seq<char>) -> bool {
    forall|i: int|
        0 <= i < s.len() ==> #[trigger] s[i] != '/' && s[i] != '\\' && !forbidden_char(s[i])
            && !control(s[i])
}

proof fn lemma_without_forbidden(s: Seq<char>)
    requires
        forall|i: int| 0 <= i < s.len() ==> #[trigger] s[i] != '/' && s[i] != '\\',
    ensures
        harmless(without_forbidden(s)),
    decreases s.len(),
{
    if s.len() > 0 {
        let d = s.drop_last();
        assert forall|i: int| 0 <= i < d.len() implies #[trigger] d[i] != '/' && d[i] != '\\' by {
            assert(d[i] == s[i]);
        }
        lemma_without_forbidden(d);
    }
}

proof fn lemma_part_harmless(s: Seq<char>, a: int, b: int)
    requires
        harmless(s),
        0 <= a <= b <= s.len(),
    ensures
        harmless(s.subrange(a, b)),
{
    let t = s.subrange(a, b);
    assert forall|i: int| 0 <= i < t.len() implies #[trigger] t[i] != '/' && t[i] != '\\'
        && !forbidden_char(t[i]) && !control(t[i]) by {
        assert(t[i] == s[a + i]);
    }
}

proof fn lemma_trim_harmless(s: Seq<char>)
    requires
        harmless(s),
    ensures
        harmless(crate::text::trim_start(s)),
        harmless(crate::text::trim_end(s)),
        harmless(no_lead_dots(s)),
        harmless(no_end_dots(s)),
    decreases s.len(),
{
    if s.len() > 0 {
        assert(s.skip(1) =~= s.subrange(1, s.len() as int));
        assert(s.drop_last() =~= s.subrange(0, s.len() - 1));
        lemma_part_harmless(s, 1, s.len() as int);
        lemma_part_harmless(s, 0, s.len() - 1);
        lemma_trim_harmless(s.skip(1));
        lemma_trim_harmless(s.drop_last());
    }
}

/// The name under which a file is received is never empty, holds no separator and
/// no character that a file name may not hold, and stands neither for a directory
/// itself nor for the one above it: whatever the sender asks for, the file stays in
/// its directory.
pub proof fn received_name_is_safe(name: Seq<char>, now: i64)
    ensures
        safe_name(name, now).len() > 0,
        harmless(safe_name(name, now)),
        safe_name(name, now) != "."@,
        safe_name(name, now) != ".."@,
{
    reveal_strlit(".");
    reveal_strlit("..");
    assert(dots_alone("."@));
    assert(dots_alone(".."@));
    let base = base_name(name);
    lemma_base_name(name);
    lemma_without_forbidden(base);
    let a = without_forbidden(base);
    lemma_trim_harmless(a);
    lemma_trim_harmless(crate::text::trim_start(a));
    let b = trim(a);
    lemma_trim_harmless(b);
    let c = no_lead_dots(b);
    lemma_trim_harmless(c);
    let d = no_end_dots(c);
    lemma_trim_harmless(d);
    lemma_trim_harmless(crate::text::trim_start(d));
    if dots_alone(clean_name(name)) {
        let t = safe_name(name, now);
        let n = dec_int(now as int);
        reveal_strlit("recv_");
        if now < 0 {
            crate::numbers::lemma_dec_value((-(now as int)) as nat);
        } else {
            crate::numbers::lemma_dec_value(now as nat);
        }
        assert forall|i: int| 0 <= i < t.len() implies #[trigger] t[i] != '/' && t[i] != '\\'
            && !forbidden_char(t[i]) && !control(t[i]) by {
            if i >= 5 {
                assert(t[i] == n[i - 5]);
                if now < 0 && i > 5 {
                    assert(n[i - 5] == dec((-(now as int)) as nat)[i - 6]);
                }
            }
        }
    }
}

/// The place of the dot before the extension of a name; the length where there is
/// no extension, or nothing before it.
pub open spec fn stem_end(name: Seq<char>) -> int {
    let dot = last_at(name, '.');
    if dot > 0 {
        dot
    } else {
        name.len() as int
    }
}

/// The name that is tried after `n` others are taken: the name itself, then with
/// a number, and at last with the time.
pub open spec fn candidate(name: Seq<char>, n: nat, now: i64) -> Seq<char> {
    let k = stem_end(name);
    let stem = name.subrange(0, k);
    let ext = name.subrange(k, name.len() as int);
    if n == 0 {
        name
    } else if n < 1000 {
        stem + " ("@ + dec(n) + ")"@ + ext
    } else {
        stem + "_"@ + dec_int(now as int) + ext
    }
}

/// The name that is tried after `n` others are taken.
pub fn unique_path(name: &str, n: u64, now: i64) -> (r: String)
    ensures
        r@ == candidate(name@, n as nat, now),
{
    if n == 0 {
        return name.to_string();
    }
    let v = chars_of(name);
    let len: usize = v.len();
    let k: usize = match find_last(&v, '.') {
        Some(dot) => if dot > 0 {
            dot
        } else {
            len
        },
        None => len,
    };
    let mut t = string_of_range(&v, 0, k);
    if n < 1000 {
        t.append(" (");
        t.append(decimal(n).as_str());
        t.append(")");
    } else {
        t.append("_");
        t.append(decimal_i64(now).as_str());
    }
    t.append(string_of_range(&v, k, len).as_str());
    t
}

/// Whether another name is to be tried after the one with `n` others before it,
/// `taken` being whether that one is taken: the last one is used in any case.
pub fn try_another(n: u64, taken: bool) -> (r: bool)
    ensures
        r == (taken && n < 1000),
{
    taken && n < 1000
}

/// Whatever name is tried for a received file, it stays in its directory.
pub proof fn candidates_stay_inside(name: Seq<char>, n: nat, now: i64)
    requires
        harmless(name),
        name.len() > 0,
        name != "."@,
        name != ".."@,
    ensures
        harmless(candidate(name, n, now)),
        candidate(name, n, now).len() > 0,
        candidate(name, n, now) != "."@,
        candidate(name, n, now) != ".."@,
{
    reveal_strlit(".");
    reveal_strlit("..");
    let k = stem_end(name);
    lemma_last_at_bounds(name);
    let stem = name.subrange(0, k);
    let ext = name.subrange(k, name.len() as int);
    lemma_part_harmless(name, 0, k);
    lemma_part_harmless(name, k, name.len() as int);
    let c = candidate(name, n, now);
    if n > 0 {
        reveal_strlit(" (");
        reveal_strlit(")");
        reveal_strlit("_");
        let d = if n < 1000 {
            dec(n)
        } else {
            dec_int(now as int)
        };
        let lead: int = if n < 1000 {
            2
        } else {
            1
        };
        if n < 1000 {
            crate::numbers::lemma_dec_value(n);
        } else if now < 0 {
            crate::numbers::lemma_dec_value((-(now as int)) as nat);
        } else {
            crate::numbers::lemma_dec_value(now as nat);
        }
        assert forall|i: int| 0 <= i < d.len() implies '0' <= #[trigger] d[i] <= '9' || d[i]
            == '-' by {
            if n >= 1000 && now < 0 && i > 0 {
                assert(d[i] == dec((-(now as int)) as nat)[i - 1]);
            }
        }
        assert forall|i: int| 0 <= i < c.len() implies #[trigger] c[i] != '/' && c[i] != '\\'
            && !forbidden_char(c[i]) && !control(c[i]) by {
            if i < k {
                assert(c[i] == stem[i]);
            } else if k + lead <= i < k + lead + d.len() {
                assert(c[i] == d[i - k - lead]);
            } else if n < 1000 && i > k + lead + d.len() {
                assert(c[i] == ext[i - k - lead - d.len() - 1]);
            } else if n >= 1000 && i >= k + lead + d.len() {
                assert(c[i] == ext[i - k - lead - d.len()]);
            }
        }
        assert(c[k + lead - 1] == if n < 1000 {
            '('
        } else {
            '_'
        });
    }
}

/// Two different tries with a number are two different names.
pub proof fn numbered_names_differ(name: Seq<char>, a: nat, b: nat, now: i64)
    requires
        0 < a < 1000,
        0 < b < 1000,
        a != b,
    ensures
        candidate(name, a, now) != candidate(name, b, now),
{
    if candidate(name, a, now) == candidate(name, b, now) {
        let k = stem_end(name);
        lemma_last_at_bounds(name);
        let stem = name.subrange(0, k);
        let ext = name.subrange(k, name.len() as int);
        reveal_strlit(" (");
        reveal_strlit(")");
        let x = candidate(name, a, now);
        let y = candidate(name, b, now);
        let da = dec(a);
        let db = dec(b);
        assert(stem.len() == k);
        assert(x.len() == k + 2 + da.len() + 1 + ext.len());
        assert(y.len() == k + 2 + db.len() + 1 + ext.len());
        assert(x.subrange(k + 2, k + 2 + da.len()) =~= da);
        assert(y.subrange(k + 2, k + 2 + db.len()) =~= db);
        crate::numbers::lemma_dec_value(a);
        crate::numbers::lemma_dec_value(b);
    }
}

proof fn lemma_last_at_bounds(s: Seq<char>)
    ensures
        -1 <= last_at(s, '.') < s.len(),
    decreases s.len(),
{
    if s.len() > 0 {
        lemma_last_at_bounds(s.drop_last());
    }
}

// ---------- receiving: the request ----------

/// A file that another device wants to send.
pub struct Incoming {
    /// The name under which it would be kept.
    pub name: String,
    /// Its size.
    pub total: u64,
    /// The number with which it is encrypted; none where it is not.
    pub nonce: Option<u64>,
    /// The code with which it is encrypted: that of this device.
    pub token: String,
    /// The name of the sender.
    pub peer: String,
}

/// The size of a body, as the headers give it.
pub open spec fn body_size(h: Map<Seq<char>, Seq<char>>) -> Option<nat> {
    match header(h, "content-length"@) {
        Some(v) => parse_unsigned(v, 10, u64::MAX as nat),
        None => None,
    }
}

/// The number with which a body is encrypted, as the headers give it.
pub open spec fn body_nonce(h: Map<Seq<char>, Seq<char>>) -> Option<nat> {
    match header(h, "x-enc-nonce"@) {
        Some(v) => parse_unsigned(v, 16, u64::MAX as nat),
        None => None,
    }
}

/// The name of a sender: the one that it gives, or else the one under which it is
/// paired, or else its address.
pub open spec fn peer_name(
    s: SettingsView,
    h: Map<Seq<char>, Seq<char>>,
    ip: Seq<char>,
) -> Seq<char> {
    let known = match header(h, "x-device-id"@) {
        Some(id) => if s.paired.contains_key(id) {
            s.paired[id].name
        } else {
            ip
        },
        None => ip,
    };
    match header(h, "x-device-name"@) {
        Some(n) => if decoded(n).len() > 0 {
            decoded(n)
        } else {
            known
        },
        None => known,
    }
}

/// The name of a file, as the query gives it.
pub open spec fn asked_name(query: Map<Seq<char>, Seq<char>>) -> Seq<char> {
    match header(query, "name"@) {
        Some(n) => n,
        None => seq![],
    }
}

fn sender_name(s: &LanSettings, h: &StrMap<String>, ip: &str) -> (r: String)
    ensures
        r@ == peer_name(s@, h@, ip@),
{
    match h.get("x-device-name") {
        Some(n) => {
            let d = url_decode(n.as_str());
            if chars_of(d.as_str()).len() > 0 {
                return d;
            }
        },
        None => {},
    }
    match h.get("x-device-id") {
        Some(id) => match s.paired.get(id.as_str()) {
            Some(d) => d.name.clone(),
            None => ip.to_string(),
        },
        None => ip.to_string(),
    }
}

/// A device wants to send a file. No pairing is needed, but a blocked device is
/// refused, and so is one that does not give the size.
pub fn handle_recv(
    s: &LanSettings,
    h: &StrMap<String>,
    query: &StrMap<String>,
    ip: &str,
    now: i64,
) -> (r: Result<Incoming, Reply>)
    ensures
        match block_refusal(s@, h@) {
            Some(e) => r is Err && r->Err_0@ == e,
            None => match body_size(h@) {
                None => r is Err && r->Err_0@ == bad_request(),
                Some(n) => r is Ok && {
                    let i = r->Ok_0;
                    &&& i.total == n
                    &&& i.name@ == safe_name(asked_name(query@), now)
                    &&& match body_nonce(h@) {
                        Some(x) => i.nonce is Some && i.nonce->0 == x,
                        None => i.nonce is None,
                    }
                    &&& i.token@ == s@.pairing_token
                    &&& i.peer@ == peer_name(s@, h@, ip@)
                },
            },
        },
{
    match reject_if_blocked(s, h) {
        Some(e) => {
            return Err(e);
        },
        None => {},
    }
    let total: Option<u64> = match h.get("content-length") {
        Some(v) => read_decimal(v.as_str(), u64::MAX),
        None => None,
    };
    let raw = match query.get("name") {
        Some(n) => n.clone(),
        None => String::new(),
    };
    assert(raw@ =~= asked_name(query@));
    let nonce: Option<u64> = match h.get("x-enc-nonce") {
        Some(v) => read_unsigned(&chars_of(v.as_str()), 16, u64::MAX),
        None => None,
    };
    match total {
        None => Err(Reply { code: 400, body: "{\"error\":\"bad_request\"}".to_string() }),
        Some(n) => Ok(
            Incoming {
                name: sanitize_file_name(raw.as_str(), now),
                total: n,
                nonce: nonce,
                token: s.pairing_token.clone(),
                peer: sender_name(s, h, ip),
            },
        ),
    }
}

/// The refusal of a file, from the answer of the user; none where it is taken.
/// With automatic consent the user is not asked.
pub fn recv_answered(auto_accept: bool, answer: Option<bool>) -> (r: Option<Reply>)
    ensures
        crate::server::opt_reply(r) == (if auto_accept || answer == Some(true) {
            None
        } else if answer == Some(false) {
            Some(reply(403, "{\"error\":\"rejected\"}"@))
        } else {
            Some(reply(409, "{\"error\":\"confirm_timeout\"}"@))
        }),
{
    if auto_accept {
        return None;
    }
    match answer {
        Some(yes) => if yes {
            None
        } else {
            Some(Reply { code: 403, body: "{\"error\":\"rejected\"}".to_string() })
        },
        None => Some(Reply { code: 409, body: "{\"error\":\"confirm_timeout\"}".to_string() }),
    }
}

/// The files about which the user is being asked: the number of the request by
/// its name.
pub struct RecvQueue {
    pub pending: StrMap<u64>,
}

impl RecvQueue {
    /// Nothing is asked.
    pub fn new() -> (r: Self)
        ensures
            r.pending@ == Map::<Seq<char>, u64>::empty(),
    {
        RecvQueue { pending: StrMap::new() }
    }

    /// Puts a file before the user.
    pub fn ask_recv_approval(&mut self, request_id: &str, ticket: u64)
        ensures
            final(self).pending@ == old(self).pending@.insert(request_id@, ticket),
    {
        self.pending.insert(request_id.to_string(), ticket);
    }

    /// Takes back what the user was asked and hands over its number: the answer
    /// goes to that request, or its time is up.
    pub fn transfer_respond_recv(&mut self, request_id: &str) -> (r: Option<u64>)
        ensures
            final(self).pending@ == old(self).pending@.remove(request_id@),
            r == (if old(self).pending@.contains_key(request_id@) {
                Some(old(self).pending@[request_id@])
            } else {
                None
            }),
    {
        self.pending.remove(request_id)
    }
}

/// The number under which the user is asked about a file.
pub fn recv_request_id(random: u64) -> (r: String)
    ensures
        r@ == hex(random as nat, 16),
{
    hexadecimal(random, 16)
}

/// The reply where a file could not be taken.
pub fn recv_failed(e: &str) -> (r: Reply)
    ensures
        r@ == reply(500, error_body(e@)),
{
    let mut b = "{\"error\":\"".to_string();
    b.append(e);
    b.append("\"}");
    Reply { code: 500, body: b }
}

/// Whether `r` is the reply to a file that was taken: the name under which it is kept.
pub open spec fn done_reply(r: Reply, saved_as: Seq<char>) -> bool {
    let m = seq![("result"@, JsonView::Text("ok"@)), ("savedAs"@, JsonView::Text(saved_as))];
    r@ == reply(200, object_json(m)) && holds_members(encode_utf8(r.body@), m)
}

/// The reply to a file that was taken: the name under which it is kept.
pub fn recv_done(saved_as: &str) -> (r: Reply)
    ensures
        done_reply(r, saved_as@),
{
    let mut m: Vec<(String, Json)> = Vec::new();
    m.push(field("result", Json::Text("ok".to_string())));
    m.push(field("savedAs", Json::Text(saved_as.to_string())));
    assert(members(m@) =~= seq![
        ("result"@, JsonView::Text("ok"@)),
        ("savedAs"@, JsonView::Text(saved_as@)),
    ]);
    Reply { code: 200, body: object_text(&m) }
}

/// How a receipt ends.
pub enum RecvEnd {
    /// The file is kept: it goes on record, and the sender is told.
    Kept(TransferDto, Reply),
    /// The file at this path is removed, and the sender is told; nothing goes on record.
    Dropped(String, Reply),
}

/// Ends the receipt of a file under the name `saved`, at `path`: `result` says whether
/// all of it came in and was written, or else what went wrong.
pub fn recv_closed(
    i: &Incoming,
    saved: &str,
    path: &str,
    result: &Result<(), String>,
    now: i64,
) -> (r: RecvEnd)
    ensures
        match result {
            Ok(_) => r matches RecvEnd::Kept(t, a) && received(
                t,
                i.peer@,
                saved@,
                path@,
                i.total,
                now,
            ) && done_reply(a, saved@),
            Err(e) => r matches RecvEnd::Dropped(p, a) && p@ == path@ && a@ == reply(
                500,
                error_body(e@),
            ),
        },
{
    match result {
        Ok(_) => RecvEnd::Kept(
            record_transfer(i.peer.as_str(), saved, path, i.total, now),
            recv_done(saved),
        ),
        Err(e) => RecvEnd::Dropped(path.to_string(), recv_failed(e.as_str())),
    }
}

/// How much of a refused file is still to be read, `already` being what has come
/// in with its head.
pub fn drain_body(already: usize, total: u64) -> (r: u64)
    ensures
        r == ({
            let left = if total > already {
                total - already
            } else {
                0
            };
            if left > DRAIN_CAP {
                DRAIN_CAP as int
            } else {
                left
            }
        }),
        total <= already ==> r == 0,
        0 < total - already <= 64 * 1024 * 1024 ==> r == total - already,
        total - already > 64 * 1024 * 1024 ==> r == 64 * 1024 * 1024,
{
    let got: u64 = already as u64;
    let left: u64 = if total > got {
        total - got
    } else {
        0
    };
    if left > DRAIN_CAP {
        DRAIN_CAP
    } else {
        left
    }
}

// ---------- blocks ----------

/// The bytes of a file on their way, cut so that every piece but the last starts
/// and ends at a block of 8 bytes: each byte is then encrypted and decrypted by
/// its place in the file, however the network cuts it.
pub struct Blocks {
    /// What has come in and not gone on.
    pub pending: Vec<u8>,
    /// How much has gone on.
    pub passed: u64,
    /// How much goes on at most.
    pub limit: u64,
}

/// The view of bytes on their way.
#[verifier::ext_equal]
pub struct BlocksView {
    pub pending: Seq<u8>,
    pub passed: int,
    pub limit: int,
}

impl View for Blocks {
    type V = BlocksView;

    open spec fn view(&self) -> BlocksView {
        BlocksView {
            pending: self.pending@,
            passed: self.passed as int,
            limit: self.limit as int,
        }
    }
}

impl BlocksView {
    /// What went on so far ends at a block, unless it is all.
    pub open spec fn wf(self) -> bool {
        &&& 0 <= self.passed <= self.limit <= u64::MAX
        &&& self.passed % 8 == 0 || self.passed == self.limit || self.pending.len() == 0
    }

    /// Whether more has to come in.
    pub open spec fn short(self) -> bool {
        self.passed + self.pending.len() < self.limit
    }

    /// How much goes on next: all of it once it is complete, and whole blocks before.
    pub open spec fn ready(self, end: bool) -> int {
        let left = self.limit - self.passed;
        let n = if end || !self.short() {
            self.pending.len() as int
        } else {
            self.pending.len() - self.pending.len() % 8
        };
        if n > left {
            left
        } else {
            n
        }
    }

    /// The state once more has come in.
    pub open spec fn fed(self, more: Seq<u8>) -> BlocksView {
        BlocksView { pending: self.pending + more, ..self }
    }

    /// The piece that goes on next.
    pub open spec fn piece(self, end: bool) -> Seq<u8> {
        self.pending.take(self.ready(end))
    }

    /// The state once a piece has gone on.
    pub open spec fn cut(self, end: bool) -> BlocksView {
        BlocksView {
            pending: self.pending.skip(self.ready(end)),
            passed: self.passed + self.ready(end),
            ..self
        }
    }
}

impl Blocks {
    /// Bytes on their way: `start` has come in already, and `limit` bytes go on at most.
    pub fn new(start: Vec<u8>, limit: u64) -> (r: Self)
        ensures
            r@ == (BlocksView { pending: start@, passed: 0, limit: limit as int }),
            r@.wf(),
    {
        Blocks { pending: start, passed: 0, limit: limit }
    }

    /// Whether more has to come in.
    pub fn wants_more(&self) -> (r: bool)
        requires
            self@.wf(),
        ensures
            r == self@.short(),
    {
        (self.pending.len() as u64) < self.limit - self.passed
    }

    /// Takes in more.
    pub fn feed(&mut self, more: &[u8])
        requires
            old(self)@.wf(),
            old(self)@.passed % 8 == 0,
        ensures
            final(self)@ == old(self)@.fed(more@),
            final(self)@.wf(),
            final(self)@.passed % 8 == 0,
    {
        append_bytes(&mut self.pending, more);
    }

    /// Hands on the next piece, and the number of the block at which it starts;
    /// `end` says that no more will come in.
    pub fn take(&mut self, end: bool) -> (r: (Vec<u8>, u64))
        requires
            old(self)@.wf(),
            old(self)@.passed % 8 == 0,
        ensures
            r.0@ == old(self)@.piece(end),
            r.1 * 8 == old(self)@.passed,
            final(self)@ == old(self)@.cut(end),
            final(self)@.wf(),
            !end && old(self)@.short() ==> final(self)@.passed % 8 == 0,
    {
        let n: usize = self.pending.len();
        let left: u64 = self.limit - self.passed;
        let short = (n as u64) < left;
        let whole: usize = if end || !short {
            n
        } else {
            n - n % 8
        };
        let k: usize = if whole as u64 > left {
            left as usize
        } else {
            whole
        };
        let block: u64 = self.passed / 8;
        let mut rest: Vec<u8> = Vec::new();
        let mut i: usize = k;
        assert(rest@ =~= self.pending@.subrange(k as int, k as int));
        while i < n
            invariant
                k <= i <= n,
                n == self.pending@.len(),
                rest@ == self.pending@.subrange(k as int, i as int),
            decreases n - i,
        {
            rest.push(self.pending[i]);
            assert(rest@ =~= self.pending@.subrange(k as int, i + 1));
            i = i + 1;
        }
        assert(rest@ =~= self.pending@.skip(k as int));
        let mut piece: Vec<u8> = Vec::new();
        std::mem::swap(&mut piece, &mut self.pending);
        piece.truncate(k);
        self.pending = rest;
        self.passed = self.passed + k as u64;
        (piece, block)
    }

    /// Whether all has gone on.
    pub fn finished(&self) -> (r: bool)
        ensures
            r == (self@.passed >= self@.limit),
    {
        self.passed >= self.limit
    }
}

/// One step of receiving a body: `read` is what was read where more was wanted,
/// and nothing where the sender has closed the connection. Hands over the piece to
/// be written with the number of the block at which it starts, and whether it is
/// the last.
pub fn recv_body(b: &mut Blocks, read: &[u8]) -> (r: Result<(Vec<u8>, u64, bool), String>)
    requires
        old(b)@.wf(),
        old(b)@.passed % 8 == 0,
    ensures
        ({
            let v = old(b)@;
            let f = if v.short() {
                v.fed(read@)
            } else {
                v
            };
            if v.short() && read@.len() == 0 {
                r matches Err(e) && e@ == "连接提前关闭，文件不完整"@ && final(b)@ == v
            } else {
                &&& r matches Ok((piece, block, last))
                &&& piece@ == f.piece(false)
                &&& block * 8 == v.passed
                &&& final(b)@ == f.cut(false)
                &&& last == (final(b)@.passed >= v.limit)
                &&& last == !f.short()
                &&& final(b)@.wf()
                &&& !last ==> final(b)@.passed % 8 == 0
            }
        }),
{
    if b.wants_more() {
        if read.len() == 0 {
            return Err(body_incomplete());
        }
        b.feed(read);
    }
    let (piece, block) = b.take(false);
    let last = b.finished();
    Ok((piece, block, last))
}

/// One step of sending a file: `read` is what was read of it, and nothing at its
/// end. Hands over the piece to be sent with the number of the block at which it
/// starts.
pub fn send_piece(b: &mut Blocks, read: &[u8]) -> (r: (Vec<u8>, u64))
    requires
        old(b)@.wf(),
        old(b)@.passed % 8 == 0,
        old(b)@.passed + old(b)@.pending.len() + read@.len() < old(b)@.limit,
    ensures
        ({
            let v = old(b)@;
            let f = v.fed(read@);
            let end = read@.len() == 0;
            &&& r.0@ == f.piece(end)
            &&& r.1 * 8 == v.passed
            &&& final(b)@ == f.cut(end)
            &&& final(b)@.wf()
            &&& !end ==> final(b)@.passed % 8 == 0
        }),
{
    b.feed(read);
    let end = read.len() == 0;
    b.take(end)
}

/// What a receiver writes of a body, step by step, where `pieces` is what it reads.
pub open spec fn written(v: BlocksView, pieces: Seq<Seq<u8>>) -> Seq<u8>
    decreases pieces.len(),
{
    if !v.short() {
        v.piece(false)
    } else if pieces.len() == 0 {
        seq![]
    } else {
        let f = v.fed(pieces[0]);
        f.piece(false) + (if f.short() {
            written(f.cut(false), pieces.skip(1))
        } else {
            seq![]
        })
    }
}

/// All that has come in.
pub open spec fn joined_pieces(start: Seq<u8>, pieces: Seq<Seq<u8>>) -> Seq<u8>
    decreases pieces.len(),
{
    if pieces.len() == 0 {
        start
    } else {
        joined_pieces(start + pieces[0], pieces.skip(1))
    }
}

proof fn lemma_joined_prefix(a: Seq<u8>, b: Seq<u8>, pieces: Seq<Seq<u8>>)
    ensures
        joined_pieces(a + b, pieces) == a + joined_pieces(b, pieces),
    decreases pieces.len(),
{
    if pieces.len() > 0 {
        assert(a + b + pieces[0] =~= a + (b + pieces[0]));
        lemma_joined_prefix(a, b + pieces[0], pieces.skip(1));
    }
}

/// What is written of a body is what was sent, no matter how it was cut on its
/// way, and no more than was announced.
pub proof fn body_arrives(v: BlocksView, pieces: Seq<Seq<u8>>)
    requires
        v.wf(),
        v.passed % 8 == 0,
        v.passed + joined_pieces(v.pending, pieces).len() >= v.limit,
    ensures
        written(v, pieces) == joined_pieces(v.pending, pieces).take(v.limit - v.passed),
    decreases pieces.len(),
{
    let all = joined_pieces(v.pending, pieces);
    if !v.short() {
        lemma_joined_starts(v.pending, pieces);
        assert(v.piece(false) =~= all.take(v.limit - v.passed));
    } else {
        let f = v.fed(pieces[0]);
        let p = f.piece(false);
        let w = f.cut(false);
        assert(f.pending =~= p + w.pending);
        if f.short() {
            lemma_joined_prefix(p, w.pending, pieces.skip(1));
            body_arrives(w, pieces.skip(1));
            assert(p + joined_pieces(w.pending, pieces.skip(1)).take(w.limit - w.passed)
                =~= all.take(v.limit - v.passed));
        } else {
            lemma_joined_starts(f.pending, pieces.skip(1));
            assert(written(v, pieces) =~= p);
            assert(p =~= all.take(v.limit - v.passed));
        }
    }
}

proof fn lemma_joined_starts(start: Seq<u8>, pieces: Seq<Seq<u8>>)
    ensures
        joined_pieces(start, pieces).len() >= start.len(),
        joined_pieces(start, pieces).take(start.len() as int) == start,
        forall|k: int|
            0 <= k <= start.len() ==> #[trigger] joined_pieces(start, pieces).take(k) == start.take(
                k,
            ),
    decreases pieces.len(),
{
    let all = joined_pieces(start, pieces);
    if pieces.len() > 0 {
        let next = start + pieces[0];
        lemma_joined_starts(next, pieces.skip(1));
        assert(all.take(start.len() as int) == next.take(start.len() as int));
        assert(next.take(start.len() as int) =~= start);
    } else {
        assert(start.take(start.len() as int) =~= start);
    }
    assert forall|k: int| 0 <= k <= start.len() implies #[trigger] all.take(k) == start.take(k) by {
        assert(all.take(k) =~= all.take(start.len() as int).take(k));
    }
}

/// What a sender hands on of a file, step by step, where `pieces` is what it reads.
pub open spec fn sent_out(v: BlocksView, pieces: Seq<Seq<u8>>) -> Seq<u8>
    decreases pieces.len(),
{
    if pieces.len() == 0 {
        v.piece(true)
    } else {
        let f = v.fed(pieces[0]);
        f.piece(false) + sent_out(f.cut(false), pieces.skip(1))
    }
}

/// The state once a file has gone out.
pub open spec fn after_sending(v: BlocksView, pieces: Seq<Seq<u8>>) -> BlocksView
    decreases pieces.len(),
{
    if pieces.len() == 0 {
        v.cut(true)
    } else {
        after_sending(v.fed(pieces[0]).cut(false), pieces.skip(1))
    }
}

/// What goes out of a file is the file, no matter in what pieces it was read, and
/// what has gone on in the end is its length.
pub proof fn file_goes_out(v: BlocksView, pieces: Seq<Seq<u8>>)
    requires
        v.wf(),
        v.passed % 8 == 0,
        v.passed + joined_pieces(v.pending, pieces).len() < v.limit,
    ensures
        sent_out(v, pieces) == joined_pieces(v.pending, pieces),
        after_sending(v, pieces).passed == v.passed + joined_pieces(v.pending, pieces).len(),
    decreases pieces.len(),
{
    if pieces.len() == 0 {
        assert(v.piece(true) =~= v.pending);
    } else {
        let f = v.fed(pieces[0]);
        let p = f.piece(false);
        let w = f.cut(false);
        lemma_joined_starts(f.pending, pieces.skip(1));
        assert(f.pending =~= p + w.pending);
        lemma_joined_prefix(p, w.pending, pieces.skip(1));
        file_goes_out(w, pieces.skip(1));
    }
}

// ---------- enciphered files ----------

/// A piece that starts at the block number `block`, each byte combined with the byte
/// of the key stream at its place: `key` gives the bytes of the stream by the number
/// of the block and the place in it.
pub open spec fn combined(
    key: spec_fn(int, int) -> u8,
    block: int,
    piece: Seq<u8>,
) -> Seq<u8> {
    Seq::new(piece.len(), |i: int| piece[i] ^ key(block + i / 8, i % 8))
}

/// What a sender hands on of a file that it enciphers piece by piece.
pub open spec fn sent_enciphered(
    key: spec_fn(int, int) -> u8,
    v: BlocksView,
    pieces: Seq<Seq<u8>>,
) -> Seq<u8>
    decreases pieces.len(),
{
    if pieces.len() == 0 {
        combined(key, v.passed / 8, v.piece(true))
    } else {
        let f = v.fed(pieces[0]);
        combined(key, f.passed / 8, f.piece(false)) + sent_enciphered(
            key,
            f.cut(false),
            pieces.skip(1),
        )
    }
}

/// What a receiver writes of a body that it deciphers piece by piece.
pub open spec fn written_deciphered(
    key: spec_fn(int, int) -> u8,
    v: BlocksView,
    pieces: Seq<Seq<u8>>,
) -> Seq<u8>
    decreases pieces.len(),
{
    if !v.short() {
        combined(key, v.passed / 8, v.piece(false))
    } else if pieces.len() == 0 {
        seq![]
    } else {
        let f = v.fed(pieces[0]);
        combined(key, f.passed / 8, f.piece(false)) + (if f.short() {
            written_deciphered(key, f.cut(false), pieces.skip(1))
        } else {
            seq![]
        })
    }
}

proof fn lemma_combined_parts(
    key: spec_fn(int, int) -> u8,
    block: int,
    a: Seq<u8>,
    b: Seq<u8>,
)
    requires
        a.len() % 8 == 0,
    ensures
        combined(key, block, a + b) == combined(key, block, a) + combined(
            key,
            block + a.len() as int / 8,
            b,
        ),
{
    let n = a.len() as int;
    let l = combined(key, block, a + b);
    let r = combined(key, block, a) + combined(key, block + n / 8, b);
    assert forall|i: int| 0 <= i < l.len() implies l[i] == r[i] by {
        if i >= n {
            let j = i - n;
            assert(i / 8 == n / 8 + j / 8);
            assert(i % 8 == j % 8);
        }
    }
    assert(l =~= r);
}

proof fn lemma_combined_twice(key: spec_fn(int, int) -> u8, block: int, a: Seq<u8>)
    ensures
        combined(key, block, combined(key, block, a)) == a,
{
    let l = combined(key, block, combined(key, block, a));
    assert forall|i: int| 0 <= i < a.len() implies l[i] == a[i] by {
        let x = a[i];
        let k = key(block + i / 8, i % 8);
        assert((x ^ k) ^ k == x) by (bit_vector);
    }
    assert(l =~= a);
}

/// A file that is enciphered piece by piece goes out enciphered with one key stream
/// from its start, no matter in what pieces it was read.
pub proof fn enciphered_file_goes_out(
    key: spec_fn(int, int) -> u8,
    v: BlocksView,
    pieces: Seq<Seq<u8>>,
)
    requires
        v.wf(),
        v.passed % 8 == 0,
        v.passed + joined_pieces(v.pending, pieces).len() < v.limit,
    ensures
        sent_enciphered(key, v, pieces) == combined(
            key,
            v.passed / 8,
            joined_pieces(v.pending, pieces),
        ),
    decreases pieces.len(),
{
    if pieces.len() == 0 {
        assert(v.piece(true) =~= v.pending);
    } else {
        let f = v.fed(pieces[0]);
        let p = f.piece(false);
        let w = f.cut(false);
        lemma_joined_starts(f.pending, pieces.skip(1));
        assert(f.pending =~= p + w.pending);
        lemma_joined_prefix(p, w.pending, pieces.skip(1));
        enciphered_file_goes_out(key, w, pieces.skip(1));
        assert(p.len() % 8 == 0);
        assert(w.passed / 8 == v.passed / 8 + p.len() as int / 8);
        lemma_combined_parts(key, v.passed / 8, p, joined_pieces(w.pending, pieces.skip(1)));
    }
}

/// A body that is deciphered piece by piece is deciphered with one key stream from
/// its start, no matter in what pieces it came in.
pub proof fn enciphered_body_arrives(
    key: spec_fn(int, int) -> u8,
    v: BlocksView,
    pieces: Seq<Seq<u8>>,
)
    requires
        v.wf(),
        v.passed % 8 == 0,
        v.passed + joined_pieces(v.pending, pieces).len() >= v.limit,
    ensures
        written_deciphered(key, v, pieces) == combined(
            key,
            v.passed / 8,
            joined_pieces(v.pending, pieces).take(v.limit - v.passed),
        ),
    decreases pieces.len(),
{
    let all = joined_pieces(v.pending, pieces);
    if !v.short() {
        lemma_joined_starts(v.pending, pieces);
        assert(v.piece(false) =~= all.take(v.limit - v.passed));
    } else {
        let f = v.fed(pieces[0]);
        let p = f.piece(false);
        let w = f.cut(false);
        assert(f.pending =~= p + w.pending);
        if f.short() {
            let rest = joined_pieces(w.pending, pieces.skip(1)).take(w.limit - w.passed);
            lemma_joined_prefix(p, w.pending, pieces.skip(1));
            enciphered_body_arrives(key, w, pieces.skip(1));
            assert(p + rest =~= all.take(v.limit - v.passed));
            assert(p.len() % 8 == 0);
            assert(w.passed / 8 == v.passed / 8 + p.len() as int / 8);
            lemma_combined_parts(key, v.passed / 8, p, rest);
        } else {
            lemma_joined_starts(f.pending, pieces.skip(1));
            assert(written_deciphered(key, v, pieces) =~= combined(key, v.passed / 8, p));
            assert(p =~= all.take(v.limit - v.passed));
        }
    }
}

/// A file that is sent enciphered and received with the same key stream is the file
/// again, whatever the key stream, in whatever pieces the sender reads the file, and
/// in whatever pieces the receiver reads the body: `read` is what the one reads,
/// `start` and `came` what the other does.
pub proof fn enciphered_file_comes_back(
    key: spec_fn(int, int) -> u8,
    read: Seq<Seq<u8>>,
    start: Seq<u8>,
    came: Seq<Seq<u8>>,
)
    requires
        joined_pieces(seq![], read).len() < u64::MAX,
        joined_pieces(start, came) == sent_enciphered(
            key,
            (BlocksView { pending: seq![], passed: 0, limit: u64::MAX as int }),
            read,
        ),
    ensures
        written_deciphered(
            key,
            (BlocksView {
                pending: start,
                passed: 0,
                limit: joined_pieces(seq![], read).len() as int,
            }),
            came,
        ) == joined_pieces(seq![], read),
{
    let file = joined_pieces(seq![], read);
    let from = BlocksView { pending: seq![], passed: 0, limit: u64::MAX as int };
    let to = BlocksView { pending: start, passed: 0, limit: file.len() as int };
    enciphered_file_goes_out(key, from, read);
    enciphered_body_arrives(key, to, came);
    let body = joined_pieces(start, came);
    assert(body.take(file.len() as int) =~= body);
    lemma_combined_twice(key, 0, file);
}

/// What is told where a body stops before its end.
pub fn body_incomplete() -> (r: String)
    ensures
        r@ == "连接提前关闭，文件不完整"@,
{
    "连接提前关闭，文件不完整".to_string()
}

// ---------- sending ----------

/// Where a file is sent: the code is known of a paired device, and the file is
/// then encrypted.
pub struct SendTarget {
    pub host: String,
    pub port: u16,
    pub name: String,
    pub token: Option<String>,
}

/// The view of where a file is sent.
#[verifier::ext_equal]
pub struct TargetView {
    pub host: Seq<char>,
    pub port: u16,
    pub name: Seq<char>,
    pub token: Option<Seq<char>>,
}

impl View for SendTarget {
    type V = TargetView;

    open spec fn view(&self) -> TargetView {
        TargetView {
            host: self.host@,
            port: self.port,
            name: self.name@,
            token: opt_text(self.token),
        }
    }
}

/// The code of a paired device.
pub open spec fn kept_token(s: SettingsView, id: Seq<char>) -> Option<Seq<char>> {
    if s.paired.contains_key(id) {
        s.paired[id].token
    } else {
        None
    }
}

fn token_of(s: &LanSettings, id: &str) -> (r: Option<String>)
    ensures
        opt_text(r) == kept_token(s@, id@),
{
    match s.paired.get(id) {
        Some(p) => copy_text(&p.token),
        None => None,
    }
}

/// Where to send for a device that is known.
pub open spec fn target_by_id(v: SharedView, id: Seq<char>) -> Result<TargetView, Seq<char>> {
    if shut_out(v.settings, id) {
        Err("该设备在黑名单中"@)
    } else {
        match known_device(v, id) {
            None => Err("设备不在线"@),
            Some(d) => match d.host {
                None => Err("设备离线"@),
                Some(h) => Ok(
                    TargetView {
                        host: h,
                        port: d.port,
                        name: d.name,
                        token: kept_token(v.settings, id),
                    },
                ),
            },
        }
    }
}

/// The view of where to send, or why not.
pub open spec fn target_view(r: Result<SendTarget, String>) -> Result<TargetView, Seq<char>> {
    match r {
        Ok(t) => Ok(t@),
        Err(e) => Err(e@),
    }
}

/// Where to send for a device that is known: its newest address, and the code
/// with which it is paired, if it is.
pub fn resolve_by_id(shared: &LanShared, id: &str) -> (r: Result<SendTarget, String>)
    ensures
        target_view(r) == target_by_id(shared@, id@),
{
    if is_shut_out(&shared.settings, id) {
        return Err("该设备在黑名单中".to_string());
    }
    match find_device(shared, id) {
        None => Err("设备不在线".to_string()),
        Some(d) => match &d.host {
            None => Err("设备离线".to_string()),
            Some(h) => Ok(
                SendTarget {
                    host: h.clone(),
                    port: d.port,
                    name: d.name.clone(),
                    token: token_of(&shared.settings, id),
                },
            ),
        },
    }
}

/// What comes of the answer of an address; none where the next port is to be asked.
pub open spec fn target_by_ip(
    s: SettingsView,
    ip: Seq<char>,
    port: u16,
    answer: Result<Seq<u8>, ErrView>,
) -> Option<Result<TargetView, Seq<char>>> {
    match answer {
        Ok(doc) => {
            let id = match text_member(doc, "deviceId"@) {
                Some(id) => id,
                None => seq![],
            };
            if id.len() > 0 && id == s.device_id {
                Some(Err("不能发送给本机"@))
            } else if id.len() > 0 && s.blocked.contains_key(id) {
                Some(Err("该设备在黑名单中"@))
            } else {
                Some(
                    Ok(
                        TargetView {
                            host: ip,
                            port: port,
                            name: match text_member(doc, "name"@) {
                                Some(n) => if n.len() > 0 {
                                    n
                                } else {
                                    ip
                                },
                                None => ip,
                            },
                            token: kept_token(s, id),
                        },
                    ),
                )
            }
        },
        Err(ErrView::Blocked(_)) => Some(Err("你已被对方拉黑，无法发送"@)),
        Err(_) => None,
    }
}

/// Where to send for an address that the user typed, from its answer to the
/// question what it is; none where the next port is to be asked.
pub fn resolve_by_ip(
    s: &LanSettings,
    ip: &str,
    port: u16,
    answer: &Result<Vec<u8>, LanErr>,
) -> (r: Option<Result<SendTarget, String>>)
    ensures
        match r {
            Some(t) => target_by_ip(s@, ip@, port, answer_view(*answer)) == Some(target_view(t)),
            None => target_by_ip(s@, ip@, port, answer_view(*answer)) is None,
        },
{
    match answer {
        Ok(doc) => {
            let id = match get_text(doc.as_slice(), "deviceId") {
                Some(id) => id,
                None => String::new(),
            };
            let ghost gid = match text_member(doc@, "deviceId"@) {
                Some(id) => id,
                None => seq![],
            };
            assert(id@ =~= gid);
            let named = chars_of(id.as_str()).len() > 0;
            if named && same(id.as_str(), s.device_id.as_str()) {
                return Some(Err("不能发送给本机".to_string()));
            }
            if named && s.blocked.contains_key(id.as_str()) {
                return Some(Err("该设备在黑名单中".to_string()));
            }
            let name = match get_text(doc.as_slice(), "name") {
                Some(n) => if chars_of(n.as_str()).len() > 0 {
                    n
                } else {
                    ip.to_string()
                },
                None => ip.to_string(),
            };
            Some(
                Ok(
                    SendTarget {
                        host: ip.to_string(),
                        port: port,
                        name: name,
                        token: token_of(s, id.as_str()),
                    },
                ),
            )
        },
        Err(LanErr::Blocked(_)) => Some(Err("你已被对方拉黑，无法发送".to_string())),
        Err(_) => None,
    }
}

/// What is told where no port of an address answers.
pub fn nobody_there() -> (r: String)
    ensures
        r@ == "未找到设备：请确认 IP 正确且对方应用已启动"@,
{
    "未找到设备：请确认 IP 正确且对方应用已启动".to_string()
}

/// The lines of the head of a file that is sent.
pub open spec fn post_lines(
    s: SettingsView,
    platform: Platform,
    t: TargetView,
    name: Seq<char>,
    total: u64,
    nonce: Option<u64>,
) -> Seq<Seq<char>> {
    let size = dec(total as nat);
    let a = seq![
        "POST /recv?name="@ + encoded(name) + "&size="@ + size + " HTTP/1.1"@,
        "Host: "@ + t.host + ":"@ + dec(t.port as nat),
        "Connection: close"@,
        "Content-Type: application/octet-stream"@,
        "Content-Length: "@ + size,
        "X-Device-Id: "@ + s.device_id,
        "X-Device-Name: "@ + encoded(s.device_name),
        "X-Device-Model: "@ + encoded(model_text(platform)),
    ];
    match nonce {
        Some(n) => a.push("X-Enc: 1"@).push("X-Enc-Nonce: "@ + hex(n as nat, 16)),
        None => a,
    }
}

/// The head of a file that is sent. It is encrypted with the number `nonce`,
/// where there is one.
pub fn send_head(
    s: &LanSettings,
    platform: Platform,
    t: &SendTarget,
    name: &str,
    total: u64,
    nonce: Option<u64>,
) -> (r: String)
    ensures
        r@ == head_text(post_lines(s@, platform, t@, name@, total, nonce)),
{
    let size = decimal(total);
    let mut lines: Vec<String> = Vec::new();
    let mut first = "POST /recv?name=".to_string();
    first.append(url_encode(name).as_str());
    first.append("&size=");
    first.append(size.as_str());
    first.append(" HTTP/1.1");
    lines.push(first);
    let mut at = "Host: ".to_string();
    at.append(t.host.as_str());
    at.append(":");
    at.append(decimal(t.port as u64).as_str());
    lines.push(at);
    lines.push("Connection: close".to_string());
    lines.push("Content-Type: application/octet-stream".to_string());
    let mut len = "Content-Length: ".to_string();
    len.append(size.as_str());
    lines.push(len);
    let mut id = "X-Device-Id: ".to_string();
    id.append(s.device_id.as_str());
    lines.push(id);
    let mut who = "X-Device-Name: ".to_string();
    who.append(url_encode(s.device_name.as_str()).as_str());
    lines.push(who);
    let mut what = "X-Device-Model: ".to_string();
    what.append(url_encode(device_model(platform).as_str()).as_str());
    lines.push(what);
    match nonce {
        Some(n) => {
            lines.push("X-Enc: 1".to_string());
            let mut key = "X-Enc-Nonce: ".to_string();
            key.append(hexadecimal(n, 16).as_str());
            lines.push(key);
        },
        None => {},
    }
    assert(string_views(lines@) =~= post_lines(s@, platform, t@, name@, total, nonce));
    text_of_head(&lines)
}

/// A file that is sent is understood as it was meant: whoever reads the head finds
/// that a file is to be received, its name, its size, and the number with which it
/// is encrypted.
#[verifier::rlimit(60)]
pub proof fn file_head_is_understood(
    s: SettingsView,
    platform: Platform,
    t: TargetView,
    name: Seq<char>,
    total: u64,
    nonce: Option<u64>,
)
    requires
        fits_line(t.host),
        fits_line(s.device_id),
    ensures
        all_lines(post_lines(s, platform, t, name, total, nonce)),
        request_of(lines_text(post_lines(s, platform, t, name, total, nonce))) matches Some(q) && {
            &&& route_of(q.method, q.path) == Route::Receive
            &&& asked_name(query_values(q.query)) == name
            &&& body_size(q.headers) == Some(total as nat)
            &&& body_nonce(q.headers) == (match nonce {
                Some(n) => Some(n as nat),
                None => None,
            })
            &&& header(q.headers, "x-device-id"@) == Some(s.device_id)
        },
{
    reveal_strlit("Host: ");
    reveal_strlit("Host");
    reveal_strlit("host");
    reveal_strlit("Connection: close");
    reveal_strlit("Connection: ");
    reveal_strlit("Connection");
    reveal_strlit("connection");
    reveal_strlit("close");
    reveal_strlit("Content-Type: application/octet-stream");
    reveal_strlit("Content-Type: ");
    reveal_strlit("Content-Type");
    reveal_strlit("content-type");
    reveal_strlit("application/octet-stream");
    reveal_strlit("Content-Length: ");
    reveal_strlit("Content-Length");
    reveal_strlit("content-length");
    reveal_strlit("X-Device-Id: ");
    reveal_strlit("X-Device-Id");
    reveal_strlit("x-device-id");
    reveal_strlit("X-Device-Name: ");
    reveal_strlit("X-Device-Name");
    reveal_strlit("x-device-name");
    reveal_strlit("X-Device-Model: ");
    reveal_strlit("X-Device-Model");
    reveal_strlit("x-device-model");
    reveal_strlit("X-Enc: 1");
    reveal_strlit("X-Enc: ");
    reveal_strlit("X-Enc");
    reveal_strlit("x-enc");
    reveal_strlit("1");
    reveal_strlit("X-Enc-Nonce: ");
    reveal_strlit("X-Enc-Nonce");
    reveal_strlit("x-enc-nonce");
    let lines = post_lines(s, platform, t, name, total, nonce);
    let model = model_text(platform);
    let host_value = t.host + ":"@ + dec(t.port as nat);
    let size = dec(total as nat);
    lemma_post_line(name, total);
    lemma_host_fits(t.host, t.port);
    lemma_plain_fits(s.device_name);
    lemma_plain_fits(model);
    lemma_dec_fits(total as nat);
    assert("Host: "@ =~= "Host"@ + seq![':', ' ']);
    lemma_named_line("Host: "@, "Host"@, host_value);
    assert("Host: "@ + host_value =~= lines[1]);
    assert("Connection: "@ =~= "Connection"@ + seq![':', ' ']);
    lemma_named_line("Connection: "@, "Connection"@, "close"@);
    assert("Connection: "@ + "close"@ =~= lines[2]);
    assert("Content-Type: "@ =~= "Content-Type"@ + seq![':', ' ']);
    lemma_named_line("Content-Type: "@, "Content-Type"@, "application/octet-stream"@);
    assert("Content-Type: "@ + "application/octet-stream"@ =~= lines[3]);
    assert("Content-Length: "@ =~= "Content-Length"@ + seq![':', ' ']);
    lemma_named_line("Content-Length: "@, "Content-Length"@, size);
    assert("X-Device-Id: "@ =~= "X-Device-Id"@ + seq![':', ' ']);
    lemma_named_line("X-Device-Id: "@, "X-Device-Id"@, s.device_id);
    assert("X-Device-Name: "@ =~= "X-Device-Name"@ + seq![':', ' ']);
    lemma_named_line("X-Device-Name: "@, "X-Device-Name"@, encoded(s.device_name));
    assert("X-Device-Model: "@ =~= "X-Device-Model"@ + seq![':', ' ']);
    lemma_named_line("X-Device-Model: "@, "X-Device-Model"@, encoded(model));
    lemma_lower("Host"@, "host"@);
    lemma_lower("Connection"@, "connection"@);
    lemma_lower("Content-Type"@, "content-type"@);
    lemma_lower("Content-Length"@, "content-length"@);
    lemma_lower("X-Device-Id"@, "x-device-id"@);
    lemma_lower("X-Device-Name"@, "x-device-name"@);
    lemma_lower("X-Device-Model"@, "x-device-model"@);
    let e = Seq::<Seq<char>>::empty();
    let h1 = e.push(lines[1]);
    let h2 = h1.push(lines[2]);
    let h3 = h2.push(lines[3]);
    let h4 = h3.push(lines[4]);
    let h5 = h4.push(lines[5]);
    let h6 = h5.push(lines[6]);
    let h7 = h6.push(lines[7]);
    lemma_headers_push(e, lines[1], "host"@, host_value);
    lemma_headers_push(h1, lines[2], "connection"@, "close"@);
    lemma_headers_push(h2, lines[3], "content-type"@, "application/octet-stream"@);
    lemma_headers_push(h3, lines[4], "content-length"@, size);
    lemma_headers_push(h4, lines[5], "x-device-id"@, s.device_id);
    lemma_headers_push(h5, lines[6], "x-device-name"@, encoded(s.device_name));
    lemma_headers_push(h6, lines[7], "x-device-model"@, encoded(model));
    if nonce is Some {
        let n = nonce->0 as nat;
        lemma_hex_fits(n);
        assert("X-Enc: "@ =~= "X-Enc"@ + seq![':', ' ']);
        lemma_named_line("X-Enc: "@, "X-Enc"@, "1"@);
        assert("X-Enc: "@ + "1"@ =~= "X-Enc: 1"@);
        assert("X-Enc-Nonce: "@ =~= "X-Enc-Nonce"@ + seq![':', ' ']);
        lemma_named_line("X-Enc-Nonce: "@, "X-Enc-Nonce"@, hex(n, 16));
        lemma_lower("X-Enc"@, "x-enc"@);
        lemma_lower("X-Enc-Nonce"@, "x-enc-nonce"@);
        let h8 = h7.push("X-Enc: 1"@);
        let h9 = h8.push("X-Enc-Nonce: "@ + hex(n, 16));
        lemma_headers_push(h7, "X-Enc: 1"@, "x-enc"@, "1"@);
        lemma_headers_push(h8, "X-Enc-Nonce: "@ + hex(n, 16), "x-enc-nonce"@, hex(n, 16));
        assert(lines.skip(1) =~= h9);
    } else {
        assert(lines.skip(1) =~= h7);
    }
    assert(all_lines(lines));
    head_lines_read_back(lines);
    crate::numbers::decimal_reads_back(total as nat, u64::MAX as nat);
    lemma_file_header_names();
}

proof fn lemma_file_header_names()
    ensures
        "content-length"@ != "x-enc"@ && "content-length"@ != "x-enc-nonce"@ && "content-length"@
            != "x-device-id"@ && "content-length"@ != "x-device-name"@ && "content-length"@
            != "x-device-model"@,
        "x-enc-nonce"@ != "host"@ && "x-enc-nonce"@ != "connection"@ && "x-enc-nonce"@
            != "content-type"@ && "x-enc-nonce"@ != "x-enc"@ && "x-enc-nonce"@ != "x-device-id"@
            && "x-enc-nonce"@ != "x-device-name"@ && "x-enc-nonce"@ != "x-device-model"@,
        "x-device-id"@ != "x-device-name"@ && "x-device-id"@ != "x-device-model"@ && "x-device-id"@
            != "x-enc"@,
{
    reveal_strlit("host");
    reveal_strlit("connection");
    reveal_strlit("content-type");
    reveal_strlit("content-length");
    reveal_strlit("x-device-id");
    reveal_strlit("x-device-name");
    reveal_strlit("x-device-model");
    reveal_strlit("x-enc");
    reveal_strlit("x-enc-nonce");
    assert("host"@.len() == 4);
    assert("connection"@.len() == 10);
    assert("content-type"@.len() == 12);
    assert("content-length"@.len() == 14 && "content-length"@[0] == 'c');
    assert("x-device-id"@.len() == 11 && "x-device-id"@[2] == 'd');
    assert("x-device-name"@.len() == 13);
    assert("x-device-model"@.len() == 14 && "x-device-model"@[0] == 'x');
    assert("x-enc"@.len() == 5);
    assert("x-enc-nonce"@.len() == 11 && "x-enc-nonce"@[2] == 'e');
}

proof fn lemma_hex_digits(n: nat, width: nat)
    ensures
        hex(n, width).len() == width,
        forall|i: int|
            0 <= i < width ==> ('0' <= #[trigger] hex(n, width)[i] <= '9' || 'a' <= hex(n, width)[i]
                <= 'f'),
    decreases width,
{
    if width > 0 {
        lemma_hex_digits(n / 16, (width - 1) as nat);
    }
}

proof fn lemma_hex_fits(n: nat)
    requires
        n <= u64::MAX,
    ensures
        fits_line(hex(n, 16)),
        parse_unsigned(hex(n, 16), 16, u64::MAX as nat) == Some(n),
{
    lemma_hex_digits(n, 16);
    let d = hex(n, 16);
    assert('0' <= d[0] <= '9' || 'a' <= d[0] <= 'f');
    assert('0' <= d[15] <= '9' || 'a' <= d[15] <= 'f');
    assert(vstd::arithmetic::power::pow(16, 16) == 0x1_0000_0000_0000_0000) by {
        reveal_with_fuel(vstd::arithmetic::power::pow, 17);
    }
    crate::numbers::hexadecimal_reads_back(n, 16);
}

proof fn lemma_post_line(name: Seq<char>, total: u64)
    ensures
        ({
            let l = "POST /recv?name="@ + encoded(name) + "&size="@ + dec(total as nat)
                + " HTTP/1.1"@;
            let target = "/recv?name="@ + encoded(name) + "&size="@ + dec(total as nat);
            &&& one_line(l)
            &&& words(l).len() >= 2
            &&& words(l)[0] == "POST"@
            &&& words(l)[1] == target
            &&& split(target, '?')[0] == "/recv"@
            &&& asked_name(query_values(query_part(target))) == name
        }),
{
    reveal_strlit("POST /recv?name=");
    reveal_strlit("POST");
    reveal_strlit("/recv?name=");
    reveal_strlit("/recv");
    reveal_strlit("name=");
    reveal_strlit("size=");
    reveal_strlit("&size=");
    reveal_strlit(" HTTP/1.1");
    reveal_strlit("name");
    reveal_strlit("size");
    let e = encoded(name);
    let d = dec(total as nat);
    encoded_is_plain(name);
    crate::numbers::lemma_dec_value(total as nat);
    assert forall|i: int| 0 <= i < e.len() implies !white_space(#[trigger] e[i]) && e[i] != '\r'
        && e[i] != '?' && e[i] != '&' && e[i] != '=' by {
        let c = e[i];
        if c != '%' {
            char_u32_cast(c, c as u32);
        }
    }
    let target = "/recv?name="@ + e + "&size="@ + d;
    let tail = " HTTP/1.1"@;
    let l = "POST /recv?name="@ + e + "&size="@ + d + tail;
    assert forall|i: int| 0 <= i < target.len() implies !white_space(#[trigger] target[i])
        && target[i] != '\r' by {
        if 11 <= i < 11 + e.len() {
            assert(target[i] == e[i - 11]);
        } else if i >= 17 + e.len() {
            assert(target[i] == d[i - 17 - e.len()]);
        }
    }
    assert(l =~= "POST"@ + (seq![' '] + (target + tail)));
    lemma_first_word("POST"@, seq![' '] + (target + tail));
    lemma_lead_white(' ', target + tail);
    lemma_first_word(target, tail);
    assert forall|i: int| 0 <= i < l.len() implies #[trigger] l[i] != '\r' by {
        if 5 <= i < 5 + target.len() {
            assert(l[i] == target[i - 5]);
        }
    }
    let one = "name="@ + e;
    let two = "size="@ + d;
    let q = one + seq!['&'] + two;
    assert(target =~= "/recv"@ + seq!['?'] + q);
    assert forall|i: int| 0 <= i < one.len() implies one[i] != '?' && one[i] != '&' by {
        if i >= 5 {
            assert(one[i] == e[i - 5]);
        }
    }
    assert forall|i: int| 0 <= i < two.len() implies two[i] != '?' && two[i] != '&' by {
        if i >= 5 {
            assert(two[i] == d[i - 5]);
        }
    }
    assert forall|i: int| 0 <= i < q.len() implies q[i] != '?' by {
        if i < one.len() {
            assert(q[i] == one[i]);
        } else if i > one.len() {
            assert(q[i] == two[i - one.len() - 1]);
        }
    }
    lemma_split_two("/recv"@, q, '?');
    lemma_split_two(one, two, '&');
    assert(split(target, '?') == seq!["/recv"@, q]);
    assert(query_part(target) == q);
    // the two values of the query
    lemma_next_at(one, 0, '=');
    lemma_next_at(two, 0, '=');
    assert(one[4] == '=' && two[4] == '=');
    assert(next_at(one, 0, '=') == 4);
    assert(next_at(two, 0, '=') == 4);
    assert(one.subrange(0, 4) =~= "name"@);
    assert(two.subrange(0, 4) =~= "size"@);
    assert(one.subrange(5, one.len() as int) =~= e);
    decoding_undoes_encoding(name);
    lemma_plain_word("name"@);
    lemma_plain_word("size"@);
    let parts = seq![one, two];
    let first = parts.drop_last();
    assert(first.last() == one);
    assert(first.drop_last() =~= Seq::<Seq<char>>::empty());
    assert(query_of_parts(first.drop_last()) == Map::<Seq<char>, Seq<char>>::empty());
    assert(query_of_parts(first)["name"@] == name);
    assert("name"@[0] == 'n' && "size"@[0] == 's');
}

/// Small letters stand for themselves.
proof fn lemma_plain_word(s: Seq<char>)
    requires
        s.len() == 4,
        forall|i: int| 0 <= i < 4 ==> 'a' <= #[trigger] s[i] <= 'z',
    ensures
        decoded(s) == s,
{
    is_ascii_chars_encode_utf8(s);
    let b = encode_utf8(s);
    assert(b[0] == s[0] as u8 && b[1] == s[1] as u8 && b[2] == s[2] as u8 && b[3] == s[3] as u8);
    assert forall|i: int| 0 <= i < 4 implies unreserved(#[trigger] b[i]) && b[i] as char == s[i] by {
        assert('a' <= s[i] <= 'z');
    }
    assert(encoded(s) == s) by {
        reveal_with_fuel(crate::url::escaped, 5);
        assert(b.skip(1).skip(1) =~= b.skip(2));
        assert(b.skip(2).skip(1) =~= b.skip(3));
        assert(b.skip(3).skip(1) =~= Seq::<u8>::empty());
        assert(b.skip(1)[0] == b[1] && b.skip(2)[0] == b[2] && b.skip(3)[0] == b[3]);
        assert(crate::url::escaped(b) =~= s);
    }
    decoding_undoes_encoding(s);
}

/// What the answer to a file amounts to; none where it was taken.
pub open spec fn send_fault(code: u16, body: Seq<u8>) -> Option<Seq<char>> {
    let said = text_member(body, "error"@);
    if code == 200 {
        None
    } else if code == 404 {
        Some("对方应用版本过旧，不支持接收文件"@)
    } else if code == 409 {
        Some("等待对方确认超时"@)
    } else if code == 403 {
        if said == Some("rejected"@) {
            Some("对方拒绝了接收"@)
        } else if said == Some("blocked"@) || said == Some("unpaired"@) {
            Some("对方拒绝接收（可能已被对方拉黑）"@)
        } else {
            Some("对方拒绝接收"@)
        }
    } else {
        Some(
            "发送失败: "@ + match said {
                Some(e) => e,
                None => "HTTP "@ + dec(code as nat),
            },
        )
    }
}

/// What came of sending a file, `sent` being how many bytes went out.
pub fn send_one(code: u16, body: &[u8], sent: u64) -> (r: Result<u64, LanErr>)
    ensures
        match send_fault(code, body@) {
            Some(e) => r is Err && r->Err_0@ == ErrView::Net(e),
            None => r == Ok::<u64, LanErr>(sent),
        },
        is_reply(code, body@, unpaired()) ==> r is Err && r->Err_0@ == ErrView::Net(
            "对方拒绝接收（可能已被对方拉黑）"@,
        ),
        is_reply(code, body@, reply(403, "{\"error\":\"rejected\"}"@)) ==> r is Err && r->Err_0@
            == ErrView::Net("对方拒绝了接收"@),
        forall|e: Seq<char>|
            plain_text(e) && is_reply(code, body@, reply(500, #[trigger] error_body(e))) ==> r is Err
                && r->Err_0@ == ErrView::Net("发送失败: "@ + e),
{
    proof {
        lemma_refusals();
        lemma_error_body("unpaired"@);
        lemma_error_body("rejected"@);
        assert(encode_utf8(flat_object(seq![("error"@, "unpaired"@)])) == encode_utf8(
            unpaired().body,
        ));
        assert(encode_utf8(flat_object(seq![("error"@, "rejected"@)])) == encode_utf8(
            "{\"error\":\"rejected\"}"@,
        ));
    }
    if code == 200 {
        return Ok(sent);
    }
    if code == 404 {
        return Err(LanErr::Net("对方应用版本过旧，不支持接收文件".to_string()));
    }
    if code == 409 {
        return Err(LanErr::Net("等待对方确认超时".to_string()));
    }
    let said = get_text(body, "error");
    assert forall|e: Seq<char>|
        plain_text(e) && is_reply(code, body@, reply(500, #[trigger] error_body(e))) implies opt_text(
        said,
    ) == Some(e) by {
        lemma_error_body(e);
        assert(body@ == encode_utf8(flat_object(seq![("error"@, e)])));
    }
    if code == 403 {
        let text = match &said {
            Some(e) => if same(e.as_str(), "rejected") {
                "对方拒绝了接收".to_string()
            } else if same(e.as_str(), "blocked") || same(e.as_str(), "unpaired") {
                "对方拒绝接收（可能已被对方拉黑）".to_string()
            } else {
                "对方拒绝接收".to_string()
            },
            None => "对方拒绝接收".to_string(),
        };
        return Err(LanErr::Net(text));
    }
    let mut t = "发送失败: ".to_string();
    match &said {
        Some(e) => {
            t.append(e.as_str());
        },
        None => {
            let mut c = "HTTP ".to_string();
            c.append(decimal(code as u64).as_str());
            t.append(c.as_str());
        },
    }
    Err(LanErr::Net(t))
}

/// What is told of a file that could not be sent.
pub fn send_failure(name: &str, e: &LanErr) -> (r: String)
    ensures
        r@ == name@ + "："@ + err_text(e@),
{
    let mut t = name.to_string();
    t.append("：");
    t.append(e.message().as_str());
    t
}

/// What is told of a directory, which cannot be sent.
pub fn directory_failure(name: &str) -> (r: String)
    ensures
        r@ == name@ + "：暂不支持发送文件夹"@,
{
    let mut t = name.to_string();
    t.append("：暂不支持发送文件夹");
    t
}

/// Texts, one on each line.
pub open spec fn on_lines(v: Seq<Seq<char>>) -> Seq<char>
    decreases v.len(),
{
    if v.len() == 0 {
        seq![]
    } else if v.len() == 1 {
        v[0]
    } else {
        on_lines(v.drop_last()) + "\n"@ + v.last()
    }
}

/// Texts, one on each line.
pub fn join_lines(v: &Vec<String>) -> (r: String)
    ensures
        r@ == on_lines(string_views(v@)),
{
    let mut out = String::new();
    let ghost all = string_views(v@);
    let mut i: usize = 0;
    assert(out@ =~= on_lines(all.take(0)));
    while i < v.len()
        invariant
            i <= v@.len(),
            all == string_views(v@),
            out@ == on_lines(all.take(i as int)),
        decreases v@.len() - i,
    {
        if i > 0 {
            out.append("\n");
        }
        out.append(v[i].as_str());
        assert(all.take(i + 1).drop_last() =~= all.take(i as int));
        assert(all.take(i + 1).last() == v@[i as int]@);
        assert(out@ =~= on_lines(all.take(i + 1)));
        i = i + 1;
    }
    assert(all.take(i as int) =~= all);
    out
}

/// What is told of several files that were sent: `failures` says what became of
/// those that could not be.
pub fn send_paths_to(target: &str, ok_count: usize, count: usize, failures: &Vec<String>) -> (r:
    String)
    ensures
        r@ == (if failures@.len() == 0 {
            "已发送 "@ + dec(ok_count as nat) + " 个文件到「"@ + target@ + "」"@
        } else {
            "成功 "@ + dec(ok_count as nat) + "/"@ + dec(count as nat) + " 个：\n"@ + on_lines(
                string_views(failures@),
            )
        }),
{
    if failures.len() == 0 {
        let mut t = "已发送 ".to_string();
        t.append(decimal(ok_count as u64).as_str());
        t.append(" 个文件到「");
        t.append(target);
        t.append("」");
        t
    } else {
        let mut t = "成功 ".to_string();
        t.append(decimal(ok_count as u64).as_str());
        t.append("/");
        t.append(decimal(count as u64).as_str());
        t.append(" 个：\n");
        t.append(join_lines(failures).as_str());
        t
    }
}

/// Whether there is anything to send.
pub fn transfer_send(count: usize) -> (r: Result<(), String>)
    ensures
        match r {
            Ok(_) => count > 0,
            Err(e) => count == 0 && e@ == "未选择文件"@,
        },
{
    if count == 0 {
        Err("未选择文件".to_string())
    } else {
        Ok(())
    }
}

/// The address to send to, as the user typed it, where there is anything to send.
pub fn transfer_send_ip(ip: &str, count: usize) -> (r: Result<String, String>)
    ensures
        match r {
            Ok(a) => count > 0 && !blank(ip@) && a@ == trim(ip@),
            Err(e) => e@ == (if count == 0 {
                "未选择文件"@
            } else {
                "请输入对方 IP"@
            }) && (count == 0 || blank(ip@)),
        },
{
    if count == 0 {
        return Err("未选择文件".to_string());
    }
    let v = trim_chars(&chars_of(ip));
    proof {
        lemma_trim_blank(ip@);
    }
    if v.len() == 0 {
        Err("请输入对方 IP".to_string())
    } else {
        Ok(string_of(&v))
    }
}

/// How a file is shown in its directory: a program, and what it is called with.
pub fn transfer_reveal(path: &str, exists: bool, platform: Platform) -> (r: Result<
    (String, Vec<String>),
    String,
>)
    ensures
        match r {
            Ok((p, a)) => {
                &&& exists
                &&& match platform {
                    Platform::Windows => p@ == "explorer"@ && string_views(a@) == seq![
                        "/select,"@ + path@,
                    ],
                    Platform::Mac => p@ == "open"@ && string_views(a@) == seq!["-R"@, path@],
                    Platform::Other => false,
                }
            },
            Err(e) => if !exists {
                e@ == "文件不存在（可能已被移动或删除）"@
            } else {
                platform == Platform::Other && e@ == "当前平台不支持"@
            },
        },
{
    if !exists {
        return Err("文件不存在（可能已被移动或删除）".to_string());
    }
    let mut args: Vec<String> = Vec::new();
    match platform {
        Platform::Windows => {
            let mut a = "/select,".to_string();
            a.append(path);
            args.push(a);
            assert(string_views(args@) =~= seq!["/select,"@ + path@]);
            Ok(("explorer".to_string(), args))
        },
        Platform::Mac => {
            args.push("-R".to_string());
            args.push(path.to_string());
            assert(string_views(args@) =~= seq!["-R"@, path@]);
            Ok(("open".to_string(), args))
        },
        Platform::Other => Err("当前平台不支持".to_string()),
    }
}

// ---------- laws of names ----------

/// The filter drops a character only if it is one of the seven that no file name may
/// hold or a control character: each other character stays, and so does the order.
pub proof fn filter_drops_seven_and_controls(s: Seq<char>, c: char)
    ensures
        without_forbidden(Seq::empty()) == Seq::<char>::empty(),
        c == ':' || c == '*' || c == '?' || c == '"' || c == '<' || c == '>' || c == '|'
            ==> without_forbidden(s.push(c)) == without_forbidden(s),
        (c as u32) < 32 || (127 <= c as u32 && (c as u32) < 160) ==> without_forbidden(s.push(c))
            == without_forbidden(s),
        c != ':' && c != '*' && c != '?' && c != '"' && c != '<' && c != '>' && c != '|' && c as u32
            >= 32 && !(127 <= c as u32 && (c as u32) < 160) ==> without_forbidden(s.push(c))
            == without_forbidden(s).push(c),
{
    assert(s.push(c).drop_last() =~= s);
}

/// Whether a character may stand in a file name: it is no separator, none of the
/// seven that are not allowed, and no control character.
pub open spec fn fit_for_name(c: char) -> bool {
    &&& c != '/' && c != '\\' && c != ':' && c != '*' && c != '?' && c != '"'
    &&& c != '<' && c != '>' && c != '|'
    &&& c as u32 >= 32 && !(127 <= c as u32 && (c as u32) < 160)
}

proof fn lemma_nothing_dropped(s: Seq<char>)
    requires
        forall|i: int| 0 <= i < s.len() ==> fit_for_name(#[trigger] s[i]),
    ensures
        without_forbidden(s) == s,
        base_name(s) == s,
    decreases s.len(),
{
    if s.len() > 0 {
        let d = s.drop_last();
        assert forall|i: int| 0 <= i < d.len() implies fit_for_name(#[trigger] d[i]) by {
            assert(d[i] == s[i]);
        }
        lemma_nothing_dropped(d);
        assert(fit_for_name(s[s.len() - 1]));
        assert(d.push(s.last()) =~= s);
    } else {
        assert(s =~= seq![]);
    }
}

proof fn lemma_dots_cut(a: Seq<char>, s: Seq<char>, b: Seq<char>)
    requires
        dots_alone(a),
        dots_alone(b),
        s.len() > 0,
        s[0] != '.',
        s.last() != '.',
    ensures
        no_lead_dots(a + s) == s,
        no_end_dots(s + b) == s,
    decreases a.len() + b.len(),
{
    if a.len() > 0 {
        let t = a.skip(1);
        assert forall|i: int| 0 <= i < t.len() implies #[trigger] t[i] == '.' by {
            assert(t[i] == a[i + 1]);
        }
        lemma_dots_cut(t, s, b);
        assert((a + s)[0] == a[0]);
        assert((a + s).skip(1) =~= t + s);
    } else {
        assert(a + s =~= s);
        if b.len() > 0 {
            let t = b.drop_last();
            assert forall|i: int| 0 <= i < t.len() implies #[trigger] t[i] == '.' by {
                assert(t[i] == b[i]);
            }
            lemma_dots_cut(a, s, t);
            assert((s + b).last() == b[b.len() - 1]);
            assert((s + b).drop_last() =~= s + t);
        } else {
            assert(s + b =~= s);
        }
    }
}

/// A name that needs no cleaning is kept: where it is not empty, holds only
/// characters that may stand in a file name, and neither starts nor ends with white
/// space or a dot, the file is received under exactly that name.
pub proof fn fit_name_is_kept(name: Seq<char>, now: i64)
    requires
        name.len() > 0,
        forall|i: int|
            0 <= i < name.len() ==> {
                &&& #[trigger] name[i] != '/' && name[i] != '\\' && name[i] != ':' && name[i] != '*'
                    && name[i] != '?' && name[i] != '"' && name[i] != '<' && name[i] != '>'
                    && name[i] != '|'
                &&& name[i] as u32 >= 32 && !(127 <= name[i] as u32 && (name[i] as u32) < 160)
            },
        name[0] != '.',
        name.last() != '.',
        !white_space(name[0]),
        !white_space(name.last()),
    ensures
        safe_name(name, now) == name,
{
    lemma_nothing_dropped(name);
    crate::text::trimmed_stays(name);
    lemma_dots_cut(Seq::empty(), name, Seq::empty());
    assert(Seq::<char>::empty() + name =~= name);
    assert(name + Seq::<char>::empty() =~= name);
    assert(clean_name(name) == name);
    assert(name[0] != '.');
}

/// Of a name only the last component counts, and of that blanks and dots around it
/// are cut off: a fit name is received as it is from under any directory, and with
/// any dots around it and any blanks around those.
pub proof fn only_dots_and_blanks_around_are_cut(
    dir: Seq<char>,
    lead: Seq<char>,
    dots: Seq<char>,
    name: Seq<char>,
    more_dots: Seq<char>,
    trail: Seq<char>,
    now: i64,
)
    requires
        forall|i: int| 0 <= i < lead.len() ==> #[trigger] lead[i] == ' ',
        forall|i: int| 0 <= i < trail.len() ==> #[trigger] trail[i] == ' ',
        forall|i: int| 0 <= i < dots.len() ==> #[trigger] dots[i] == '.',
        forall|i: int| 0 <= i < more_dots.len() ==> #[trigger] more_dots[i] == '.',
        name.len() > 0,
        forall|i: int| 0 <= i < name.len() ==> fit_for_name(#[trigger] name[i]),
        name[0] != '.',
        name.last() != '.',
        !white_space(name[0]),
        !white_space(name.last()),
    ensures
        safe_name(lead + (dots + name + more_dots) + trail, now) == name,
        safe_name(dir + seq!['/'] + (lead + (dots + name + more_dots) + trail), now) == name,
        safe_name(dir + seq!['\\'] + (lead + (dots + name + more_dots) + trail), now) == name,
{
    let m = dots + name + more_dots;
    let s = lead + m + trail;
    assert forall|i: int| 0 <= i < s.len() implies fit_for_name(#[trigger] s[i]) by {
        let k = i - lead.len();
        if k < 0 {
            assert(s[i] == lead[i]);
        } else if k >= m.len() {
            assert(s[i] == trail[k - m.len()]);
        } else {
            assert(s[i] == m[k]);
            if k < dots.len() {
                assert(m[k] == dots[k]);
            } else if k < dots.len() + name.len() {
                assert(m[k] == name[k - dots.len()]);
            } else {
                assert(m[k] == more_dots[k - dots.len() - name.len()]);
            }
        }
    }
    lemma_nothing_dropped(s);
    assert forall|i: int| 0 <= i < s.len() implies #[trigger] s[i] != '/' && s[i] != '\\' by {
        assert(fit_for_name(s[i]));
    }
    crate::text::last_component_follows_the_separator(dir, s);
    if dots.len() > 0 {
        assert(m[0] == dots[0]);
    } else {
        assert(m[0] == name[0]);
    }
    if more_dots.len() > 0 {
        assert(m.last() == more_dots[more_dots.len() - 1]);
    } else {
        assert(m.last() == name[name.len() - 1]);
    }
    crate::text::white_space_around_is_cut(lead, m, trail);
    assert(m =~= dots + (name + more_dots));
    let a = name + more_dots;
    lemma_lead_dots_cut(dots, a);
    lemma_dots_cut(Seq::empty(), name, more_dots);
    crate::text::trimmed_stays(name);
    assert(clean_name(s) == name);
    assert(name[0] != '.');
}

proof fn lemma_lead_dots_cut(a: Seq<char>, s: Seq<char>)
    requires
        dots_alone(a),
        s.len() > 0,
        s[0] != '.',
    ensures
        no_lead_dots(a + s) == s,
    decreases a.len(),
{
    if a.len() > 0 {
        let t = a.skip(1);
        assert forall|i: int| 0 <= i < t.len() implies #[trigger] t[i] == '.' by {
            assert(t[i] == a[i + 1]);
        }
        lemma_lead_dots_cut(t, s);
        assert((a + s)[0] == a[0]);
        assert((a + s).skip(1) =~= t + s);
    } else {
        assert(a + s =~= s);
    }
}

/// A name of which nothing but dots is left becomes one of the time.
pub proof fn nameless_file_gets_the_time(name: Seq<char>, now: i64)
    requires
        forall|i: int| 0 <= i < name.len() ==> #[trigger] name[i] == '.',
    ensures
        safe_name(name, now) == "recv_"@ + dec_int(now as int),
{
    assert forall|i: int| 0 <= i < name.len() implies fit_for_name(#[trigger] name[i]) by {
        assert(name[i] == '.');
    }
    lemma_nothing_dropped(name);
    if name.len() > 0 {
        assert(name[0] == '.');
        assert(name[name.len() - 1] == '.');
    }
    crate::text::trimmed_stays(name);
    lemma_all_dots_go(name);
    assert(clean_name(name).len() == 0);
}

proof fn lemma_all_dots_go(s: Seq<char>)
    requires
        dots_alone(s),
    ensures
        no_lead_dots(s).len() == 0,
    decreases s.len(),
{
    if s.len() > 0 {
        let t = s.skip(1);
        assert forall|i: int| 0 <= i < t.len() implies #[trigger] t[i] == '.' by {
            assert(t[i] == s[i + 1]);
        }
        lemma_all_dots_go(t);
        assert(s[0] == '.');
    }
}

/// Where a name is taken, a number goes before its ending, which is what follows its
/// last dot, that dot included; a name without an ending, or with a dot only at its
/// start, gets it at its end. The first try is the name itself, and after 999
/// numbers the time stands in their place.
pub proof fn numbers_go_before_the_ending(stem: Seq<char>, ext: Seq<char>, n: nat, now: i64)
    requires
        stem.len() > 0,
        forall|i: int| 0 <= i < ext.len() ==> #[trigger] ext[i] != '.',
    ensures
        candidate(stem + seq!['.'] + ext, 0, now) == stem + seq!['.'] + ext,
        0 < n < 1000 ==> candidate(stem + seq!['.'] + ext, n, now) == stem + " ("@ + dec(n) + ")"@
            + (seq!['.'] + ext),
        n >= 1000 ==> candidate(stem + seq!['.'] + ext, n, now) == stem + "_"@ + dec_int(now as int)
            + (seq!['.'] + ext),
        0 < n < 1000 && ext.len() > 0 ==> candidate(ext, n, now) == ext + " ("@ + dec(n) + ")"@,
        0 < n < 1000 ==> candidate(seq!['.'] + ext, n, now) == seq!['.'] + ext + " ("@ + dec(n)
            + ")"@,
        candidate(ext, 0, now) == ext,
{
    let name = stem + seq!['.'] + ext;
    let k = stem.len() as int;
    crate::text::last_place_is_last(name, '.');
    assert(name[k] == '.');
    assert forall|i: int| k < i < name.len() implies #[trigger] name[i] != '.' by {
        assert(name[i] == ext[i - k - 1]);
    }
    assert(last_at(name, '.') == k);
    assert(name.subrange(0, k) =~= stem);
    assert(name.subrange(k, name.len() as int) =~= seq!['.'] + ext);
    crate::text::last_place_is_last(ext, '.');
    assert(last_at(ext, '.') == -1);
    assert(ext.subrange(0, ext.len() as int) =~= ext);
    let t = ext + " ("@ + dec(n) + ")"@;
    assert(t + ext.subrange(ext.len() as int, ext.len() as int) =~= t);
    let dotted = seq!['.'] + ext;
    crate::text::last_place_is_last(dotted, '.');
    assert(dotted[0] == '.');
    if last_at(dotted, '.') > 0 {
        assert(dotted[last_at(dotted, '.')] == ext[last_at(dotted, '.') - 1]);
    }
    assert(dotted.subrange(0, dotted.len() as int) =~= dotted);
    let u = dotted + " ("@ + dec(n) + ")"@;
    assert(u + dotted.subrange(dotted.len() as int, dotted.len() as int) =~= u);
}

// ---------- laws of receiving ----------

/// With the record of a transfer only a file that was received may go, and every one
/// that was, in order.
pub proof fn only_received_files_go(
    rows: Seq<(String, Option<String>)>,
    row: (String, Option<String>),
)
    ensures
        received_paths(Seq::empty()) == Seq::<Seq<char>>::empty(),
        row.0@ == "recv"@ && row.1 is Some ==> received_paths(rows.push(row)) == received_paths(
            rows,
        ).push(row.1->0@),
        row.0@ != "recv"@ || row.1 is None ==> received_paths(rows.push(row)) == received_paths(
            rows,
        ),
{
    assert(rows.push(row).drop_last() =~= rows);
}

/// A sender goes by the name that it gives; where it gives none, by that under which
/// it is paired, and else by its address.
pub proof fn senders_go_by_their_name(s: SettingsView, h: Map<Seq<char>, Seq<char>>, ip: Seq<char>)
    ensures
        h.contains_key("x-device-name"@) && decoded(h["x-device-name"@]).len() > 0 ==> peer_name(
            s,
            h,
            ip,
        ) == decoded(h["x-device-name"@]),
        (!h.contains_key("x-device-name"@) || decoded(h["x-device-name"@]).len() == 0)
            && h.contains_key("x-device-id"@) && s.paired.contains_key(h["x-device-id"@])
            ==> peer_name(s, h, ip) == s.paired[h["x-device-id"@]].name,
        (!h.contains_key("x-device-name"@) || decoded(h["x-device-name"@]).len() == 0) && (
        !h.contains_key("x-device-id"@) || !s.paired.contains_key(h["x-device-id"@])) ==> peer_name(
            s,
            h,
            ip,
        ) == ip,
{
}

/// The size of a file that comes in is the decimal number of its header, and the
/// number with which it is encrypted the hexadecimal one of its own; the name that
/// is asked for is the one in the address.
pub proof fn headers_tell_of_the_file(h: Map<Seq<char>, Seq<char>>, q: Map<Seq<char>, Seq<char>>)
    ensures
        h.contains_key("content-length"@) ==> body_size(h) == parse_unsigned(
            h["content-length"@],
            10,
            0xFFFF_FFFF_FFFF_FFFF,
        ),
        !h.contains_key("content-length"@) ==> body_size(h) is None,
        h.contains_key("x-enc-nonce"@) ==> body_nonce(h) == parse_unsigned(
            h["x-enc-nonce"@],
            16,
            0xFFFF_FFFF_FFFF_FFFF,
        ),
        !h.contains_key("x-enc-nonce"@) ==> body_nonce(h) is None,
        q.contains_key("name"@) ==> asked_name(q) == q["name"@],
        !q.contains_key("name"@) ==> asked_name(q).len() == 0,
{
}

/// A size stays as it is on record, as long as it fits.
pub proof fn sizes_stay_on_record(n: u64)
    ensures
        n <= i64::MAX ==> signed_size(n) == n,
        i64::MIN <= signed_size(n) <= i64::MAX,
        n > i64::MAX ==> signed_size(n) < 0 && signed_size(n) + 0x1_0000_0000_0000_0000 == n,
{
}

// ---------- laws of sending ----------

/// A file goes to a device that is known and has an address, unless either of the two
/// has blocked the other: to that address, with the code that is kept of it.
pub proof fn files_go_to_known_devices(v: SharedView, id: Seq<char>)
    ensures
        target_by_id(v, id) is Ok <==> {
            &&& !v.settings.blocked.contains_key(id)
            &&& !v.settings.blocked_by.contains(id)
            &&& known_device(v, id) is Some
            &&& known_device(v, id)->0.host is Some
        },
        target_by_id(v, id) matches Ok(t) ==> {
            &&& Some(t.host) == known_device(v, id)->0.host
            &&& t.port == known_device(v, id)->0.port
            &&& t.name == known_device(v, id)->0.name
            &&& v.settings.paired.contains_key(id) ==> t.token == v.settings.paired[id].token
            &&& !v.settings.paired.contains_key(id) ==> t.token is None
        },
        v.settings.blocked.contains_key(id) || v.settings.blocked_by.contains(id) ==> target_by_id(
            v,
            id,
        ) == Result::<TargetView, Seq<char>>::Err("该设备在黑名单中"@),
        !v.settings.blocked.contains_key(id) && !v.settings.blocked_by.contains(id)
            && known_device(v, id) is None ==> target_by_id(v, id) == Result::<
            TargetView,
            Seq<char>,
        >::Err("设备不在线"@),
        !v.settings.blocked.contains_key(id) && !v.settings.blocked_by.contains(id)
            && known_device(v, id) is Some && known_device(v, id)->0.host is None ==> target_by_id(
            v,
            id,
        ) == Result::<TargetView, Seq<char>>::Err("设备离线"@),
{
}

/// A file goes to whoever answers at an address, under the name that it gives or else
/// the address, unless that is this device or one that is blocked here, or it says
/// that this one is blocked there. Where nobody answers, the search goes on.
pub proof fn files_go_to_who_answers(
    s: SettingsView,
    ip: Seq<char>,
    port: u16,
    answer: Result<Seq<u8>, ErrView>,
)
    ensures
        answer matches Ok(doc) ==> {
            let r = target_by_ip(s, ip, port, answer);
            let id = text_member(doc, "deviceId"@);
            let name = text_member(doc, "name"@);
            &&& id is Some && id->0.len() > 0 && id->0 == s.device_id ==> r == Some(
                Result::<TargetView, Seq<char>>::Err("不能发送给本机"@),
            )
            &&& id is Some && id->0.len() > 0 && id->0 != s.device_id && s.blocked.contains_key(
                id->0,
            ) ==> r == Some(Result::<TargetView, Seq<char>>::Err("该设备在黑名单中"@))
            &&& id is None || id->0.len() == 0 || (id->0 != s.device_id && !s.blocked.contains_key(
                id->0,
            )) ==> {
                &&& r is Some && r->0 is Ok
                &&& r->0->Ok_0.host == ip
                &&& r->0->Ok_0.port == port
                &&& name is Some && name->0.len() > 0 ==> r->0->Ok_0.name == name->0
                &&& name is None || name->0.len() == 0 ==> r->0->Ok_0.name == ip
                &&& id is Some && s.paired.contains_key(id->0) ==> r->0->Ok_0.token
                    == s.paired[id->0].token
                &&& id is Some && !s.paired.contains_key(id->0) ==> r->0->Ok_0.token is None
            }
        },
        answer is Err && answer->Err_0 is Blocked ==> target_by_ip(s, ip, port, answer) == Some(
            Result::<TargetView, Seq<char>>::Err("你已被对方拉黑，无法发送"@),
        ),
        answer is Err && !(answer->Err_0 is Blocked) ==> target_by_ip(s, ip, port, answer) is None,
{
}

/// A file has gone over exactly where the other device answers with 200; any other
/// answer is told to the user in the words for it.
pub proof fn only_200_means_sent(code: u16, body: Seq<u8>)
    ensures
        send_fault(code, body) is None <==> code == 200,
        code == 404 ==> send_fault(code, body) == Some("对方应用版本过旧，不支持接收文件"@),
        code == 409 ==> send_fault(code, body) == Some("等待对方确认超时"@),
        code == 403 && text_member(body, "error"@) == Some("rejected"@) ==> send_fault(code, body)
            == Some("对方拒绝了接收"@),
        code == 403 && text_member(body, "error"@) == Some("blocked"@) ==> send_fault(code, body)
            == Some("对方拒绝接收（可能已被对方拉黑）"@),
        code == 403 && text_member(body, "error"@) == Some("unpaired"@) ==> send_fault(code, body)
            == Some("对方拒绝接收（可能已被对方拉黑）"@),
        code == 403 && text_member(body, "error"@) is None ==> send_fault(code, body) == Some(
            "对方拒绝接收"@,
        ),
        code != 200 && code != 404 && code != 409 && code != 403 && text_member(body, "error"@) is None
            ==> send_fault(code, body) == Some("发送失败: "@ + ("HTTP "@ + dec(code as nat))),
        code != 200 && code != 404 && code != 409 && code != 403 && text_member(
            body,
            "error"@,
        ) is Some ==> send_fault(code, body) == Some(
            "发送失败: "@ + text_member(body, "error"@)->0,
        ),
{
    reveal_strlit("rejected");
    reveal_strlit("blocked");
    reveal_strlit("unpaired");
    assert("rejected"@[0] == 'r' && "blocked"@[0] == 'b' && "unpaired"@[0] == 'u');
}

/// Texts that are put on lines can be told apart again: without line feeds or
/// carriage returns of their own, and with the last of them not empty, they are the
/// lines of what was put together.
pub proof fn joined_lines_come_apart(v: Seq<Seq<char>>)
    requires
        forall|i: int, j: int|
            #![trigger v[i][j]]
            0 <= i < v.len() && 0 <= j < v[i].len() ==> v[i][j] != '\n' && v[i][j] != '\r',
        v.len() > 0 ==> v.last().len() > 0,
    ensures
        crate::text::lines(on_lines(v)) == v,
{
    if v.len() == 0 {
        crate::text::lines_end_at_line_feeds(Seq::empty(), Seq::empty());
        assert(v =~= seq![]);
    } else {
        lemma_lines_come_apart(v, Seq::empty());
        let all = on_lines(v);
        assert(all + Seq::<char>::empty() =~= all);
        assert(v.drop_last() + crate::text::lines(v.last() + Seq::<char>::empty()) =~= v) by {
            assert(v.last() + Seq::<char>::empty() =~= v.last());
            let last = v.last();
            assert forall|i: int| 0 <= i < last.len() implies last[i] != '\n' by {
                assert(last[i] == v[v.len() - 1][i]);
            }
            crate::text::lines_end_at_line_feeds(last, Seq::empty());
        }
    }
}

proof fn lemma_lines_come_apart(v: Seq<Seq<char>>, rest: Seq<char>)
    requires
        v.len() > 0,
        forall|i: int, j: int|
            #![trigger v[i][j]]
            0 <= i < v.len() && 0 <= j < v[i].len() ==> v[i][j] != '\n' && v[i][j] != '\r',
    ensures
        crate::text::lines(on_lines(v) + rest) == v.drop_last() + crate::text::lines(
            v.last() + rest,
        ),
    decreases v.len(),
{
    if v.len() == 1 {
        assert(v.drop_last() + crate::text::lines(v.last() + rest) =~= crate::text::lines(
            v.last() + rest,
        ));
    } else {
        reveal_strlit("\n");
        assert("\n"@ =~= seq!['\n']);
        let d = v.drop_last();
        assert forall|i: int, j: int|
            #![trigger d[i][j]]
            0 <= i < d.len() && 0 <= j < d[i].len() implies d[i][j] != '\n' && d[i][j] != '\r' by {
            assert(d[i][j] == v[i][j]);
        }
        let tail = seq!['\n'] + v.last() + rest;
        lemma_lines_come_apart(d, tail);
        assert(on_lines(v) + rest =~= on_lines(d) + tail);
        let a = d.last();
        assert forall|i: int| 0 <= i < a.len() implies a[i] != '\n' by {
            assert(a[i] == v[v.len() - 2][i]);
        }
        if a.len() > 0 {
            assert(a.last() == v[v.len() - 2][a.len() - 1]);
        }
        crate::text::lines_end_at_line_feeds(a, v.last() + rest);
        assert(a + tail =~= a + seq!['\n'] + (v.last() + rest));
        assert(d.drop_last() + (seq![a] + crate::text::lines(v.last() + rest)) =~= d
            + crate::text::lines(v.last() + rest));
    }
}

/// Of what has come in, all goes on at once but for fewer than 8 bytes, which wait for
/// the rest of their block; at the end, or once all is there, everything goes on that
/// may. Nothing is lost and nothing comes twice.
pub proof fn whole_blocks_go_on_at_once(v: BlocksView, end: bool)
    requires
        v.wf(),
        v.passed % 8 == 0,
    ensures
        v.piece(end) + v.cut(end).pending == v.pending,
        v.cut(end).passed == v.passed + v.piece(end).len(),
        v.cut(end).limit == v.limit,
        !end && v.passed + v.pending.len() < v.limit ==> v.cut(end).pending.len() < 8 && v.piece(
            end,
        ).len() % 8 == 0,
        (end || v.passed + v.pending.len() >= v.limit) && v.pending.len() <= v.limit - v.passed
            ==> v.piece(end) == v.pending,
        v.pending.len() > v.limit - v.passed ==> v.piece(end).len() == v.limit - v.passed,
{
    let n = v.ready(end);
    assert(0 <= n <= v.pending.len());
    assert(v.pending.take(n) + v.pending.skip(n) =~= v.pending);
    assert(v.pending.take(v.pending.len() as int) =~= v.pending);
}

/// A file that was received goes on record as such: from whom, under which name and
/// path, of which size, and when.
pub proof fn received_files_go_on_record(
    r: TransferDto,
    peer: Seq<char>,
    file_name: Seq<char>,
    path: Seq<char>,
    size: u64,
    now: i64,
)
    requires
        received(r, peer, file_name, path, size, now),
    ensures
        r.direction@ == "recv"@,
        r.peer@ == peer,
        r.file_name@ == file_name,
        opt_text(r.path) == Some(path),
        size <= i64::MAX ==> r.size == size,
        r.ok,
        r.msg is None,
        r.created_at == now,
{
}

} // verus!
