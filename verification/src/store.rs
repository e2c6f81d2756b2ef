//! The stored clips: what is written, what is kept, and what is deleted.

use crate::hashing::{content_hash, hash_bytes, hash_column, stored_hash};
use crate::imaging::opt_bytes;
use crate::numbers::{dec_int, decimal_i64};
use crate::ranking::{
    by_rank, lemma_ranked_lows, lemma_strip_rest, lows, lows_differ, not_below, ranked,
    ranking_orders, stripped, stripping_keeps_order, Ranked,
};
use crate::text::{opt_text, same};
use vstd::prelude::*;
use vstd::string::*;
use vstd::utf8::*;

verus! {

// ---------- statements ----------

/// The table of the clips, and its index by time.
pub const CREATE_CLIPS: &'static str =
    "CREATE TABLE IF NOT EXISTS clips (id INTEGER PRIMARY KEY AUTOINCREMENT, kind TEXT NOT NULL, content TEXT, image BLOB, width INTEGER, height INTEGER, pinned INTEGER NOT NULL DEFAULT 0, hash INTEGER, created_at INTEGER NOT NULL); CREATE INDEX IF NOT EXISTS idx_clips_time ON clips(created_at DESC);";

/// Whether the table has the column of the pins.
pub const PROBE_PINNED: &'static str = "SELECT pinned FROM clips LIMIT 1";

/// Whether the table has the column of the hashes.
pub const PROBE_HASH: &'static str = "SELECT hash FROM clips LIMIT 1";

/// Adds the column of the pins.
pub const ADD_PINNED: &'static str =
    "ALTER TABLE clips ADD COLUMN pinned INTEGER NOT NULL DEFAULT 0";

/// Adds the column of the hashes.
pub const ADD_HASH: &'static str = "ALTER TABLE clips ADD COLUMN hash INTEGER";

/// The index by hash.
pub const CREATE_HASH_INDEX: &'static str =
    "CREATE INDEX IF NOT EXISTS idx_clips_hash ON clips(hash);";

/// The clips that have no hash yet.
pub const SELECT_UNHASHED: &'static str = "SELECT id, content, image FROM clips WHERE hash IS NULL";

/// Gives a clip its hash.
pub const SET_HASH: &'static str = "UPDATE clips SET hash = ?1 WHERE id = ?2";

/// The newest clip with a hash.
pub const FIND_BY_HASH: &'static str =
    "SELECT id FROM clips WHERE hash = ?1 ORDER BY created_at DESC LIMIT 1";

/// Moves a clip to another time.
pub const TOUCH: &'static str = "UPDATE clips SET created_at = ?2 WHERE id = ?1";

/// Stores a clip of this device.
pub const INSERT_CLIP: &'static str =
    "INSERT INTO clips(kind, content, image, width, height, hash, created_at) VALUES(?1, ?2, ?3, ?4, ?5, ?6, ?7)";

/// Stores a clip of another device.
pub const INSERT_REMOTE: &'static str =
    "INSERT INTO clips(kind, content, image, width, height, hash, created_at, remote_device_id, remote_id) VALUES(?1, ?2, ?3, ?4, ?5, ?6, ?7, ?8, ?9)";

/// What decides which clips are kept, the newest first.
pub const SELECT_KEYS: &'static str =
    "SELECT id, pinned, created_at FROM clips ORDER BY created_at DESC, id DESC";

/// Deletes the clips that are not pinned and older than a time.
pub const EXPIRE: &'static str = "DELETE FROM clips WHERE pinned = 0 AND created_at < ?1";

/// Pins a clip, or takes the pin off.
pub const TOGGLE_PIN: &'static str =
    "UPDATE clips SET pinned = CASE WHEN pinned = 0 THEN 1 ELSE 0 END WHERE id = ?1";

/// Whether a clip is pinned.
pub const SELECT_PINNED: &'static str = "SELECT pinned FROM clips WHERE id=?1";

/// Deletes a clip.
pub const DELETE_CLIP: &'static str = "DELETE FROM clips WHERE id=?1";

/// The number of pinned clips between two times.
pub const COUNT_PINNED_BETWEEN: &'static str =
    "SELECT COUNT(*) FROM clips WHERE pinned = 1 AND created_at BETWEEN ?1 AND ?2";

// ---------- opening the database ----------

/// A step of bringing the database up to date.
#[derive(Clone, Copy, PartialEq, Eq, Structural, Debug)]
pub enum SchemaStep {
    /// Add the column of the pins.
    AddPinned,
    /// Add the column of the hashes.
    AddHash,
    /// Give every clip its hash.
    Backfill,
    /// Make the index by hash.
    IndexHash,
}

/// The steps that bring a database up to date: columns that an older one lacks
/// are added and filled, and only then the index by hash is made.
pub open spec fn schema_steps(has_pinned: bool, has_hash: bool) -> Seq<SchemaStep> {
    let pins = if has_pinned {
        seq![]
    } else {
        seq![SchemaStep::AddPinned]
    };
    let hashes = if has_hash {
        seq![]
    } else {
        seq![SchemaStep::AddHash, SchemaStep::Backfill]
    };
    pins + hashes + seq![SchemaStep::IndexHash]
}

/// The steps that bring a database up to date.
pub fn init_db(has_pinned: bool, has_hash: bool) -> (r: Vec<SchemaStep>)
    ensures
        r@ == schema_steps(has_pinned, has_hash),
{
    let mut v: Vec<SchemaStep> = Vec::new();
    if !has_pinned {
        v.push(SchemaStep::AddPinned);
    }
    if !has_hash {
        v.push(SchemaStep::AddHash);
        v.push(SchemaStep::Backfill);
    }
    v.push(SchemaStep::IndexHash);
    assert(v@ =~= schema_steps(has_pinned, has_hash));
    v
}

/// The statement of a step; none for filling in the hashes.
pub fn schema_statement(step: SchemaStep) -> (r: Option<&'static str>)
    ensures
        match step {
            SchemaStep::AddPinned => r == Some(ADD_PINNED),
            SchemaStep::AddHash => r == Some(ADD_HASH),
            SchemaStep::Backfill => r is None,
            SchemaStep::IndexHash => r == Some(CREATE_HASH_INDEX),
        },
{
    match step {
        SchemaStep::AddPinned => Some(ADD_PINNED),
        SchemaStep::AddHash => Some(ADD_HASH),
        SchemaStep::Backfill => None,
        SchemaStep::IndexHash => Some(CREATE_HASH_INDEX),
    }
}

// ---------- the hash of a clip ----------

/// The hash of a clip: that of its text, or else that of its picture.
pub open spec fn clip_hash(content: Option<Seq<char>>, image: Option<Seq<u8>>) -> Option<u64> {
    match (content, image) {
        (Some(t), _) => Some(content_hash(encode_utf8(t))),
        (None, Some(b)) => Some(content_hash(b)),
        (None, None) => None,
    }
}

/// The hash of a clip as the database holds it; none for a clip with neither
/// text nor picture.
pub fn backfill_hashes(content: &Option<String>, image: &Option<Vec<u8>>) -> (r: Option<i64>)
    ensures
        match clip_hash(opt_text(*content), opt_bytes(*image)) {
            Some(h) => r is Some && r->0 == stored_hash(h),
            None => r is None,
        },
{
    match (content, image) {
        (Some(t), _) => Some(hash_column(hash_bytes(t.as_str().as_bytes()))),
        (None, Some(b)) => Some(hash_column(hash_bytes(b.as_slice()))),
        (None, None) => None,
    }
}

// ---------- storing ----------

/// A clip to be stored.
pub struct NewClip {
    pub kind: String,
    pub content: Option<String>,
    pub image: Option<Vec<u8>>,
    pub width: Option<u32>,
    pub height: Option<u32>,
    /// The hash of the content, as the database holds it.
    pub hash: i64,
    /// In seconds; none for now.
    pub created_at: Option<i64>,
    /// The device that it came from; none for this one.
    pub remote_device_id: Option<String>,
    /// Its number on that device.
    pub remote_id: Option<i64>,
}

/// The view of a clip to be stored.
#[verifier::ext_equal]
pub struct NewClipView {
    pub kind: Seq<char>,
    pub content: Option<Seq<char>>,
    pub image: Option<Seq<u8>>,
    pub width: Option<u32>,
    pub height: Option<u32>,
    pub hash: int,
    pub created_at: Option<i64>,
    pub remote_device_id: Option<Seq<char>>,
    pub remote_id: Option<i64>,
}

impl View for NewClip {
    type V = NewClipView;

    open spec fn view(&self) -> NewClipView {
        NewClipView {
            kind: self.kind@,
            content: opt_text(self.content),
            image: opt_bytes(self.image),
            width: self.width,
            height: self.height,
            hash: self.hash as int,
            created_at: self.created_at,
            remote_device_id: opt_text(self.remote_device_id),
            remote_id: self.remote_id,
        }
    }
}

/// How a clip is stored.
#[derive(Clone, Copy, PartialEq, Eq, Structural, Debug)]
pub enum StoreStep {
    /// The same content is there already, as the clip of this number: it moves
    /// to this time, in seconds.
    Touch(i64, i64),
    /// It is new, and stored under this time, in seconds.
    Insert(i64),
}

/// How a clip is stored where the newest clip with its hash is `existing`: no
/// content is stored twice.
pub open spec fn store_step(
    existing: Option<i64>,
    created_at: Option<i64>,
    now: i64,
) -> StoreStep {
    match existing {
        Some(id) => StoreStep::Touch(id, now),
        None => StoreStep::Insert(
            match created_at {
                Some(t) => t,
                None => now,
            },
        ),
    }
}

/// How a clip is stored where the newest clip with its hash is `existing`.
pub fn store_clip(existing: Option<i64>, clip: &NewClip, now: i64) -> (r: StoreStep)
    ensures
        r == store_step(existing, clip@.created_at, now),
{
    match existing {
        Some(id) => StoreStep::Touch(id, now),
        None => match clip.created_at {
            Some(t) => StoreStep::Insert(t),
            None => StoreStep::Insert(now),
        },
    }
}

/// Whether the list of clips has changed, `done` being whether a new clip was
/// stored: a clip that moved changes it too.
pub fn list_changed(step: StoreStep, done: bool) -> (r: bool)
    ensures
        r == (step is Touch || done),
{
    match step {
        StoreStep::Touch(_, _) => true,
        StoreStep::Insert(_) => done,
    }
}

/// Whether a clip of another device was added, `done` being whether it was
/// stored: one that was there already was not.
pub fn store_remote(step: StoreStep, done: bool) -> (r: bool)
    ensures
        r == (step is Insert && done),
{
    match step {
        StoreStep::Touch(_, _) => false,
        StoreStep::Insert(_) => done,
    }
}

// ---------- the number of clips ----------

/// What decides whether a clip is kept.
#[derive(Clone, Copy, PartialEq, Eq, Structural, Debug)]
pub struct ClipKey {
    pub id: i64,
    /// 0 where it is not pinned.
    pub pinned: i64,
    /// In seconds.
    pub created_at: i64,
}

/// The rank of a clip: by its time, and then by its number.
pub open spec fn age_rank(k: ClipKey) -> Ranked {
    Ranked { high: k.created_at, low: k.id, at: 0 }
}

/// The ranks of the clips that are not pinned.
pub open spec fn unpinned_ranks(rows: Seq<ClipKey>) -> Seq<Ranked>
    decreases rows.len(),
{
    if rows.len() == 0 {
        seq![]
    } else if rows.last().pinned == 0 {
        unpinned_ranks(rows.drop_last()).push(age_rank(rows.last()))
    } else {
        unpinned_ranks(rows.drop_last())
    }
}

/// The numbers of the clips that are too many: of those that are not pinned, all but
/// the `max` newest; none where there is no limit.
pub open spec fn too_many(rows: Seq<ClipKey>, max: i64) -> Seq<i64> {
    let s = ranked(unpinned_ranks(rows));
    if max > 0 && s.len() > max {
        lows(s.skip(max as int))
    } else {
        seq![]
    }
}

/// The numbers of the clips that are to be deleted, so that of those that are not
/// pinned only the newest are left, `max_items` at most; 0 is no limit.
pub fn prune(rows: &Vec<ClipKey>, max_items: i64) -> (r: Vec<i64>)
    ensures
        r@ == too_many(rows@, max_items),
{
    let mut out: Vec<i64> = Vec::new();
    assert(out@ =~= seq![]);
    if max_items <= 0 {
        return out;
    }
    let mut ranks: Vec<Ranked> = Vec::new();
    let mut i: usize = 0;
    assert(ranks@ =~= unpinned_ranks(rows@.take(0)));
    while i < rows.len()
        invariant
            i <= rows@.len(),
            ranks@ == unpinned_ranks(rows@.take(i as int)),
        decreases rows@.len() - i,
    {
        let k = rows[i];
        assert(rows@.take(i + 1).drop_last() =~= rows@.take(i as int));
        if k.pinned == 0 {
            ranks.push(Ranked { high: k.created_at, low: k.id, at: 0 });
        }
        i = i + 1;
    }
    assert(rows@.take(i as int) =~= rows@);
    let order = by_rank(&ranks);
    if (order.len() as u64) <= (max_items as u64) {
        return out;
    }
    let from: usize = max_items as usize;
    let mut j: usize = from;
    assert(out@ =~= lows(order@.subrange(from as int, from as int)));
    while j < order.len()
        invariant
            from <= j <= order@.len(),
            out@ == lows(order@.subrange(from as int, j as int)),
        decreases order@.len() - j,
    {
        out.push(order[j].low);
        assert(out@ =~= lows(order@.subrange(from as int, j + 1)));
        j = j + 1;
    }
    assert(order@.subrange(from as int, j as int) =~= order@.skip(from as int));
    out
}

/// The clips that are left once those with the numbers `gone` are deleted.
pub open spec fn rows_left(rows: Seq<ClipKey>, gone: Seq<i64>) -> Seq<ClipKey>
    decreases rows.len(),
{
    if rows.len() == 0 {
        seq![]
    } else if gone.contains(rows.last().id) {
        rows_left(rows.drop_last(), gone)
    } else {
        rows_left(rows.drop_last(), gone).push(rows.last())
    }
}

/// Whether each clip has a number of its own.
pub open spec fn ids_differ(rows: Seq<ClipKey>) -> bool {
    forall|i: int, j: int|
        0 <= i < j < rows.len() ==> (#[trigger] rows[i]).id != (#[trigger] rows[j]).id
}

/// Whether `a` is newer than `b`.
pub open spec fn newer(a: ClipKey, b: ClipKey) -> bool {
    a.created_at > b.created_at || (a.created_at == b.created_at && a.id > b.id)
}

proof fn lemma_ranks_left(rows: Seq<ClipKey>, gone: Seq<i64>)
    ensures
        unpinned_ranks(rows_left(rows, gone)) == stripped(unpinned_ranks(rows), gone),
    decreases rows.len(),
{
    if rows.len() > 0 {
        let d = rows.drop_last();
        let k = rows.last();
        lemma_ranks_left(d, gone);
        if !gone.contains(k.id) {
            assert(rows_left(d, gone).push(k).drop_last() =~= rows_left(d, gone));
        }
        if k.pinned == 0 {
            assert(unpinned_ranks(d).push(age_rank(k)).drop_last() =~= unpinned_ranks(d));
        }
    }
}

proof fn lemma_unpinned_ranks(rows: Seq<ClipKey>)
    ensures
        forall|x: Ranked| #[trigger]
            unpinned_ranks(rows).contains(x) <==> exists|i: int|
                0 <= i < rows.len() && (#[trigger] rows[i]).pinned == 0 && x == age_rank(rows[i]),
        ids_differ(rows) ==> lows_differ(unpinned_ranks(rows)),
    decreases rows.len(),
{
    let s = unpinned_ranks(rows);
    if rows.len() > 0 {
        let d = rows.drop_last();
        let k = rows.last();
        let t = unpinned_ranks(d);
        lemma_unpinned_ranks(d);
        assert forall|x: Ranked| #[trigger] s.contains(x) <==> exists|i: int|
            0 <= i < rows.len() && (#[trigger] rows[i]).pinned == 0 && x == age_rank(rows[i]) by {
            if s.contains(x) {
                let a = choose|a: int| 0 <= a < s.len() && s[a] == x;
                if a < t.len() {
                    assert(t[a] == x);
                    assert(t.contains(x));
                    let i = choose|i: int|
                        0 <= i < d.len() && (#[trigger] d[i]).pinned == 0 && x == age_rank(d[i]);
                    assert(rows[i] == d[i]);
                } else {
                    assert(rows[rows.len() - 1] == k);
                }
            }
            if exists|i: int|
                0 <= i < rows.len() && (#[trigger] rows[i]).pinned == 0 && x == age_rank(rows[i]) {
                let i = choose|i: int|
                    0 <= i < rows.len() && (#[trigger] rows[i]).pinned == 0 && x == age_rank(
                        rows[i],
                    );
                if i < d.len() {
                    assert(d[i] == rows[i]);
                    assert(t.contains(x));
                    let a = choose|a: int| 0 <= a < t.len() && t[a] == x;
                    assert(s[a] == x);
                } else {
                    assert(s[t.len() as int] == x);
                }
            }
        }
        if ids_differ(rows) {
            assert(forall|i: int| 0 <= i < d.len() ==> #[trigger] d[i] == rows[i]);
            assert forall|i: int, j: int| 0 <= i < j < s.len() implies (#[trigger] s[i]).low != (
            #[trigger] s[j]).low by {
                if j < t.len() {
                    assert(t[i].low != t[j].low);
                } else {
                    assert(t.contains(t[i]));
                    let a = choose|a: int|
                        0 <= a < d.len() && (#[trigger] d[a]).pinned == 0 && t[i] == age_rank(d[a]);
                    assert(rows[a].id != rows[rows.len() - 1].id);
                }
            }
        }
    }
}

proof fn lemma_rows_left(rows: Seq<ClipKey>, gone: Seq<i64>)
    ensures
        forall|x: ClipKey| #[trigger]
            rows_left(rows, gone).contains(x) <==> rows.contains(x) && !gone.contains(x.id),
    decreases rows.len(),
{
    if rows.len() > 0 {
        let d = rows.drop_last();
        let k = rows.last();
        let t = rows_left(d, gone);
        let l = rows_left(rows, gone);
        lemma_rows_left(d, gone);
        assert forall|x: ClipKey| #[trigger] l.contains(x) <==> rows.contains(x) && !gone.contains(
            x.id,
        ) by {
            assert(t.contains(x) <==> d.contains(x) && !gone.contains(x.id));
            if l.contains(x) {
                let a = choose|a: int| 0 <= a < l.len() && l[a] == x;
                if a < t.len() {
                    assert(t[a] == x);
                    let b = choose|b: int| 0 <= b < d.len() && d[b] == x;
                    assert(rows[b] == x);
                } else {
                    assert(rows[rows.len() - 1] == x);
                }
            }
            if rows.contains(x) && !gone.contains(x.id) {
                let b = choose|b: int| 0 <= b < rows.len() && rows[b] == x;
                if b < d.len() {
                    assert(d[b] == x);
                    let a = choose|a: int| 0 <= a < t.len() && t[a] == x;
                    assert(l[a] == x);
                } else {
                    assert(l[t.len() as int] == x);
                }
            }
        }
    }
}

/// Pruning deletes no pinned clip, and nothing where there is no limit. Of the others
/// it leaves the newest, as many as the limit allows; and pruning again deletes nothing.
pub proof fn pruning_keeps_the_newest(rows: Seq<ClipKey>, max: i64)
    requires
        ids_differ(rows),
    ensures
        ({
            let gone = too_many(rows, max);
            let left = rows_left(rows, gone);
            &&& max <= 0 ==> left == rows
            &&& forall|x: ClipKey| #[trigger] left.contains(x) ==> rows.contains(x)
            &&& forall|x: ClipKey| #[trigger]
                rows.contains(x) && x.pinned != 0 ==> left.contains(x)
            &&& max > 0 ==> unpinned_ranks(left).len() == (if unpinned_ranks(rows).len() > max {
                max as int
            } else {
                unpinned_ranks(rows).len() as int
            })
            &&& forall|x: ClipKey, y: ClipKey|
                #![trigger left.contains(x), rows.contains(y)]
                left.contains(x) && x.pinned == 0 && rows.contains(y) && !left.contains(y)
                    ==> newer(x, y)
            &&& too_many(left, max).len() == 0
        }),
{
    let u = unpinned_ranks(rows);
    let s = ranked(u);
    let gone = too_many(rows, max);
    let left = rows_left(rows, gone);
    lemma_unpinned_ranks(rows);
    ranking_orders(u);
    lemma_ranked_lows(u);
    lemma_ranks_left(rows, gone);
    lemma_rows_left(rows, gone);
    stripping_keeps_order(u, gone);
    ranking_orders(stripped(u, gone));
    let m: int = if max > 0 && s.len() > max {
        max as int
    } else {
        s.len() as int
    };
    assert(gone =~= lows(s.skip(m)));
    lemma_strip_rest(s, m);
    assert(ranked(unpinned_ranks(left)) == s.take(m));
    assert forall|x: ClipKey| rows.contains(x) && gone.contains(x.id) implies x.pinned == 0
        && exists|b: int| m <= b < s.len() && #[trigger] s[b] == age_rank(x) by {
        let a = choose|a: int| 0 <= a < gone.len() && gone[a] == x.id;
        let k = s[m + a];
        assert(s.skip(m)[a] == k);
        assert(s.contains(k));
        assert(u.contains(k));
        let i = choose|i: int|
            0 <= i < rows.len() && (#[trigger] rows[i]).pinned == 0 && k == age_rank(rows[i]);
        let j = choose|j: int| 0 <= j < rows.len() && rows[j] == x;
        if i < j {
            assert(rows[i].id != rows[j].id);
        } else if j < i {
            assert(rows[j].id != rows[i].id);
        }
        assert(s[m + a] == age_rank(x));
    }
    assert forall|x: ClipKey, y: ClipKey|
        #![trigger left.contains(x), rows.contains(y)]
        left.contains(x) && x.pinned == 0 && rows.contains(y) && !left.contains(y) implies newer(
        x,
        y,
    ) by {
        let i = choose|i: int| 0 <= i < rows.len() && rows[i] == x;
        assert(rows[i].pinned == 0);
        assert(u.contains(age_rank(x)));
        assert(s.contains(age_rank(x)));
        let a = choose|a: int| 0 <= a < s.len() && s[a] == age_rank(x);
        let b = choose|b: int| m <= b < s.len() && #[trigger] s[b] == age_rank(y);
        assert(gone.contains(s[a].low) <==> m <= a);
        assert(not_below(s[a], s[b]));
        assert(s[a].low != s[b].low);
    }
    if max <= 0 {
        lemma_nothing_gone(rows);
        assert(gone =~= seq![]);
    }
}

proof fn lemma_nothing_gone(rows: Seq<ClipKey>)
    ensures
        rows_left(rows, seq![]) == rows,
    decreases rows.len(),
{
    if rows.len() > 0 {
        lemma_nothing_gone(rows.drop_last());
        assert(rows.drop_last().push(rows.last()) =~= rows);
    } else {
        assert(rows_left(rows, seq![]) =~= rows);
    }
}

// ---------- ranges of time ----------

/// The remainder with the sign of `a`.
pub open spec fn remainder(a: int, b: int) -> int
    recommends
        b > 0,
{
    if a >= 0 {
        a % b
    } else {
        -((-a) % b)
    }
}

/// The start of the local day, for a time and the distance of the local time
/// from universal time, all in seconds.
pub open spec fn midnight(now: int, offset: int) -> int {
    now - remainder(now + offset, 86400)
}

/// The condition for the clips of a range of time.
pub open spec fn range_condition(range: Seq<char>, now: int, offset: int) -> Seq<char> {
    if range == "1h"@ {
        "created_at >= "@ + dec_int(now - 3600)
    } else if range == "7d"@ {
        "created_at >= "@ + dec_int(now - 7 * 86400)
    } else if range == "30d"@ {
        "created_at >= "@ + dec_int(now - 30 * 86400)
    } else if range == "today"@ {
        "created_at >= "@ + dec_int(midnight(now, offset))
    } else {
        "1=1"@
    }
}

fn since_condition(t: i64) -> (r: String)
    ensures
        r@ == "created_at >= "@ + dec_int(t as int),
{
    let mut s = "created_at >= ".to_string();
    s.append(decimal_i64(t).as_str());
    s
}

/// The condition for the clips of a range of time.
pub fn range_where(range: &str, now: i64, offset: i64) -> (r: String)
    requires
        i64::MIN + 30 * 86400 <= now <= i64::MAX - 86400,
        i64::MIN < now + offset <= i64::MAX,
    ensures
        r@ == range_condition(range@, now as int, offset as int),
{
    if same(range, "1h") {
        since_condition(now - 3600)
    } else if same(range, "7d") {
        since_condition(now - 7 * 86400)
    } else if same(range, "30d") {
        since_condition(now - 30 * 86400)
    } else if same(range, "today") {
        let local: i64 = now + offset;
        let past: i64 = if local >= 0 {
            local % 86400
        } else {
            -((-local) % 86400)
        };
        since_condition(now - past)
    } else {
        "1=1".to_string()
    }
}

/// The statement that counts the pinned clips of a range of time.
pub fn count_pinned_in_range(range: &str, now: i64, offset: i64) -> (r: String)
    requires
        i64::MIN + 30 * 86400 <= now <= i64::MAX - 86400,
        i64::MIN < now + offset <= i64::MAX,
    ensures
        r@ == "SELECT COUNT(*) FROM clips WHERE pinned = 1 AND "@ + range_condition(
            range@,
            now as int,
            offset as int,
        ),
{
    let mut s = "SELECT COUNT(*) FROM clips WHERE pinned = 1 AND ".to_string();
    s.append(range_where(range, now, offset).as_str());
    s
}

/// The condition on pins: pinned clips stay unless they are meant too.
pub open spec fn pin_condition(include_pinned: bool) -> Seq<char> {
    if include_pinned {
        "1=1"@
    } else {
        "pinned = 0"@
    }
}

/// The statement that deletes the clips of a range of time.
pub fn delete_range(range: &str, now: i64, offset: i64, include_pinned: bool) -> (r: String)
    requires
        i64::MIN + 30 * 86400 <= now <= i64::MAX - 86400,
        i64::MIN < now + offset <= i64::MAX,
    ensures
        r@ == "DELETE FROM clips WHERE "@ + range_condition(range@, now as int, offset as int)
            + " AND "@ + pin_condition(include_pinned),
{
    let mut s = "DELETE FROM clips WHERE ".to_string();
    s.append(range_where(range, now, offset).as_str());
    s.append(" AND ");
    if include_pinned {
        s.append("1=1");
    } else {
        s.append("pinned = 0");
    }
    s
}

/// The statement that deletes the clips between two times.
pub fn delete_between(include_pinned: bool) -> (r: String)
    ensures
        r@ == "DELETE FROM clips WHERE created_at BETWEEN ?1 AND ?2 AND "@ + pin_condition(
            include_pinned,
        ),
{
    let mut s = "DELETE FROM clips WHERE created_at BETWEEN ?1 AND ?2 AND ".to_string();
    if include_pinned {
        s.append("1=1");
    } else {
        s.append("pinned = 0");
    }
    s
}

/// The start of the local day is a midnight of local time, not after the present
/// and not a day before it.
pub proof fn today_starts_at_midnight(now: int, offset: int)
    requires
        now + offset >= 0,
    ensures
        (midnight(now, offset) + offset) % 86400 == 0,
        midnight(now, offset) <= now < midnight(now, offset) + 86400,
{
    let x = now + offset;
    vstd::arithmetic::div_mod::lemma_fundamental_div_mod(x, 86400);
    assert(midnight(now, offset) + offset == 86400 * (x / 86400));
    vstd::arithmetic::div_mod::lemma_mod_multiples_basic(x / 86400, 86400);
}

/// The distance of the local time from universal time in seconds, from the
/// system's difference of universal time from local time in minutes.
pub fn local_utc_offset(bias: i32) -> (r: i64)
    ensures
        r == -(bias as int) * 60,
{
    -(bias as i64) * 60
}

// ---------- laws of the store ----------

/// Each clip without a pin counts towards the number that is kept, and no other does.
pub proof fn unpinned_clips_count(rows: Seq<ClipKey>, r: ClipKey)
    ensures
        unpinned_ranks(Seq::empty()).len() == 0,
        r.pinned == 0 ==> unpinned_ranks(rows.push(r)).len() == unpinned_ranks(rows).len() + 1,
        r.pinned != 0 ==> unpinned_ranks(rows.push(r)).len() == unpinned_ranks(rows).len(),
{
    assert(rows.push(r).drop_last() =~= rows);
}

/// Where no clip has a pin, as many go as there are more than are to be kept, and none
/// where there is no limit.
pub proof fn just_the_surplus_goes(rows: Seq<ClipKey>, max: i64)
    requires
        forall|i: int| 0 <= i < rows.len() ==> (#[trigger] rows[i]).pinned == 0,
    ensures
        max > 0 && rows.len() > max ==> too_many(rows, max).len() == rows.len() - max,
        max > 0 && rows.len() <= max ==> too_many(rows, max).len() == 0,
        max <= 0 ==> too_many(rows, max).len() == 0,
{
    lemma_all_unpinned(rows);
    let s = ranked(unpinned_ranks(rows));
    ranking_orders(unpinned_ranks(rows));
    if max > 0 && s.len() > max {
        lemma_lows_len(s.skip(max as int));
    }
}

proof fn lemma_lows_len(s: Seq<Ranked>)
    ensures
        lows(s).len() == s.len(),
    decreases s.len(),
{
    if s.len() > 0 {
        lemma_lows_len(s.drop_last());
    }
}

proof fn lemma_all_unpinned(rows: Seq<ClipKey>)
    requires
        forall|i: int| 0 <= i < rows.len() ==> (#[trigger] rows[i]).pinned == 0,
    ensures
        unpinned_ranks(rows).len() == rows.len(),
    decreases rows.len(),
{
    if rows.len() > 0 {
        let d = rows.drop_last();
        assert forall|i: int| 0 <= i < d.len() implies (#[trigger] d[i]).pinned == 0 by {
            assert(d[i] == rows[i]);
        }
        lemma_all_unpinned(d);
        assert(rows[rows.len() - 1].pinned == 0);
    }
}

/// A content that is there already moves to now and is not stored again; a new one is
/// stored under its own time, or now where it has none.
pub proof fn known_content_moves_up(id: i64, created_at: i64, own: Option<i64>, now: i64)
    ensures
        store_step(Some(id), own, now) == StoreStep::Touch(id, now),
        store_step(None, Some(created_at), now) == StoreStep::Insert(created_at),
        store_step(None, None, now) == StoreStep::Insert(now),
{
}

/// The hash of a clip is that of its text, and of its picture where it has no text; a
/// clip with neither has none.
pub proof fn hash_is_of_the_content(t: Seq<char>, b: Seq<u8>, image: Option<Seq<u8>>)
    ensures
        clip_hash(Some(t), image) == Some(content_hash(encode_utf8(t))),
        clip_hash(None, Some(b)) == Some(content_hash(b)),
        clip_hash(None, None) is None,
{
}

/// The ranges of time: the last hour, the last 7 and 30 days in seconds, and today,
/// which starts with the last midnight of the place; any other range is everything.
pub proof fn ranges_are_in_seconds(range: Seq<char>, now: int, offset: int)
    ensures
        range_condition("1h"@, now, offset) == "created_at >= "@ + dec_int(now - 3600),
        range_condition("7d"@, now, offset) == "created_at >= "@ + dec_int(now - 604800),
        range_condition("30d"@, now, offset) == "created_at >= "@ + dec_int(now - 2592000),
        now + offset >= 0 ==> range_condition("today"@, now, offset) == "created_at >= "@ + dec_int(
            now - (now + offset) % 86400,
        ),
        range != "1h"@ && range != "7d"@ && range != "30d"@ && range != "today"@
            ==> range_condition(range, now, offset) == "1=1"@,
{
    reveal_strlit("1h");
    reveal_strlit("7d");
    reveal_strlit("30d");
    reveal_strlit("today");
    assert("1h"@[0] == '1' && "7d"@[0] == '7' && "30d"@[0] == '3' && "today"@[0] == 't');
}

/// Pinned clips are spared unless they are asked for.
pub proof fn pinned_clips_are_spared()
    ensures
        pin_condition(true) == "1=1"@,
        pin_condition(false) == "pinned = 0"@,
{
}

/// An older database gets the columns that it lacks and no others, hashes for what it
/// holds where it had none, and the index in any case and last.
pub proof fn missing_columns_are_added(has_pinned: bool, has_hash: bool)
    ensures
        schema_steps(has_pinned, has_hash).contains(SchemaStep::AddPinned) == !has_pinned,
        schema_steps(has_pinned, has_hash).contains(SchemaStep::AddHash) == !has_hash,
        schema_steps(has_pinned, has_hash).contains(SchemaStep::Backfill) == !has_hash,
        schema_steps(has_pinned, has_hash).last() == SchemaStep::IndexHash,
        !has_hash ==> schema_steps(has_pinned, has_hash)[schema_steps(has_pinned, has_hash).len()
            - 2] == SchemaStep::Backfill,
{
    let s = schema_steps(has_pinned, has_hash);
    if !has_pinned {
        assert(s[0] == SchemaStep::AddPinned);
    }
    if !has_hash {
        assert(s[s.len() - 3] == SchemaStep::AddHash);
        assert(s[s.len() - 2] == SchemaStep::Backfill);
    }
}

} // verus!
