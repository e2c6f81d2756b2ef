//! Watching the clipboard: what is read, and what of it is recorded.

use crate::dib::{readable, rgba_from_dib};
use crate::hashing::{content_hash, hash_bytes, hash_column, stored_hash};
use crate::http::string_views;
use crate::imaging::{decode_image, encode_png, image_pixels, opt_bytes, opt_picture, png_picture};
use crate::store::{NewClip, NewClipView};
use crate::text::{chars_of, opt_text, string_of_range};
use crate::transfer::{join_lines, on_lines};
use vstd::prelude::*;
use vstd::string::*;
use vstd::utf8::*;

verus! {

/// The largest picture that is recorded.
pub const MAX_IMAGE: usize = 20971520;

/// How much content is left alone at most.
pub const MAX_IGNORED: usize = 64;

// ---------- pictures ----------

/// The picture that a PNG file from the clipboard holds, with its size.
pub open spec fn native_png(file: Seq<u8>) -> Option<(Seq<u8>, u32, u32)> {
    if file.len() > 8 {
        match image_pixels(file) {
            Ok((_, w, h)) => Some((file, w, h)),
            Err(_) => None,
        }
    } else {
        None
    }
}

/// Whether `p` is the picture that a device independent bitmap holds, as PNG.
pub open spec fn dib_picture_is(p: Option<(Seq<u8>, u32, u32)>, d: Seq<u8>) -> bool {
    if readable(d) {
        exists|px: Seq<u8>|
            #![trigger crate::dib::is_picture(px, d)]
            crate::dib::is_picture(px, d) && p == png_picture(
                px,
                crate::dib::width(d) as u32,
                crate::dib::height(d) as u32,
            )
    } else {
        p is None
    }
}

fn read_png(file: Option<Vec<u8>>) -> (r: Option<(Vec<u8>, u32, u32)>)
    ensures
        opt_picture(r) == (match file {
            Some(f) => native_png(f@),
            None => None,
        }),
{
    match file {
        Some(f) => {
            if f.len() > 8 {
                match decode_image(f.as_slice()) {
                    Ok((_, w, h)) => {
                        return Some((f, w, h));
                    },
                    Err(_) => {},
                }
            }
            None
        },
        None => None,
    }
}

fn read_dib(d: &Option<Vec<u8>>) -> (r: Option<(Vec<u8>, u32, u32)>)
    requires
        d matches Some(b) ==> b@.len() <= isize::MAX,
    ensures
        match d {
            Some(b) => dib_picture_is(opt_picture(r), b@),
            None => r is None,
        },
{
    match d {
        Some(b) => match rgba_from_dib(b.as_slice()) {
            Some((px, w, h)) => {
                assert(crate::dib::is_picture(px@, b@));
                encode_png(px, w, h)
            },
            None => None,
        },
        None => None,
    }
}

/// Whether `p` is the picture in one of the forms in which a program may have put
/// it into the clipboard: the first of them that can be read.
pub open spec fn native_picture_is(
    p: Option<(Seq<u8>, u32, u32)>,
    png: Option<Seq<u8>>,
    dibs: Seq<Option<Seq<u8>>>,
) -> bool {
    match png {
        Some(f) => if native_png(f) is Some {
            p == native_png(f)
        } else {
            first_dib_is(p, dibs)
        },
        None => first_dib_is(p, dibs),
    }
}

/// Whether `p` is the picture in the first of some bitmaps that can be read.
pub open spec fn first_dib_is(p: Option<(Seq<u8>, u32, u32)>, dibs: Seq<Option<Seq<u8>>>) -> bool
    decreases dibs.len(),
{
    if dibs.len() == 0 {
        p is None
    } else {
        match dibs[0] {
            Some(d) => if p is Some && dib_picture_is(p, d) {
                true
            } else {
                dib_picture_is(None, d) && first_dib_is(p, dibs.skip(1))
            },
            None => first_dib_is(p, dibs.skip(1)),
        }
    }
}

/// The picture in the clipboard, from the forms in which a program may have put
/// it there: a PNG file, then the bitmaps, the newest form first.
pub fn clipboard_image_native(
    png: Option<Vec<u8>>,
    dib_v5: &Option<Vec<u8>>,
    dib: &Option<Vec<u8>>,
    bitmap: &Option<Vec<u8>>,
) -> (r: Option<(Vec<u8>, u32, u32)>)
    requires
        dib_v5 matches Some(b) ==> b@.len() <= isize::MAX,
        dib matches Some(b) ==> b@.len() <= isize::MAX,
        bitmap matches Some(b) ==> b@.len() <= isize::MAX,
    ensures
        native_picture_is(
            opt_picture(r),
            opt_bytes(png),
            seq![opt_bytes(*dib_v5), opt_bytes(*dib), opt_bytes(*bitmap)],
        ),
{
    let ghost all = seq![opt_bytes(*dib_v5), opt_bytes(*dib), opt_bytes(*bitmap)];
    proof {
        reveal_with_fuel(first_dib_is, 4);
        assert(all.skip(1) =~= seq![opt_bytes(*dib), opt_bytes(*bitmap)]);
        assert(all.skip(1).skip(1) =~= seq![opt_bytes(*bitmap)]);
        assert(all.skip(1).skip(1).skip(1) =~= seq![]);
    }
    match read_png(png) {
        Some(p) => {
            return Some(p);
        },
        None => {},
    }
    match read_dib(dib_v5) {
        Some(p) => {
            return Some(p);
        },
        None => {},
    }
    match read_dib(dib) {
        Some(p) => {
            return Some(p);
        },
        None => {},
    }
    read_dib(bitmap)
}

/// The picture in the clipboard: the pixels as the clipboard gives them, or else
/// what was found otherwise.
pub fn read_image(
    pixels: Option<(Vec<u8>, u32, u32)>,
    native: Option<(Vec<u8>, u32, u32)>,
) -> (r: Option<(Vec<u8>, u32, u32)>)
    ensures
        opt_picture(r) == (match pixels {
            Some((px, w, h)) => match png_picture(px@, w, h) {
                Some(p) => Some(p),
                None => opt_picture(native),
            },
            None => opt_picture(native),
        }),
{
    match pixels {
        Some((px, w, h)) => match encode_png(px, w, h) {
            Some(p) => {
                return Some(p);
            },
            None => {},
        },
        None => {},
    }
    native
}

// ---------- what is in the clipboard ----------

/// What was found in the clipboard, with its hash.
pub enum Cand {
    Text(String, u64),
    /// PNG file, width, height.
    Image(Vec<u8>, u32, u32, u64),
    /// Paths, one on each line.
    File(String, u64),
}

/// The view of what was found in the clipboard.
pub enum CandView {
    Text(Seq<char>, u64),
    Image(Seq<u8>, u32, u32, u64),
    File(Seq<char>, u64),
}

impl View for Cand {
    type V = CandView;

    open spec fn view(&self) -> CandView {
        match self {
            Cand::Text(t, h) => CandView::Text(t@, *h),
            Cand::Image(p, w, high, h) => CandView::Image(p@, *w, *high, *h),
            Cand::File(t, h) => CandView::File(t@, *h),
        }
    }
}

/// The view of what may have been found.
pub open spec fn opt_cand(c: Option<Cand>) -> Option<CandView> {
    match c {
        Some(x) => Some(x@),
        None => None,
    }
}

/// The hash of what was found.
pub open spec fn cand_hash(c: CandView) -> u64 {
    match c {
        CandView::Text(_, h) => h,
        CandView::Image(_, _, _, h) => h,
        CandView::File(_, h) => h,
    }
}

impl Cand {
    /// The hash of what was found.
    pub fn hash(&self) -> (r: u64)
        ensures
            r == cand_hash(self@),
    {
        match self {
            Cand::Text(_, h) => *h,
            Cand::Image(_, _, _, h) => *h,
            Cand::File(_, h) => *h,
        }
    }

    /// What was found, as it is stored.
    pub fn clip(self) -> (r: NewClip)
        ensures
            r@ == clip_of(self@),
    {
        let hash = hash_column(self.hash());
        match self {
            Cand::Text(t, _) => NewClip {
                kind: "text".to_string(),
                content: Some(t),
                image: None,
                width: None,
                height: None,
                hash: hash,
                created_at: None,
                remote_device_id: None,
                remote_id: None,
            },
            Cand::Image(p, w, h, _) => NewClip {
                kind: "image".to_string(),
                content: None,
                image: Some(p),
                width: Some(w),
                height: Some(h),
                hash: hash,
                created_at: None,
                remote_device_id: None,
                remote_id: None,
            },
            Cand::File(t, _) => NewClip {
                kind: "file".to_string(),
                content: Some(t),
                image: None,
                width: None,
                height: None,
                hash: hash,
                created_at: None,
                remote_device_id: None,
                remote_id: None,
            },
        }
    }
}

/// What was found, as it is stored.
pub open spec fn clip_of(c: CandView) -> NewClipView {
    let base = NewClipView {
        kind: "text"@,
        content: None,
        image: None,
        width: None,
        height: None,
        hash: stored_hash(cand_hash(c)),
        created_at: None,
        remote_device_id: None,
        remote_id: None,
    };
    match c {
        CandView::Text(t, _) => NewClipView { content: Some(t), ..base },
        CandView::Image(p, w, h, _) => NewClipView {
            kind: "image"@,
            image: Some(p),
            width: Some(w),
            height: Some(h),
            ..base
        },
        CandView::File(t, _) => NewClipView { kind: "file"@, content: Some(t), ..base },
    }
}

/// A text without the zeros at its end.
pub open spec fn without_zeros(s: Seq<char>) -> Seq<char>
    decreases s.len(),
{
    if s.len() > 0 && s.last() == '\0' {
        without_zeros(s.drop_last())
    } else {
        s
    }
}

fn drop_zeros(s: &str) -> (r: String)
    ensures
        r@ == without_zeros(s@),
{
    let v = chars_of(s);
    let mut n: usize = v.len();
    assert(v@.take(n as int) =~= v@);
    while n > 0 && v[n - 1] == '\0'
        invariant
            n <= v@.len(),
            without_zeros(v@) == without_zeros(v@.take(n as int)),
        decreases n,
    {
        assert(v@.take(n as int).drop_last() =~= v@.take(n - 1));
        n = n - 1;
    }
    let r = string_of_range(&v, 0, n);
    assert(r@ =~= v@.take(n as int));
    r
}

/// What is found in the clipboard: a text, where there is one; else a picture,
/// unless it is too large; else files. A picture that is too large hides files.
pub open spec fn found(
    text: Option<Seq<char>>,
    image: Option<(Seq<u8>, u32, u32)>,
    files: Option<Seq<Seq<char>>>,
) -> Option<CandView> {
    let t = match text {
        Some(t) => without_zeros(t),
        None => seq![],
    };
    if t.len() > 0 {
        Some(CandView::Text(t, content_hash(encode_utf8(t))))
    } else {
        match image {
            Some((png, w, h)) => if png.len() <= MAX_IMAGE {
                Some(CandView::Image(png, w, h, content_hash(png)))
            } else {
                None
            },
            None => match files {
                Some(f) => Some(
                    CandView::File(on_lines(f), content_hash(encode_utf8(on_lines(f)))),
                ),
                None => None,
            },
        }
    }
}

/// What is to be read of the clipboard next.
pub enum ReadStep {
    /// This was found.
    Found(Cand),
    /// Nothing was found yet.
    Next,
    /// Nothing is to be found.
    Nothing,
}

/// Looks at the text in the clipboard.
pub fn read_text(text: &Option<String>) -> (r: ReadStep)
    ensures
        ({
            let t = match opt_text(*text) {
                Some(t) => without_zeros(t),
                None => seq![],
            };
            if t.len() > 0 {
                r matches ReadStep::Found(c) && c@ == CandView::Text(t, content_hash(encode_utf8(t)))
            } else {
                r is Next
            }
        }),
{
    match text {
        Some(s) => {
            let t = drop_zeros(s.as_str());
            if chars_of(t.as_str()).len() > 0 {
                let h = hash_bytes(t.as_str().as_bytes());
                ReadStep::Found(Cand::Text(t, h))
            } else {
                ReadStep::Next
            }
        },
        None => ReadStep::Next,
    }
}

/// Looks at the picture in the clipboard.
pub fn read_picture(image: Option<(Vec<u8>, u32, u32)>) -> (r: ReadStep)
    ensures
        match opt_picture(image) {
            Some((png, w, h)) => if png.len() <= MAX_IMAGE {
                r matches ReadStep::Found(c) && c@ == CandView::Image(png, w, h, content_hash(png))
            } else {
                r is Nothing
            },
            None => r is Next,
        },
{
    match image {
        Some((png, w, h)) => if png.len() <= MAX_IMAGE {
            let hash = hash_bytes(png.as_slice());
            ReadStep::Found(Cand::Image(png, w, h, hash))
        } else {
            ReadStep::Nothing
        },
        None => ReadStep::Next,
    }
}

/// Looks at the files in the clipboard.
pub fn read_files(files: &Option<Vec<String>>) -> (r: ReadStep)
    ensures
        match files {
            Some(f) => {
                let t = on_lines(string_views(f@));
                r matches ReadStep::Found(c) && c@ == CandView::File(t, content_hash(encode_utf8(t)))
            },
            None => r is Nothing,
        },
{
    match files {
        Some(f) => {
            let t = join_lines(f);
            let h = hash_bytes(t.as_str().as_bytes());
            ReadStep::Found(Cand::File(t, h))
        },
        None => ReadStep::Nothing,
    }
}

/// What is found in the clipboard, from all that is in it.
pub fn read_clipboard(
    text: &Option<String>,
    image: Option<(Vec<u8>, u32, u32)>,
    files: &Option<Vec<String>>,
) -> (r: Option<Cand>)
    ensures
        opt_cand(r) == found(
            opt_text(*text),
            opt_picture(image),
            match files {
                Some(f) => Some(string_views(f@)),
                None => None,
            },
        ),
{
    match read_text(text) {
        ReadStep::Found(c) => {
            return Some(c);
        },
        _ => {},
    }
    match read_picture(image) {
        ReadStep::Found(c) => {
            return Some(c);
        },
        ReadStep::Nothing => {
            return None;
        },
        ReadStep::Next => {},
    }
    match read_files(files) {
        ReadStep::Found(c) => Some(c),
        _ => None,
    }
}

// ---------- what is recorded ----------

/// What the watcher remembers.
pub struct Watch {
    /// The hashes of content that is left alone, the oldest first.
    pub ignored: Vec<u64>,
    /// The hash of the content that was seen last.
    pub last_seen: u64,
}

/// The view of what the watcher remembers.
#[verifier::ext_equal]
pub struct WatchView {
    pub ignored: Seq<u64>,
    pub last_seen: u64,
}

impl View for Watch {
    type V = WatchView;

    open spec fn view(&self) -> WatchView {
        WatchView { ignored: self.ignored@, last_seen: self.last_seen }
    }
}

impl WatchView {
    /// No hash stands in the list twice, and the list is not too long.
    pub open spec fn wf(self) -> bool {
        &&& self.ignored.len() <= MAX_IGNORED
        &&& self.ignored.no_duplicates()
    }
}

/// The list of what is left alone with one more hash: the oldest one goes where
/// the list is full.
pub open spec fn with_ignored(v: Seq<u64>, h: u64) -> Seq<u64> {
    if v.contains(h) {
        v
    } else if v.len() >= MAX_IGNORED {
        v.skip(1).push(h)
    } else {
        v.push(h)
    }
}

/// Whether content with the hash `h` is recorded: it is new, recording is on, no
/// excluded program is in front, and it is not left alone.
pub open spec fn records(w: WatchView, h: u64, enabled: bool, excluded: bool) -> bool {
    w.last_seen != h && enabled && !excluded && !w.ignored.contains(h)
}

/// What the watcher remembers after it has seen content with the hash `h`.
pub open spec fn after(w: WatchView, h: u64, enabled: bool, excluded: bool) -> WatchView {
    WatchView {
        last_seen: h,
        ignored: if w.last_seen == h || !enabled {
            w.ignored
        } else if excluded {
            with_ignored(w.ignored, h)
        } else if w.ignored.contains(h) {
            w.ignored
        } else {
            seq![]
        },
    }
}

fn has_hash(v: &Vec<u64>, h: u64) -> (r: bool)
    ensures
        r == v@.contains(h),
{
    let mut i: usize = 0;
    while i < v.len()
        invariant
            i <= v@.len(),
            forall|j: int| 0 <= j < i ==> v@[j] != h,
        decreases v@.len() - i,
    {
        if v[i] == h {
            assert(v@[i as int] == h);
            return true;
        }
        i = i + 1;
    }
    false
}

proof fn lemma_with_ignored(v: Seq<u64>, h: u64)
    requires
        v.no_duplicates(),
        v.len() <= MAX_IGNORED,
    ensures
        with_ignored(v, h).no_duplicates(),
        with_ignored(v, h).len() <= MAX_IGNORED,
        with_ignored(v, h).contains(h),
{
    let r = with_ignored(v, h);
    if !v.contains(h) {
        assert(r.last() == h);
        assert forall|i: int, j: int| 0 <= i < r.len() && 0 <= j < r.len() && i != j implies r[i]
            != r[j] by {
            let k = if v.len() >= MAX_IGNORED {
                1int
            } else {
                0int
            };
            if i < r.len() - 1 {
                assert(r[i] == v[i + k]);
            }
            if j < r.len() - 1 {
                assert(r[j] == v[j + k]);
            }
        }
    }
}

impl Watch {
    /// The watcher at the start.
    pub fn new() -> (r: Self)
        ensures
            r@ == (WatchView { ignored: seq![], last_seen: 0 }),
            r@.wf(),
    {
        let r = Watch { ignored: Vec::new(), last_seen: 0 };
        assert(r.ignored@ =~= seq![]);
        r
    }

    /// Leaves content with the hash `h` alone.
    pub fn push_ignored(&mut self, h: u64)
        requires
            old(self)@.wf(),
        ensures
            final(self)@ == (WatchView {
                ignored: with_ignored(old(self)@.ignored, h),
                ..old(self)@
            }),
            final(self)@.wf(),
    {
        proof {
            lemma_with_ignored(self.ignored@, h);
        }
        if !has_hash(&self.ignored, h) {
            if self.ignored.len() >= MAX_IGNORED {
                let _ = self.ignored.remove(0);
                assert(self.ignored@ =~= old(self).ignored@.skip(1));
            }
            self.ignored.push(h);
        }
    }

    /// Takes note of the content of the clipboard; whether it is to be recorded.
    /// Once something is, nothing is left alone any more.
    pub fn observe(&mut self, h: u64, enabled: bool, excluded: bool) -> (r: bool)
        requires
            old(self)@.wf(),
        ensures
            r == records(old(self)@, h, enabled, excluded),
            final(self)@ == after(old(self)@, h, enabled, excluded),
            final(self)@.wf(),
    {
        if self.last_seen == h {
            return false;
        }
        self.last_seen = h;
        if !enabled {
            return false;
        }
        if excluded {
            self.push_ignored(h);
            return false;
        }
        if has_hash(&self.ignored, h) {
            return false;
        }
        self.ignored = Vec::new();
        assert(self.ignored@ =~= seq![]);
        true
    }

    /// Leaves what is in the clipboard now alone, and takes it as seen.
    pub fn ignore_current_clipboard(&mut self, current: Option<u64>)
        requires
            old(self)@.wf(),
        ensures
            final(self)@ == (match current {
                Some(h) => WatchView {
                    ignored: with_ignored(old(self)@.ignored, h),
                    last_seen: h,
                },
                None => old(self)@,
            }),
            final(self)@.wf(),
    {
        match current {
            Some(h) => {
                self.push_ignored(h);
                self.last_seen = h;
            },
            None => {},
        }
    }
}

/// While recording is off nothing is recorded, and what was copied then is not
/// recorded later as long as it stays in the clipboard.
pub proof fn off_records_nothing(w: WatchView, h: u64, excluded: bool, later: bool)
    ensures
        !records(w, h, false, excluded),
        !records(after(w, h, false, excluded), h, true, later),
{
}

/// What was copied in an excluded program is not recorded later either, even where
/// other content has come between that was not recorded.
pub proof fn excluded_is_never_recorded(w: WatchView, h: u64, other: u64)
    requires
        w.wf(),
        w.last_seen != h,
    ensures
        !records(w, h, true, true),
        !records(after(w, h, true, true), h, true, false),
        !records(after(after(w, h, true, true), other, false, false), h, true, false),
{
    lemma_with_ignored(w.ignored, h);
}

/// What is left alone is not recorded, and stays left alone until something else
/// is recorded or it is pushed out of the list.
pub proof fn ignored_is_not_recorded(w: WatchView, h: u64, enabled: bool, excluded: bool)
    requires
        w.wf(),
        w.ignored.contains(h),
    ensures
        !records(w, h, enabled, excluded),
        after(w, h, enabled, excluded).ignored == w.ignored,
{
}

/// What was deleted while it is in the clipboard does not come back by itself.
pub proof fn deleted_does_not_come_back(w: WatchView, h: u64, enabled: bool, excluded: bool)
    requires
        w.wf(),
    ensures
        ({
            let left = WatchView { ignored: with_ignored(w.ignored, h), last_seen: h };
            left.wf() && !records(left, h, enabled, excluded) && left.ignored.contains(h)
        }),
{
    lemma_with_ignored(w.ignored, h);
}

/// The same content is not recorded twice in a row.
pub proof fn unchanged_is_not_recorded(
    w: WatchView,
    h: u64,
    enabled: bool,
    excluded: bool,
    enabled2: bool,
    excluded2: bool,
)
    ensures
        !records(after(w, h, enabled, excluded), h, enabled2, excluded2),
{
}

// ---------- laws of what is found ----------

/// Of a text only NUL characters at its end are cut off, and all of those: what is
/// left starts the text, what was cut off holds no other character, and what is left
/// does not end with one.
pub proof fn only_end_zeros_are_cut(t: Seq<char>)
    ensures
        without_zeros(t).len() <= t.len(),
        without_zeros(t) == t.take(without_zeros(t).len() as int),
        forall|i: int| without_zeros(t).len() <= i < t.len() ==> (#[trigger] t[i]) as u32 == 0,
        without_zeros(t).len() > 0 ==> without_zeros(t).last() as u32 != 0,
    decreases t.len(),
{
    if t.len() > 0 && t.last() == '\0' {
        let d = t.drop_last();
        only_end_zeros_are_cut(d);
        let n = without_zeros(d).len() as int;
        assert(t.take(n) =~= d.take(n));
        assert forall|i: int| n <= i < t.len() implies (#[trigger] t[i]) as u32 == 0 by {
            if i < d.len() {
                assert(t[i] == d[i]);
            }
        }
    } else {
        assert(t.take(t.len() as int) =~= t);
        if t.len() > 0 {
            let c: char = t[t.len() - 1];
            lemma_nonzero(c);
        }
    }
}

proof fn lemma_nonzero(c: char)
    requires
        c != '\0',
    ensures
        c as u32 != 0,
{
}

/// A text that does not end with a NUL character is recorded as it is, whatever else
/// the clipboard holds; NUL characters after it make no difference.
pub proof fn text_is_found_as_it_is(
    t: Seq<char>,
    zeros: Seq<char>,
    image: Option<(Seq<u8>, u32, u32)>,
    files: Option<Seq<Seq<char>>>,
)
    requires
        t.len() > 0,
        t.last() as u32 != 0,
        forall|i: int| 0 <= i < zeros.len() ==> (#[trigger] zeros[i]) as u32 == 0,
    ensures
        found(Some(t), image, files) == Some(CandView::Text(t, content_hash(encode_utf8(t)))),
        found(Some(t + zeros), image, files) == Some(
            CandView::Text(t, content_hash(encode_utf8(t))),
        ),
{
    let s = t + zeros;
    only_end_zeros_are_cut(t);
    only_end_zeros_are_cut(s);
    let n = without_zeros(t).len() as int;
    if n < t.len() {
        assert(t[t.len() - 1] as u32 == 0);
    }
    assert(t.take(n) =~= t);
    let m = without_zeros(s).len() as int;
    if m < t.len() {
        assert(s[t.len() - 1] == t.last());
    }
    if m > t.len() {
        assert(s.take(m).last() == zeros[m - 1 - t.len()]);
    }
    assert(s.take(m) =~= t);
}

/// Whatever is recorded of a text starts that text, and what it leaves out is NUL
/// characters only.
pub proof fn recorded_text_starts_the_text(
    t: Seq<char>,
    image: Option<(Seq<u8>, u32, u32)>,
    files: Option<Seq<Seq<char>>>,
)
    ensures
        found(Some(t), image, files) matches Some(CandView::Text(w, h)) ==> {
            &&& w.len() <= t.len()
            &&& w == t.take(w.len() as int)
            &&& w.last() as u32 != 0
            &&& forall|i: int| w.len() <= i < t.len() ==> (#[trigger] t[i]) as u32 == 0
            &&& h == content_hash(encode_utf8(w))
        },
{
    only_end_zeros_are_cut(t);
}

/// Where the clipboard holds no text, or one of NUL characters alone, a picture of
/// up to 20 MiB is found as it is; of a larger one nothing is found. Files are found
/// where there is no picture either: their paths, one on each line.
pub proof fn pictures_and_files_are_found(
    t: Option<Seq<char>>,
    image: Option<(Seq<u8>, u32, u32)>,
    files: Option<Seq<Seq<char>>>,
)
    requires
        t matches Some(s) ==> forall|i: int| 0 <= i < s.len() ==> (#[trigger] s[i]) as u32 == 0,
    ensures
        image matches Some((png, w, h)) ==> {
            &&& png.len() <= 20 * 1024 * 1024 ==> found(t, image, files) == Some(
                CandView::Image(png, w, h, content_hash(png)),
            )
            &&& png.len() > 20 * 1024 * 1024 ==> found(t, image, files) is None
        },
        image is None && files is Some ==> found(t, image, files) == Some(
            CandView::File(on_lines(files->0), content_hash(encode_utf8(on_lines(files->0)))),
        ),
        image is None && files is None ==> found(t, image, files) is None,
{
    match t {
        Some(s) => {
            only_end_zeros_are_cut(s);
            let n = without_zeros(s).len() as int;
            if n > 0 {
                assert(s.take(n).last() == s[n - 1]);
            }
        },
        None => {},
    }
}

/// What is found is kept as a clip of its kind, with its content as it is, from this
/// device and at the time at which it is stored.
pub proof fn found_is_kept_as_it_is(t: Seq<char>, p: Seq<u8>, w: u32, high: u32, h: u64)
    ensures
        ({
            let c = clip_of(CandView::Text(t, h));
            &&& c.kind == "text"@ && c.content == Some(t) && c.image is None
            &&& c.width is None && c.height is None
            &&& c.hash == stored_hash(h)
            &&& c.created_at is None && c.remote_device_id is None && c.remote_id is None
        }),
        ({
            let c = clip_of(CandView::File(t, h));
            &&& c.kind == "file"@ && c.content == Some(t) && c.image is None
            &&& c.width is None && c.height is None
            &&& c.hash == stored_hash(h)
            &&& c.created_at is None && c.remote_device_id is None && c.remote_id is None
        }),
        ({
            let c = clip_of(CandView::Image(p, w, high, h));
            &&& c.kind == "image"@ && c.content is None && c.image == Some(p)
            &&& c.width == Some(w) && c.height == Some(high)
            &&& c.hash == stored_hash(h)
            &&& c.created_at is None && c.remote_device_id is None && c.remote_id is None
        }),
{
}

// ---------- laws of what is recorded ----------

/// New content is recorded: where recording is on, the program in front is not left
/// out, the content is not the one that was seen last and not one that is left alone,
/// it is recorded; and afterwards nothing is left alone any more. In every other case
/// nothing is.
pub proof fn new_content_is_recorded(w: WatchView, h: u64, enabled: bool, excluded: bool)
    ensures
        enabled && !excluded && w.last_seen != h && !w.ignored.contains(h) ==> {
            &&& records(w, h, enabled, excluded)
            &&& after(w, h, enabled, excluded).ignored.len() == 0
        },
        !enabled || excluded || w.last_seen == h || w.ignored.contains(h) ==> !records(
            w,
            h,
            enabled,
            excluded,
        ),
        after(w, h, enabled, excluded).last_seen == h,
        !enabled || w.last_seen == h ==> after(w, h, enabled, excluded).ignored == w.ignored,
{
}

/// What is copied again after something else was is recorded again.
pub proof fn copied_again_is_recorded_again(w: WatchView, h: u64, other: u64)
    requires
        h != other,
        w.last_seen != other,
        !w.ignored.contains(other),
        w.last_seen == h,
    ensures
        records(after(w, other, true, false), h, true, false),
{
}

/// Content that is to be left alone is, along with all that was before; only where
/// there are 64 of them already does the one that came first make way.
pub proof fn newest_are_left_alone(v: Seq<u64>, h: u64, x: u64)
    requires
        v.no_duplicates(),
        v.len() <= 64,
    ensures
        with_ignored(v, h).contains(h),
        with_ignored(v, h).len() <= 64,
        with_ignored(v, h).contains(x) ==> x == h || v.contains(x),
        v.contains(x) && (v.len() < 64 || v.contains(h) || v[0] != x) ==> with_ignored(
            v,
            h,
        ).contains(x),
        v.len() == 64 && !v.contains(h) ==> !with_ignored(v, h).contains(v[0]),
        v.contains(h) ==> with_ignored(v, h) == v,
{
    let r = with_ignored(v, h);
    if !v.contains(h) {
        assert(r.last() == h);
        if v.len() >= 64 {
            let rest = v.skip(1);
            assert forall|i: int| 0 <= i < rest.len() implies r[i] == #[trigger] v[i + 1] by {}
            if v.contains(x) && v[0] != x {
                let i = choose|i: int| 0 <= i < v.len() && v[i] == x;
                assert(r[i - 1] == x);
            }
            if r.contains(x) && x != h {
                let i = choose|i: int| 0 <= i < r.len() && r[i] == x;
                assert(v[i + 1] == x);
            }
            if r.contains(v[0]) {
                let i = choose|i: int| 0 <= i < r.len() && r[i] == v[0];
                if i < rest.len() {
                    assert(v[i + 1] == v[0]);
                }
            }
        } else {
            if v.contains(x) {
                let i = choose|i: int| 0 <= i < v.len() && v[i] == x;
                assert(r[i] == x);
            }
            if r.contains(x) && x != h {
                let i = choose|i: int| 0 <= i < r.len() && r[i] == x;
                assert(v[i] == x);
            }
        }
    }
}

// ---------- laws of native pictures ----------

/// A PNG file in the clipboard is taken as it is, where it is longer than its
/// signature and can be read; else the first of the bitmaps that gives a picture is
/// taken, and none before it gives one.
pub proof fn first_picture_is_taken(
    p: Option<(Seq<u8>, u32, u32)>,
    png: Option<Seq<u8>>,
    dibs: Seq<Option<Seq<u8>>>,
)
    requires
        native_picture_is(p, png, dibs),
    ensures
        png matches Some(f) ==> (f.len() > 8 && image_pixels(f) is Ok ==> p == Some(
            (f, image_pixels(f)->Ok_0.1, image_pixels(f)->Ok_0.2),
        )),
        png is None || png->0.len() <= 8 || image_pixels(png->0) is Err ==> (p is Some ==> exists|
            k: int,
        |
            0 <= k < dibs.len() && (#[trigger] dibs[k]) is Some && dib_picture_is(p, dibs[k]->0)
                && forall|i: int|
                0 <= i < k && (#[trigger] dibs[i]) is Some ==> dib_picture_is(None, dibs[i]->0)),
        png is None || png->0.len() <= 8 || image_pixels(png->0) is Err ==> (p is None ==> forall|
            i: int,
        |
            0 <= i < dibs.len() && (#[trigger] dibs[i]) is Some ==> dib_picture_is(
                None,
                dibs[i]->0,
            )),
{
    if png is None || png->0.len() <= 8 || image_pixels(png->0) is Err {
        lemma_first_dib(p, dibs);
    }
}

proof fn lemma_first_dib(p: Option<(Seq<u8>, u32, u32)>, dibs: Seq<Option<Seq<u8>>>)
    requires
        first_dib_is(p, dibs),
    ensures
        p is Some ==> exists|k: int|
            0 <= k < dibs.len() && (#[trigger] dibs[k]) is Some && dib_picture_is(p, dibs[k]->0)
                && forall|i: int|
                0 <= i < k && (#[trigger] dibs[i]) is Some ==> dib_picture_is(None, dibs[i]->0),
        p is None ==> forall|i: int|
            0 <= i < dibs.len() && (#[trigger] dibs[i]) is Some ==> dib_picture_is(
                None,
                dibs[i]->0,
            ),
    decreases dibs.len(),
{
    if dibs.len() > 0 {
        let rest = dibs.skip(1);
        if dibs[0] is Some && p is Some && dib_picture_is(p, dibs[0]->0) {
            assert(dibs[0] is Some);
        } else {
            lemma_first_dib(p, rest);
            if p is Some {
                let k = choose|k: int|
                    0 <= k < rest.len() && (#[trigger] rest[k]) is Some && dib_picture_is(
                        p,
                        rest[k]->0,
                    ) && forall|i: int|
                        0 <= i < k && (#[trigger] rest[i]) is Some ==> dib_picture_is(
                            None,
                            rest[i]->0,
                        );
                assert(dibs[k + 1] == rest[k]);
                assert forall|i: int| 0 <= i < k + 1 && (#[trigger] dibs[i]) is Some implies
                    dib_picture_is(None, dibs[i]->0) by {
                    if i > 0 {
                        assert(rest[i - 1] == dibs[i]);
                    }
                }
            } else {
                assert forall|i: int| 0 <= i < dibs.len() && (#[trigger] dibs[i]) is Some implies
                    dib_picture_is(None, dibs[i]->0) by {
                    if i > 0 {
                        assert(rest[i - 1] == dibs[i]);
                    }
                }
            }
        }
    }
}

/// The picture of a bitmap has the size that the bitmap tells, and there is none of a
/// bitmap that cannot be read.
pub proof fn bitmap_pictures_keep_their_size(p: Option<(Seq<u8>, u32, u32)>, d: Seq<u8>)
    requires
        dib_picture_is(p, d),
    ensures
        !readable(d) ==> p is None,
        p matches Some((f, w, h)) ==> {
            &&& w == crate::dib::width(d) as u32
            &&& h == crate::dib::height(d) as u32
            &&& exists|px: Seq<u8>|
                #![trigger crate::dib::is_picture(px, d)]
                crate::dib::is_picture(px, d) && crate::imaging::png_file(px, w, h) == Some(f)
        },
{
}

} // verus!
